//! From an object to its type, stated over the words of the heap: tags, moved types, and what makes
//! a type one.

use crate::datatypes::{
    datatype_of_tag, datatype_type, follow_moves, forwarding_target, is_moved_datatype,
    is_valid_datatype, lemma_live_copy_is_the_end, live_datatype, live_type_of_tag,
    mmtk_jl_typetagof, names_datatype, resolve_forwarded_datatype_addr, type_of_tag, typetag,
};
use crate::heap::{Heap, HeapView, ObjectReference};
use crate::julia_scanning::{is_object, is_valid_julia_object};
use crate::layouts::{svec_data, svec_len};
use crate::memory::wrap;
use vstd::prelude::*;

verus! {

/// The tag of an object is the word in front of it without what that word leaves over sixteen.
/// There is none below the first address of objects, nor where the word can lie on another page and
/// cannot be read.
pub proof fn lemma_type_tag(h: HeapView, a: u64)
    ensures
        a < 0x20000 ==> typetag(h, a) == 0,
        a >= 0x20000 && (a % 4096 >= 16 || h.readable((a - 8) as u64)) ==> {
            let word = h.word((a - 8) as u64);
            typetag(h, a) == word - word % 16
        },
        a >= 0x20000 && a % 4096 < 16 && !h.readable((a - 8) as u64) ==> typetag(h, a) == 0,
        typetag(h, a) % 16 == 0,
{
    assert(a & 4095 == a % 4096) by (bit_vector);
    if a >= 0x20000 {
        let word = h.word((a - 8) as u64);
        assert(word & !0xf == word - word % 16) by (bit_vector);
    }
}

/// The type of types is what the runtime keeps at the place that it has named, if it has.
pub proof fn lemma_type_of_types(h: HeapView)
    ensures
        ({
            let home = h.config.types.datatype_type_addr;
            &&& home == 0 ==> datatype_type(h) == 0
            &&& home != 0 ==> datatype_type(h) == h.word(home)
        }),
{
}

/// Whether a type has moved away: it is no low number, its header no longer carries the tag of
/// types, and the object that begins behind its header word is known to have moved.
pub open spec fn has_moved_away(h: HeapView, a: u64) -> bool {
    let object = if a / 8 % 2 == 0 {
        a + 8
    } else {
        a as int
    };
    &&& a >= 0x20000
    &&& typetag(h, a) != 16 * h.config.tags.datatype
    &&& exists|o: u64| o == object && #[trigger] h.forwarded.contains(o)
}

/// Where a type that has moved away went: the word in front of it without its highest byte and its
/// three lowest bits.
pub open spec fn new_home(h: HeapView, a: u64) -> int {
    let word = h.word((a - 8) as u64);
    word % 0x100_0000_0000_0000 - word % 8
}

proof fn lemma_one_move(h: HeapView, a: u64)
    ensures
        is_moved_datatype(h, a) <==> has_moved_away(h, a),
        a >= 8 ==> forwarding_target(h, a) == new_home(h, a),
{
    assert(a / 8 % 2 == 0 ==> a | 8 == a + 8) by (bit_vector);
    assert(a / 8 % 2 == 1 ==> a | 8 == a) by (bit_vector);
    if a >= 8 {
        assert(wrap(a - 8) == a - 8);
        let word = h.word((a - 8) as u64);
        assert(word & 0x00ff_ffff_ffff_fff8 == word % 0x100_0000_0000_0000 - word % 8)
            by (bit_vector);
    }
}

/// Whether a list of addresses is a chain of moves: each type in it but the last has moved away, to
/// the next.
pub open spec fn is_chain_of_moves(h: HeapView, chain: Seq<u64>) -> bool {
    &&& chain.len() > 0
    &&& forall|k: int|
        0 <= k < chain.len() - 1 ==> has_moved_away(h, #[trigger] chain[k]) && chain[k + 1]
            == new_home(h, chain[k])
}

proof fn lemma_chain_of_moves(h: HeapView, chain: Seq<u64>)
    requires
        is_chain_of_moves(h, chain),
    ensures
        follow_moves(h, chain[0], (chain.len() - 1) as nat) == chain.last(),
    decreases chain.len(),
{
    if chain.len() > 1 {
        let rest = chain.drop_first();
        lemma_one_move(h, chain[0]);
        assert(has_moved_away(h, chain[0]));
        assert forall|k: int| 0 <= k < rest.len() - 1 implies has_moved_away(h, #[trigger] rest[k])
            && rest[k + 1] == new_home(h, rest[k]) by {
            assert(rest[k] == chain[k + 1]);
        }
        lemma_chain_of_moves(h, rest);
        assert(rest[0] == chain[1]);
        assert(rest.last() == chain.last());
    }
}

/// A moved type lives at the end of its chain of moves, however long the chain is; a type that has
/// not moved lives where it is.
pub proof fn lemma_type_lives_at_the_end(h: HeapView, chain: Seq<u64>)
    requires
        h.forwarded.finite(),
        is_chain_of_moves(h, chain),
        !has_moved_away(h, chain.last()),
    ensures
        live_datatype(h, chain[0]) == chain.last(),
{
    lemma_chain_of_moves(h, chain);
    lemma_one_move(h, chain.last());
    lemma_live_copy_is_the_end(h, chain[0], (chain.len() - 1) as nat);
}

/// A small tag stands for its entry in the table of types, a larger tag for itself; what cannot be
/// a type stands for the type of types. Moves are followed for pointers only.
pub proof fn lemma_type_of_a_tag(h: HeapView, tag: u64)
    ensures
        ({
            let entry = h.small_typeof[(tag / 8) as int];
            let live = live_datatype(h, tag);
            &&& tag < 1024 && entry >= 0x20000 ==> type_of_tag(h, tag) == entry
            &&& tag < 1024 && entry < 0x20000 ==> type_of_tag(h, tag) == datatype_type(h)
            &&& 1024 <= tag < 0x20000 ==> type_of_tag(h, tag) == datatype_type(h)
            &&& tag >= 0x20000 ==> type_of_tag(h, tag) == tag
            &&& tag < 1024 ==> live_type_of_tag(h, tag) == type_of_tag(h, tag)
            &&& tag >= 1024 && live >= 0x20000 ==> live_type_of_tag(h, tag) == live
            &&& tag >= 1024 && live < 0x20000 ==> live_type_of_tag(h, tag) == datatype_type(h)
        }),
{
}

/// A pointer stands for itself, but for the place of the type of types; a low number stands for the
/// type of types.
pub proof fn lemma_pointed_type(h: HeapView, p: u64)
    ensures
        p < 0x20000 || p == h.config.types.datatype_type_addr ==> datatype_of_tag(h, p)
            == datatype_type(h),
        p >= 0x20000 && p != h.config.types.datatype_type_addr ==> datatype_of_tag(h, p) == p,
{
}

/// Whether a pointer leads to a word that can be read.
pub open spec fn leads_to_a_word(h: HeapView, p: u64) -> bool {
    p >= 0x20000 && h.readable(p)
}

/// Whether what a pointer leads to has a header that can be read and that carries a small tag.
pub open spec fn leads_to_tagged(h: HeapView, p: u64, tag: u64) -> bool {
    let word = h.word((p - 8) as u64);
    &&& p >= 0x20000
    &&& h.readable((p - 8) as u64)
    &&& word - word % 16 == 16 * tag
}

/// Whether what a type must have is at an address: an aligned struct of at least seven words that
/// can be read, a name with a symbol and a module, and a supertype and a layout that are missing or
/// can be read.
pub open spec fn is_built_as_type(h: HeapView, vt: u64) -> bool {
    let abi = h.config.abi;
    let name = h.word(wrap(vt + abi.datatype_name));
    let supertype = h.word(wrap(vt + abi.datatype_super));
    let layout = h.word(wrap(vt + abi.datatype_layout));
    &&& leads_to_a_word(h, vt) && vt % 8 == 0
    &&& h.readable(wrap(vt + 48))
    &&& leads_to_a_word(h, name) && h.readable(wrap(name + 8))
    &&& leads_to_tagged(h, h.word(wrap(name + abi.typename_name)), h.config.tags.symbol)
    &&& leads_to_tagged(h, h.word(wrap(name + abi.typename_module)), h.config.tags.module)
    &&& supertype != 0 ==> leads_to_a_word(h, supertype)
    &&& layout != 0 ==> leads_to_a_word(h, layout)
}

/// Whether the header of what a pointer leads to says that it is a type: it carries the tag of
/// types, or points to what carries it, or is the type of types or the place of it.
pub open spec fn says_type(h: HeapView, p: u64) -> bool {
    let word = h.word((p - 8) as u64);
    let tag = (word - word % 16) as u64;
    let home = h.config.types.datatype_type_addr;
    ||| tag == 16 * h.config.tags.datatype
    ||| leads_to_tagged(h, tag, h.config.tags.datatype)
    ||| tag != 0 && tag == home
    ||| tag != 0 && home != 0 && tag == h.word(home)
}

/// A tag names a type if and only if it is small, or a pointer to something aligned whose header
/// can be read and says that it is a type, and that is built as one.
pub proof fn lemma_what_names_a_type(h: HeapView, p: u64)
    requires
        p != h.config.types.datatype_type_addr,
    ensures
        p < 1024 ==> names_datatype(h, p),
        1024 <= p < 0x20000 ==> !names_datatype(h, p),
        p >= 0x20000 ==> (names_datatype(h, p) <==> {
            &&& p % 8 == 0
            &&& h.readable((p - 8) as u64)
            &&& says_type(h, p)
            &&& is_built_as_type(h, p)
        }),
{
    if p >= 0x20000 {
        let abi = h.config.abi;
        let name = h.word(wrap(p + abi.datatype_name));
        let word = h.word((p - 8) as u64);
        lemma_type_tag(h, p);
        lemma_type_tag(h, typetag(h, p));
        lemma_type_tag(h, h.word(wrap(name + abi.typename_name)));
        lemma_type_tag(h, h.word(wrap(name + abi.typename_module)));
    }
}

/// The place where the runtime keeps the type of types names a type if its header can be read and
/// says so and if what is kept there is built as one.
pub proof fn lemma_place_names_a_type(h: HeapView)
    requires
        h.config.types.datatype_type_addr >= 0x20000,
    ensures
        ({
            let home = h.config.types.datatype_type_addr;
            names_datatype(h, home) <==> {
                &&& home % 8 == 0
                &&& h.readable((home - 8) as u64)
                &&& says_type(h, home)
                &&& is_built_as_type(h, h.word(home))
            }
        }),
{
    let home = h.config.types.datatype_type_addr;
    let vt = h.word(home);
    let abi = h.config.abi;
    let name = h.word(wrap(vt + abi.datatype_name));
    lemma_type_tag(h, home);
    lemma_type_tag(h, typetag(h, home));
    lemma_type_tag(h, h.word(wrap(name + abi.typename_name)));
    lemma_type_tag(h, h.word(wrap(name + abi.typename_module)));
}

/// What can be an object at all has an aligned address and a header that can be read. Given that, a
/// buffer is one; an object with a small tag is one if the table has a type for the tag; and one
/// with a pointer for its tag is one if the live copy of its type is managed and is a type. No
/// object has a tag of zero.
pub proof fn lemma_what_is_an_object(h: HeapView, obj: u64)
    requires
        obj >= 8,
        h.config.buff_tag != 0,
    ensures
        ({
            let tag = typetag(h, obj);
            let entry = h.small_typeof[(tag / 8) as int];
            let live = live_datatype(h, tag);
            let fits = obj % 8 == 0 && h.readable((obj - 8) as u64);
            let buffer = tag == h.config.buff_tag;
            &&& is_object(h, obj) ==> fits && tag != 0
            &&& buffer ==> (is_object(h, obj) <==> fits)
            &&& !buffer && 0 < tag < 1024 ==> (is_object(h, obj) <==> fits && entry != 0
                && names_datatype(h, entry))
            &&& !buffer && tag >= 1024 && live >= 1024 ==> (is_object(h, obj) <==> fits
                && h.is_mapped(live) && names_datatype(h, live))
            &&& !buffer && tag >= 1024 && live < 1024 ==> (is_object(h, obj) <==> fits && live != 0)
        }),
{
}

/// The length of a simple vector is a word of its fixed part, behind which its elements lie.
pub proof fn lemma_parts_of_a_vector(h: HeapView, v: u64)
    ensures
        svec_len(h, v) == h.word(wrap(v + h.config.abi.svec_length)),
        v + h.config.abi.svec_size <= u64::MAX ==> svec_data(h, v) == v + h.config.abi.svec_size,
{
}

/// The tag that is read for an object is the word in front of it without its four lowest bits,
/// wherever that word can be read.
pub proof fn lemma_read_tag(heap: &Heap, a: u64, r: u64)
    requires
        call_ensures(mmtk_jl_typetagof, (heap, a), r),
        a >= 0x20000,
        heap@.readable((a - 8) as u64),
    ensures
        ({
            let word = heap@.word((a - 8) as u64);
            r == word - word % 16
        }),
{
    lemma_type_tag(heap@, a);
}

/// A pointer is found to name a type if and only if it is aligned, its header can be read and says
/// that it is a type, and it is built as one.
pub proof fn lemma_found_type(heap: &Heap, p: u64, r: bool)
    requires
        call_ensures(is_valid_datatype, (heap, p), r),
        p >= 0x20000,
        p != heap@.config.types.datatype_type_addr,
    ensures
        r <==> {
            &&& p % 8 == 0
            &&& heap@.readable((p - 8) as u64)
            &&& says_type(heap@, p)
            &&& is_built_as_type(heap@, p)
        },
{
    lemma_what_names_a_type(heap@, p);
}

/// The live copy that is found for a type is the one at the end of its chain of moves.
pub proof fn lemma_found_copy(heap: &Heap, chain: Seq<u64>, r: u64)
    requires
        call_ensures(resolve_forwarded_datatype_addr, (heap, chain[0]), r),
        heap@.forwarded.finite(),
        is_chain_of_moves(heap@, chain),
        !has_moved_away(heap@, chain.last()),
    ensures
        r == chain.last(),
{
    lemma_type_lives_at_the_end(heap@, chain);
}

/// What is found to be an object has an aligned address, a header that can be read and a tag; a
/// managed pointer to a type will do for one.
pub proof fn lemma_found_object(heap: &Heap, object: ObjectReference, r: bool)
    requires
        call_ensures(is_valid_julia_object, (heap, object), r),
        object.raw >= 8,
        heap@.config.buff_tag != 0,
    ensures
        ({
            let tag = typetag(heap@, object.raw);
            let live = live_datatype(heap@, tag);
            &&& r ==> object.raw % 8 == 0 && heap@.readable((object.raw - 8) as u64) && tag != 0
            &&& object.raw % 8 == 0 && heap@.readable((object.raw - 8) as u64) && live >= 1024
                && tag >= 1024 && heap@.is_mapped(live) && names_datatype(heap@, live) ==> r
        }),
{
    lemma_what_is_an_object(heap@, object.raw);
}

} // verus!
