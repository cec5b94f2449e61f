//! From an object to its type: type tags, the table of small tags, forwarded types, and the
//! checks that tell a type from freed or corrupt memory.

use crate::heap::{Heap, HeapView};
use crate::julia_types::{tag_word, MIN_POINTER, SMALL_TAG_LIMIT, TAGGED_VALUE_SIZE};
use crate::memory::{offset_back, offset_by, wrap, Address};
use vstd::prelude::*;

verus! {

/// The bits of a header that hold the address of a moved object.
pub const FORWARDING_POINTER_MASK: u64 = 0x00ff_ffff_ffff_fff8;

/// The type tag of the object at `a`: its header without the status bits. It is zero where no
/// object can be, and where the header lies on another page that cannot be read.
pub open spec fn typetag(h: HeapView, a: u64) -> u64 {
    if a < MIN_POINTER {
        0
    } else if (a & 4095) >= 16 || h.readable((a - TAGGED_VALUE_SIZE) as u64) {
        h.word((a - TAGGED_VALUE_SIZE) as u64) & !0xf
    } else {
        0
    }
}

/// Reads the type tag of an object.
pub fn mmtk_jl_typetagof(heap: &Heap, addr: Address) -> (r: Address)
    ensures
        r == typetag(heap@, addr),
{
    if addr < MIN_POINTER {
        return 0;
    }
    let as_tagged_value: u64 = addr - TAGGED_VALUE_SIZE;
    // A header on the same page as the object is mapped with it and needs no probe.
    let is_same_page: bool = (addr & 4095) >= 16;
    if is_same_page || heap.is_readable(as_tagged_value) {
        heap.load_u64(as_tagged_value) & !0xf
    } else {
        0
    }
}

/// Whether the object at `a` carries the small tag `tag`.
pub open spec fn has_small_tag(h: HeapView, a: u64, tag: u64) -> bool {
    typetag(h, a) == tag_word(tag)
}

/// The type of types, as the runtime has it now; zero before it is set up.
pub open spec fn datatype_type(h: HeapView) -> u64 {
    if h.config.types.datatype_type_addr == 0 {
        0
    } else {
        h.word(h.config.types.datatype_type_addr)
    }
}

/// Reads the type of types.
pub fn safe_jl_datatype_type(heap: &Heap) -> (r: Address)
    ensures
        r == datatype_type(heap@),
{
    let addr: u64 = heap.config.types.datatype_type_addr;
    if addr == 0 {
        0
    } else {
        heap.load_u64(addr)
    }
}

/// The type that a tag points to: low tags stand for the type of types, and so does the place
/// where the runtime keeps it.
pub open spec fn datatype_of_tag(h: HeapView, vtag: u64) -> u64 {
    if vtag < MIN_POINTER {
        datatype_type(h)
    } else if vtag == h.config.types.datatype_type_addr {
        datatype_type(h)
    } else {
        vtag
    }
}

/// Finds the type that a tag points to.
pub fn resolve_datatype_ptr(heap: &Heap, vtag: Address) -> (r: Address)
    ensures
        r == datatype_of_tag(heap@, vtag),
{
    if vtag < MIN_POINTER {
        return safe_jl_datatype_type(heap);
    }
    let datatype_type_addr: u64 = heap.config.types.datatype_type_addr;
    if datatype_type_addr != 0 && vtag == datatype_type_addr {
        return heap.load_u64(datatype_type_addr);
    }
    vtag
}

/// Whether the type at `a` was moved and its header overwritten with its new address.
pub open spec fn is_moved_datatype(h: HeapView, a: u64) -> bool {
    &&& a >= MIN_POINTER
    &&& !has_small_tag(h, a, h.config.tags.datatype)
    &&& h.forwarded.contains(a | 8)
}

/// The new address that the header of a moved object holds.
pub open spec fn forwarding_target(h: HeapView, a: u64) -> u64 {
    h.word(wrap(a - TAGGED_VALUE_SIZE)) & FORWARDING_POINTER_MASK
}

/// The end of the chain of moves that starts at `a`, over at most `hops` moves.
pub open spec fn follow_moves(h: HeapView, a: u64, hops: nat) -> u64
    decreases hops,
{
    if hops > 0 && is_moved_datatype(h, a) {
        follow_moves(h, forwarding_target(h, a), (hops - 1) as nat)
    } else {
        a
    }
}

/// The number of moves after which a chain of moves has ended, if it ever does. Each moved object
/// can be met twice, once by its address and once by that address without its fourth bit.
pub open spec fn max_moves(h: HeapView) -> nat {
    2 * h.forwarded.len()
}

/// Where the type at `a` lives now: at the end of its chain of moves.
pub open spec fn live_datatype(h: HeapView, a: u64) -> u64 {
    follow_moves(h, a, max_moves(h))
}

proof fn lemma_follow_in_parts(h: HeapView, a: u64, x: nat, y: nat)
    ensures
        follow_moves(h, a, x + y) == follow_moves(h, follow_moves(h, a, x), y),
    decreases x,
{
    if x > 0 && is_moved_datatype(h, a) {
        lemma_follow_in_parts(h, forwarding_target(h, a), (x - 1) as nat, y);
    } else if x > 0 {
        assert(follow_moves(h, a, x) == a);
        assert(follow_moves(h, a, x + y) == a);
        assert(follow_moves(h, a, y) == a);
    }
}

/// A chain of moves that has ended does not go on.
proof fn lemma_follow_ended(h: HeapView, a: u64, n: nat, m: nat)
    requires
        !is_moved_datatype(h, follow_moves(h, a, n)),
        n <= m,
    ensures
        follow_moves(h, a, m) == follow_moves(h, a, n),
{
    lemma_follow_in_parts(h, a, n, (m - n) as nat);
}

/// A chain of moves that comes back to an address never ends.
proof fn lemma_follow_cycle(h: HeapView, a: u64, i: nat, j: nat, k: nat)
    requires
        i < j,
        follow_moves(h, a, i) == follow_moves(h, a, j),
        forall|t: nat| t <= j ==> is_moved_datatype(h, #[trigger] follow_moves(h, a, t)),
    ensures
        is_moved_datatype(h, follow_moves(h, a, k)),
    decreases k,
{
    if k > j {
        lemma_follow_in_parts(h, a, j, (k - j) as nat);
        lemma_follow_in_parts(h, a, i, (k - j) as nat);
        lemma_follow_cycle(h, a, i, j, (i + (k - j)) as nat);
    }
}

/// The image of a set is no larger than the set.
proof fn lemma_image_size(s: Set<u64>, f: spec_fn(u64) -> u64)
    requires
        s.finite(),
    ensures
        s.map(f).finite(),
        s.map(f).len() <= s.len(),
    decreases s.len(),
{
    if s.len() == 0 {
        assert(s =~= Set::empty());
        assert(s.map(f) =~= Set::empty());
    } else {
        let x = s.choose();
        let rest = s.remove(x);
        lemma_image_size(rest, f);
        assert(s.map(f) =~= rest.map(f).insert(f(x))) by {
            assert forall|y: u64| s.map(f).contains(y) implies rest.map(f).insert(f(x)).contains(
                y,
            ) by {
                let z = choose|z: u64| s.contains(z) && y == f(z);
                if z != x {
                    assert(rest.contains(z));
                }
            }
            assert forall|y: u64| rest.map(f).insert(f(x)).contains(y) implies s.map(f).contains(
                y,
            ) by {
                if y != f(x) {
                    let z = choose|z: u64| rest.contains(z) && y == f(z);
                    assert(s.contains(z));
                }
            }
        }
    }
}

/// A chain of more moves than there can be meets an address twice.
proof fn lemma_long_chain_repeats(h: HeapView, a: u64) -> (r: (nat, nat))
    requires
        h.forwarded.finite(),
        forall|t: nat| t <= max_moves(h) ==> is_moved_datatype(h, #[trigger] follow_moves(h, a, t)),
    ensures
        r.0 < r.1 <= max_moves(h),
        follow_moves(h, a, r.0) == follow_moves(h, a, r.1),
{
    let clear = |x: u64| x & !8;
    let all = h.forwarded.union(h.forwarded.map(clear));
    lemma_image_size(h.forwarded, clear);
    vstd::set_lib::lemma_len_union(h.forwarded, h.forwarded.map(clear));
    let chain = Seq::new(max_moves(h) + 1, |t: int| follow_moves(h, a, t as nat));
    if chain.no_duplicates() {
        chain.unique_seq_to_set();
        assert forall|x: u64| chain.to_set().contains(x) implies all.contains(x) by {
            let t = choose|t: int| 0 <= t < chain.len() && chain[t] == x;
            assert(is_moved_datatype(h, follow_moves(h, a, t as nat)));
            assert(x | 8 == x || (x | 8) & !8 == x) by (bit_vector);
            if x | 8 != x {
                assert(h.forwarded.map(clear).contains(clear(x | 8)));
            }
        }
        assert(chain.to_set().subset_of(all));
        vstd::set_lib::lemma_len_subset(chain.to_set(), all);
    }
    let (i, j) = choose|i: int, j: int|
        0 <= i < chain.len() && 0 <= j < chain.len() && i != j && chain[i] == chain[j];
    if i < j {
        (i as nat, j as nat)
    } else {
        (j as nat, i as nat)
    }
}

/// A chain of moves that ends, ends at the live copy: after however many moves it reaches an
/// object that has not moved, that object is the live copy.
pub proof fn lemma_live_copy_is_the_end(h: HeapView, a: u64, n: nat)
    requires
        h.forwarded.finite(),
        !is_moved_datatype(h, follow_moves(h, a, n)),
    ensures
        live_datatype(h, a) == follow_moves(h, a, n),
        live_datatype(h, live_datatype(h, a)) == live_datatype(h, a),
{
    let bound = max_moves(h);
    if n <= bound {
        lemma_follow_ended(h, a, n, bound);
    } else if !is_moved_datatype(h, follow_moves(h, a, bound)) {
        lemma_follow_ended(h, a, bound, n);
    } else {
        assert forall|t: nat| t <= bound implies is_moved_datatype(
            h,
            #[trigger] follow_moves(h, a, t),
        ) by {
            if !is_moved_datatype(h, follow_moves(h, a, t)) {
                lemma_follow_ended(h, a, t, bound);
            }
        }
        let (i, j) = lemma_long_chain_repeats(h, a);
        lemma_follow_cycle(h, a, i, j, n);
    }
}

/// A type that has not moved is its own live copy.
pub proof fn lemma_unmoved_type_stays(h: HeapView, a: u64)
    requires
        !is_moved_datatype(h, a),
    ensures
        live_datatype(h, a) == a,
{
}

/// Follows the moves of a type to its live copy; a type that has not moved stays.
pub fn resolve_forwarded_datatype_addr(heap: &Heap, addr: Address) -> (r: Address)
    requires
        heap@.wf(),
    ensures
        r == live_datatype(heap@, addr),
{
    broadcast use vstd::std_specs::hash::group_hash_axioms;

    let datatype_word: u64 = heap.config.tags.datatype * 16;
    let mut at: u64 = addr;
    let mut hops: u128 = 2 * (heap.forwarded.len() as u128);
    while hops > 0 && at >= MIN_POINTER && mmtk_jl_typetagof(heap, at) != datatype_word
        && heap.is_forwarded(at | 8)
        invariant
            datatype_word == tag_word(heap@.config.tags.datatype),
            follow_moves(heap@, at, hops as nat) == live_datatype(heap@, addr),
        decreases hops,
    {
        at = heap.load_u64(offset_back(at, TAGGED_VALUE_SIZE)) & FORWARDING_POINTER_MASK;
        hops = hops - 1;
    }
    at
}

/// The type that a tag names: small tags through the table, other tags directly. Where no type
/// can be, it is the type of types.
pub open spec fn type_of_tag(h: HeapView, t: u64) -> u64 {
    if t < SMALL_TAG_LIMIT {
        let ty = h.small_typeof[(t / 8) as int];
        if ty < MIN_POINTER {
            datatype_type(h)
        } else {
            ty
        }
    } else if t < MIN_POINTER {
        datatype_type(h)
    } else {
        t
    }
}

/// Finds the type that a tag names, with no regard to moved types.
pub fn mmtk_jl_to_typeof(heap: &Heap, t: Address) -> (r: Address)
    requires
        heap@.wf(),
    ensures
        r == type_of_tag(heap@, t),
{
    if t < SMALL_TAG_LIMIT {
        let ty: u64 = heap.small_typeof[(t / 8) as usize];
        if ty < MIN_POINTER {
            return safe_jl_datatype_type(heap);
        }
        return ty;
    }
    if t < MIN_POINTER {
        return safe_jl_datatype_type(heap);
    }
    t
}

/// The type that a tag names, with moved types followed to their live copy.
pub open spec fn live_type_of_tag(h: HeapView, t: u64) -> u64 {
    if t < SMALL_TAG_LIMIT {
        type_of_tag(h, t)
    } else if live_datatype(h, t) < MIN_POINTER {
        datatype_type(h)
    } else {
        live_datatype(h, t)
    }
}

/// Finds the type that a tag names and follows it to its live copy.
pub fn mmtk_jl_to_typeof_resolving(heap: &Heap, t: Address) -> (r: Address)
    requires
        heap@.wf(),
    ensures
        r == live_type_of_tag(heap@, t),
{
    if t < SMALL_TAG_LIMIT {
        return mmtk_jl_to_typeof(heap, t);
    }
    let resolved: u64 = resolve_forwarded_datatype_addr(heap, t);
    if resolved < MIN_POINTER {
        return safe_jl_datatype_type(heap);
    }
    resolved
}

/// Finds the type of an object, with no regard to moved types.
pub fn mmtk_jl_typeof(heap: &Heap, addr: Address) -> (r: Address)
    requires
        heap@.wf(),
    ensures
        r == type_of_tag(heap@, typetag(heap@, addr)),
{
    mmtk_jl_to_typeof(heap, mmtk_jl_typetagof(heap, addr))
}

/// Finds the type of an object and follows it to its live copy.
pub fn mmtk_jl_typeof_resolving(heap: &Heap, addr: Address) -> (r: Address)
    requires
        heap@.wf(),
    ensures
        r == live_type_of_tag(heap@, typetag(heap@, addr)),
{
    mmtk_jl_to_typeof_resolving(heap, mmtk_jl_typetagof(heap, addr))
}

/// A pointer that may be followed: not a low number, and readable.
pub open spec fn followable(h: HeapView, p: u64) -> bool {
    p >= MIN_POINTER && h.readable(p)
}

/// Whether `vt` has the shape of a type: aligned, readable, with a name that is a symbol of a
/// module, and with a supertype and a layout that are absent or can be followed.
pub open spec fn datatype_shape(h: HeapView, vt: u64) -> bool {
    let abi = h.config.abi;
    let tags = h.config.tags;
    let name = h.field(vt, abi.datatype_name);
    let symbol = h.field(name, abi.typename_name);
    let module = h.field(name, abi.typename_module);
    let supertype = h.field(vt, abi.datatype_super);
    let layout = h.field(vt, abi.datatype_layout);
    &&& followable(h, vt)
    &&& vt % 8 == 0
    &&& h.readable(wrap(vt + 48))
    &&& followable(h, name)
    &&& h.readable(wrap(name + 8))
    &&& symbol >= MIN_POINTER
    &&& h.readable((symbol - TAGGED_VALUE_SIZE) as u64)
    &&& has_small_tag(h, symbol, tags.symbol)
    &&& module >= MIN_POINTER
    &&& h.readable((module - TAGGED_VALUE_SIZE) as u64)
    &&& has_small_tag(h, module, tags.module)
    &&& supertype == 0 || followable(h, supertype)
    &&& layout == 0 || followable(h, layout)
}

/// Checks the shape of a type.
pub fn is_valid_datatype_struct(heap: &Heap, vt: Address) -> (r: bool)
    requires
        heap@.wf(),
    ensures
        r == datatype_shape(heap@, vt),
{
    let abi = heap.config.abi;
    if vt < MIN_POINTER || vt % 8 != 0 {
        return false;
    }
    if !heap.is_readable(vt) || !heap.is_readable(offset_by(vt, 48)) {
        return false;
    }
    let name: u64 = heap.load_field(vt, abi.datatype_name);
    if name < MIN_POINTER || !heap.is_readable(name) || !heap.is_readable(offset_by(name, 8)) {
        return false;
    }
    let symbol: u64 = heap.load_field(name, abi.typename_name);
    let module: u64 = heap.load_field(name, abi.typename_module);
    if symbol < MIN_POINTER || module < MIN_POINTER {
        return false;
    }
    if !heap.is_readable(symbol - TAGGED_VALUE_SIZE) || !heap.is_readable(
        module - TAGGED_VALUE_SIZE,
    ) {
        return false;
    }
    if mmtk_jl_typetagof(heap, symbol) != heap.config.tags.symbol * 16 {
        return false;
    }
    if mmtk_jl_typetagof(heap, module) != heap.config.tags.module * 16 {
        return false;
    }
    let supertype: u64 = heap.load_field(vt, abi.datatype_super);
    if supertype != 0 && (supertype < MIN_POINTER || !heap.is_readable(supertype)) {
        return false;
    }
    let layout: u64 = heap.load_field(vt, abi.datatype_layout);
    if layout != 0 && (layout < MIN_POINTER || !heap.is_readable(layout)) {
        return false;
    }
    true
}

/// Whether the header of `vtag` says that it is a type: by the small tag of types, by a tag
/// that is itself a type, by the type of types, or by a tag that is the type of types itself.
pub open spec fn tagged_as_datatype(h: HeapView, vtag: u64) -> bool {
    let tag = typetag(h, vtag);
    let home = h.config.types.datatype_type_addr;
    let types = datatype_type(h);
    let datatype_tag = h.config.tags.datatype;
    ||| has_small_tag(h, vtag, datatype_tag)
    ||| tag >= MIN_POINTER && h.readable((tag - TAGGED_VALUE_SIZE) as u64) && has_small_tag(
        h,
        tag,
        datatype_tag,
    )
    ||| home != 0 && tag == home
    ||| types != 0 && tag == types
}

/// Whether a tag names a type: a small tag does, and a pointer to something that is tagged as
/// a type and has its shape.
pub open spec fn names_datatype(h: HeapView, vtag: u64) -> bool {
    ||| vtag < SMALL_TAG_LIMIT
    ||| {
        &&& vtag >= MIN_POINTER
        &&& vtag % 8 == 0
        &&& h.readable((vtag - TAGGED_VALUE_SIZE) as u64)
        &&& tagged_as_datatype(h, vtag)
        &&& datatype_shape(h, datatype_of_tag(h, vtag))
    }
}

/// Checks that a tag names a type.
pub fn is_valid_datatype(heap: &Heap, vtag: Address) -> (r: bool)
    requires
        heap@.wf(),
    ensures
        r == names_datatype(heap@, vtag),
{
    if vtag < SMALL_TAG_LIMIT {
        return true;
    }
    if vtag < MIN_POINTER || vtag % 8 != 0 || !heap.is_readable(vtag - TAGGED_VALUE_SIZE) {
        return false;
    }
    let type_tag: u64 = mmtk_jl_typetagof(heap, vtag);
    let datatype_type_addr: u64 = heap.config.types.datatype_type_addr;
    let datatype_type_val: u64 = safe_jl_datatype_type(heap);
    let datatype_word: u64 = heap.config.tags.datatype * 16;
    let is_vtag_datatype_type: bool = (datatype_type_addr != 0 && vtag == datatype_type_addr) || (
    datatype_type_val != 0 && vtag == datatype_type_val);
    let is_type_tag_readable: bool = type_tag >= MIN_POINTER && heap.is_readable(
        type_tag - TAGGED_VALUE_SIZE,
    );
    let is_datatype: bool = type_tag == datatype_word || (is_type_tag_readable
        && mmtk_jl_typetagof(heap, type_tag) == datatype_word) || (datatype_type_addr != 0
        && type_tag == datatype_type_addr) || (datatype_type_val != 0 && type_tag
        == datatype_type_val) || (is_vtag_datatype_type && type_tag == vtag);
    if !is_datatype {
        return false;
    }
    is_valid_datatype_struct(heap, resolve_datatype_ptr(heap, vtag))
}

} // verus!
