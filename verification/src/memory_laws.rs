//! Bytes, words and addresses: what loads, stores and copies do, byte by byte.

use crate::heap::{HeapView, ObjectReference};
use crate::memory::{
    byte_at, disjoint, half_at, lemma_store_frame_byte, lemma_store_readable, lemma_within_plain,
    lemma_word_after_store, lemma_word_store_readable, lemma_wrap_twice, number_at, quad_at,
    with_copy, with_word, with_zeros, within, word_at, word_readable, wrap,
};
use vstd::prelude::*;

verus! {

/// An address is a number below the size of the address space; going round the space by whole turns
/// changes nothing.
pub proof fn lemma_addresses_wrap(x: int, turns: int)
    ensures
        0 <= x < 0x1_0000_0000_0000_0000 ==> wrap(x) == x,
        wrap(x + turns * 0x1_0000_0000_0000_0000) == wrap(x),
{
    vstd::arithmetic::div_mod::lemma_mod_multiples_vanish(turns, x, 0x1_0000_0000_0000_0000);
    assert(0x1_0000_0000_0000_0000 * turns + x == x + turns * 0x1_0000_0000_0000_0000);
}

/// Spans that do not reach past the end of the address space share no byte if and only if one ends
/// before the other begins.
pub proof fn lemma_disjoint_spans(a: u64, n: int, b: u64, k: int)
    requires
        0 < n,
        0 < k,
        a + n <= u64::MAX,
        b + k <= u64::MAX,
    ensures
        disjoint(a, n, b, k) <==> a + n <= b || b + k <= a,
        within(a, n, b) <==> a <= b < a + n,
{
    lemma_within_plain(a, n, b);
    if a < b {
        assert(wrap(b - a) == b - a);
        assert(wrap(a - b) == a - b + 0x1_0000_0000_0000_0000);
    } else if b < a {
        assert(wrap(a - b) == a - b);
        assert(wrap(b - a) == b - a + 0x1_0000_0000_0000_0000);
    }
}

/// A byte that cannot be read counts as zero.
pub proof fn lemma_bytes(m: Map<u64, u8>, a: u64)
    ensures
        m.contains_key(a) ==> byte_at(m, a) == m[a],
        !m.contains_key(a) ==> byte_at(m, a) == 0,
{
}

/// The byte at a distance from an address; the address space is round.
pub open spec fn byte_behind(m: Map<u64, u8>, a: u64, k: int) -> u8 {
    byte_at(m, wrap(a + k))
}

/// Numbers of two, four and eight bytes have their lowest byte first.
pub proof fn lemma_numbers_in_memory(m: Map<u64, u8>, a: u64)
    ensures
        half_at(m, a) == byte_behind(m, a, 0) + 0x100 * byte_behind(m, a, 1),
        quad_at(m, a) == byte_behind(m, a, 0) + 0x100 * byte_behind(m, a, 1) + 0x1_0000
            * byte_behind(m, a, 2) + 0x100_0000 * byte_behind(m, a, 3),
        word_at(m, a) == byte_behind(m, a, 0) + 0x100 * byte_behind(m, a, 1) + 0x1_0000
            * byte_behind(m, a, 2) + 0x100_0000 * byte_behind(m, a, 3) + 0x1_0000_0000
            * byte_behind(m, a, 4) + 0x100_0000_0000 * byte_behind(m, a, 5) + 0x1_0000_0000_0000
            * byte_behind(m, a, 6) + 0x100_0000_0000_0000 * byte_behind(m, a, 7),
        byte_behind(m, a, 0) == byte_at(m, a),
{
    reveal(half_at);
    reveal(quad_at);
    reveal(word_at);
    reveal_with_fuel(number_at, 9);
    assert(wrap(a + 0) == a);
    lemma_wrap_twice(a + 1, 1);
    lemma_wrap_twice(a + 2, 1);
    lemma_wrap_twice(a + 3, 1);
    lemma_wrap_twice(a + 4, 1);
    lemma_wrap_twice(a + 5, 1);
    lemma_wrap_twice(a + 6, 1);
}

/// A word can be read if and only if each of its eight bytes can be.
pub proof fn lemma_readable_words(m: Map<u64, u8>, a: u64)
    requires
        a + 8 <= u64::MAX,
    ensures
        word_readable(m, a) <==> forall|b: u64| a <= b < a + 8 ==> #[trigger] m.contains_key(b),
{
    reveal(word_readable);
    assert forall|k: int| 0 <= k < 8 implies #[trigger] wrap(a + k) == a + k by {}
    if word_readable(m, a) {
        assert forall|b: u64| a <= b < a + 8 implies #[trigger] m.contains_key(b) by {
            assert(m.contains_key(wrap(a + (b - a))));
        }
    }
}

/// A store of a word changes no byte outside the word, and makes the word readable.
pub proof fn lemma_stored_word_bytes(m: Map<u64, u8>, a: u64, v: u64, b: u64)
    requires
        a + 8 <= u64::MAX,
    ensures
        b < a || a + 8 <= b ==> byte_at(with_word(m, a, v), b) == byte_at(m, b),
        word_at(with_word(m, a, v), a) == v,
        with_word(m, a, v).contains_key(b) <==> m.contains_key(b) || a <= b < a + 8,
{
    lemma_within_plain(a, 8, b);
    lemma_word_after_store(m, a, v);
    reveal(with_word);
    if b < a || a + 8 <= b {
        lemma_store_frame_byte(m, a, v as int, 8, b);
    } else {
        lemma_store_readable(m, a, v as int, 8, b);
    }
}

/// After a copy each byte of the target is the byte that the source had at the same distance, and
/// every other byte is as it was.
pub proof fn lemma_copied_bytes(m: Map<u64, u8>, src: u64, dst: u64, n: int, b: u64)
    requires
        0 <= n,
        src + n <= u64::MAX,
        dst + n <= u64::MAX,
    ensures
        dst <= b < dst + n ==> byte_at(with_copy(m, src, dst, n), b) == byte_at(
            m,
            (src + (b - dst)) as u64,
        ),
        !(dst <= b < dst + n) ==> byte_at(with_copy(m, src, dst, n), b) == byte_at(m, b),
        with_copy(m, src, dst, n).contains_key(b) <==> m.contains_key(b) || dst <= b < dst + n,
{
    lemma_within_plain(dst, n, b);
    if dst <= b < dst + n {
        assert(wrap(src + (b - dst)) == src + (b - dst));
    }
}

/// After a wipe each byte of the target is zero, and every other byte is as it was.
pub proof fn lemma_zeroed_bytes(m: Map<u64, u8>, a: u64, n: int, b: u64)
    requires
        0 <= n,
        a + n <= u64::MAX,
    ensures
        a <= b < a + n ==> byte_at(with_zeros(m, a, n), b) == 0,
        !(a <= b < a + n) ==> byte_at(with_zeros(m, a, n), b) == byte_at(m, b),
        with_zeros(m, a, n).contains_key(b) <==> m.contains_key(b) || a <= b < a + n,
{
    lemma_within_plain(a, n, b);
}

/// An address is mapped, or lies in a space, if and only if one of the ranges of the heap begins at
/// or before it and ends behind it.
pub proof fn lemma_ranges(h: HeapView, a: u64)
    ensures
        h.is_mapped(a) <==> exists|i: int|
            0 <= i < h.mapped.len() && (#[trigger] h.mapped[i]).start <= a && a < h.mapped[i].end,
        h.is_in_spaces(a) <==> exists|i: int|
            0 <= i < h.spaces.len() && (#[trigger] h.spaces[i]).start <= a && a < h.spaces[i].end,
{
    if exists|i: int|
        0 <= i < h.mapped.len() && (#[trigger] h.mapped[i]).start <= a && a < h.mapped[i].end {
        let i = choose|i: int|
            0 <= i < h.mapped.len() && (#[trigger] h.mapped[i]).start <= a && a < h.mapped[i].end;
        assert(h.mapped[i].has(a));
    }
    if exists|i: int|
        0 <= i < h.spaces.len() && (#[trigger] h.spaces[i]).start <= a && a < h.spaces[i].end {
        let i = choose|i: int|
            0 <= i < h.spaces.len() && (#[trigger] h.spaces[i]).start <= a && a < h.spaces[i].end;
        assert(h.spaces[i].has(a));
    }
}

/// What the runtime has said of an object is what the heap answers; where it has said nothing, a
/// generic memory holds its data itself, a place is zero and an exception stack is empty.
pub proof fn lemma_runtime_answers(h: HeapView, a: u64, tid: u16)
    ensures
        h.memory_kinds.contains_key(a) ==> h.memory_kind(a) == h.memory_kinds[a],
        !h.memory_kinds.contains_key(a) ==> h.memory_kind(a) == 0,
        h.owner_fields.contains_key(a) ==> h.owner_field(a) == h.owner_fields[a],
        !h.owner_fields.contains_key(a) ==> h.owner_field(a) == 0,
        h.stack_bases.contains_key(tid) ==> h.stack_base(tid) == h.stack_bases[tid],
        !h.stack_bases.contains_key(tid) ==> h.stack_base(tid) == 0,
        h.exception_slots.contains_key(a) ==> h.exception_slots_of(a) == h.exception_slots[a]@,
        !h.exception_slots.contains_key(a) ==> h.exception_slots_of(a).len() == 0,
{
}

/// A heap is well formed if and only if its bit fields lie inside sixteen bits and a width class
/// has two of them, every small tag has its two entries in the table of types, and the range of its
/// spaces, where it is known, is in order.
pub proof fn lemma_well_formed_heaps(h: HeapView)
    ensures
        ({
            let abi = h.config.abi;
            let t = h.config.tags;
            let start = h.config.heap_start;
            let end = h.config.heap_end;
            h.wf() <==> {
                &&& abi.datatype_smalltag.shift < 16 && abi.datatype_zeroinit.shift < 16
                &&& abi.layout_fielddesc_type.shift < 16 && abi.layout_fielddesc_type.mask <= 3
                &&& abi.layout_arrayelem_isboxed.shift < 16
                &&& abi.layout_arrayelem_isunion.shift < 16
                &&& t.max_tags <= 64
                &&& t.datatype < t.max_tags && t.unionall < t.max_tags && t.uniontype < t.max_tags
                &&& t.tvar < t.max_tags && t.vararg < t.max_tags && t.symbol < t.max_tags
                &&& t.module < t.max_tags && t.simplevector < t.max_tags && t.string < t.max_tags
                &&& t.task < t.max_tags
                &&& h.small_typeof.len() == 128
                &&& start != 0 && end != 0 ==> start <= end
            }
        }),
{
}

/// A reference stands for an address other than zero.
pub proof fn lemma_references(a: u64)
    ensures
        ObjectReference::of_address(a) is Some <==> a != 0,
        ObjectReference::of_address(a) matches Some(o) ==> o.raw == a && o.wf(),
{
}

/// A store changes the bytes of a heap and nothing else that is known of it.
pub proof fn lemma_store_keeps_the_rest(h: HeapView, a: u64, v: u64)
    ensures
        ({
            let after = h.with_word(a, v);
            &&& after.memory == with_word(h.memory, a, v)
            &&& after.word(a) == v && after.readable(a)
            &&& after.config == h.config && after.small_typeof == h.small_typeof
            &&& after.mapped == h.mapped && after.spaces == h.spaces
            &&& after.memory_kinds == h.memory_kinds && after.owner_fields == h.owner_fields
            &&& after.forwarded == h.forwarded && after.stack_bases == h.stack_bases
            &&& after.exception_slots == h.exception_slots
            &&& h.wf() ==> after.wf()
        }),
{
    lemma_word_after_store(h.memory, a, v);
    lemma_word_store_readable(h.memory, a, v, a);
}

} // verus!
