//! The address space of the process, held as a sparse image of bytes.
//!
//! A byte that the image does not hold cannot be read: a load that covers one takes zero for it. An
//! address is readable if the image holds the whole word there.

use std::collections::HashMap;
use vstd::prelude::*;

verus! {

/// An address of the process: a plain 64-bit number.
pub type Address = u64;

/// The size of an address, in bytes.
pub const BYTES_IN_ADDRESS: u64 = 8;

/// The base-2 logarithm of the size of an address.
pub const LOG_BYTES_IN_ADDRESS: u32 = 3;

/// Reduces a sum of addresses and offsets into the 64-bit address space.
pub open spec fn wrap(x: int) -> u64 {
    (x % 0x1_0000_0000_0000_0000) as u64
}

/// Adds an offset to an address; the sum wraps at the end of the address space.
pub fn offset_by(a: Address, k: u64) -> (r: Address)
    ensures
        r == wrap(a + k),
{
    a.wrapping_add(k)
}

/// Subtracts an offset from an address; the difference wraps at zero.
pub fn offset_back(a: Address, k: u64) -> (r: Address)
    ensures
        r == wrap(a - k),
{
    a.wrapping_sub(k)
}

/// Moves an address by a number of words; the result wraps at the end of the address space.
pub fn offset_words(a: Address, n: u64) -> (r: Address)
    ensures
        r == wrap(a + 8 * n),
{
    a.wrapping_add(n.wrapping_mul(8))
}

/// Whether `b` is one of the `n` bytes that start at `a`.
pub open spec fn within(a: u64, n: int, b: u64) -> bool {
    wrap(b - a) < n
}

/// Whether the `n` bytes at `a` and the `k` bytes at `b` have no byte in common.
pub open spec fn disjoint(a: u64, n: int, b: u64, k: int) -> bool {
    &&& n <= wrap(b - a)
    &&& k <= wrap(a - b)
}

/// The byte at an address; zero where nothing is readable.
pub open spec fn byte_at(m: Map<u64, u8>, a: u64) -> u8 {
    if m.contains_key(a) {
        m[a]
    } else {
        0
    }
}

/// Whether a word can be read at an address: all of its eight bytes can be.
#[verifier::opaque]
pub open spec fn word_readable(m: Map<u64, u8>, a: u64) -> bool {
    forall|k: int| 0 <= k < 8 ==> m.contains_key(#[trigger] wrap(a + k))
}

/// The number that the `n` bytes at `a` encode, least significant byte first.
pub open spec fn number_at(m: Map<u64, u8>, a: u64, n: nat) -> int
    decreases n,
{
    if n == 0 {
        0
    } else {
        byte_at(m, a) + 256 * number_at(m, wrap(a + 1), (n - 1) as nat)
    }
}

/// The image after the `n` low bytes of `v` were stored at `a`, least significant byte first.
pub open spec fn with_number(m: Map<u64, u8>, a: u64, v: int, n: nat) -> Map<u64, u8>
    decreases n,
{
    if n == 0 {
        m
    } else {
        with_number(m.insert(a, (v % 256) as u8), wrap(a + 1), v / 256, (n - 1) as nat)
    }
}

/// The 16-bit number at `a`.
#[verifier::opaque]
pub open spec fn half_at(m: Map<u64, u8>, a: u64) -> u16 {
    number_at(m, a, 2) as u16
}

/// The 32-bit number at `a`.
#[verifier::opaque]
pub open spec fn quad_at(m: Map<u64, u8>, a: u64) -> u32 {
    number_at(m, a, 4) as u32
}

/// The word at `a`.
#[verifier::opaque]
pub open spec fn word_at(m: Map<u64, u8>, a: u64) -> u64 {
    number_at(m, a, 8) as u64
}

/// The image after the word `v` was stored at `a`.
#[verifier::opaque]
pub open spec fn with_word(m: Map<u64, u8>, a: u64, v: u64) -> Map<u64, u8> {
    with_number(m, a, v as int, 8)
}

/// The image after the `n` bytes at `src` were copied to `dst`.
pub open spec fn with_copy(m: Map<u64, u8>, src: u64, dst: u64, n: int) -> Map<u64, u8> {
    Map::new(
        |b: u64| m.contains_key(b) || within(dst, n, b),
        |b: u64|
            if within(dst, n, b) {
                byte_at(m, wrap(src + wrap(b - dst)))
            } else {
                m[b]
            },
    )
}

/// The image `m` after `n` bytes from `src` of another image were stored at `dst`.
pub open spec fn with_bytes_of(
    m: Map<u64, u8>,
    other: Map<u64, u8>,
    src: u64,
    dst: u64,
    n: int,
) -> Map<u64, u8> {
    Map::new(
        |b: u64| m.contains_key(b) || within(dst, n, b),
        |b: u64|
            if within(dst, n, b) {
                byte_at(other, wrap(src + wrap(b - dst)))
            } else {
                m[b]
            },
    )
}

/// The image after the `n` bytes at `a` were set to zero.
pub open spec fn with_zeros(m: Map<u64, u8>, a: u64, n: int) -> Map<u64, u8> {
    Map::new(
        |b: u64| m.contains_key(b) || within(a, n, b),
        |b: u64|
            if within(a, n, b) {
                0
            } else {
                m[b]
            },
    )
}

/// Two steps of a walk through the address space are one step of their sum.
pub proof fn lemma_wrap_twice(x: int, y: int)
    ensures
        wrap(wrap(x) + y) == wrap(x + y),
        wrap(y - wrap(x)) == wrap(y - x),
{
    let m: int = 0x1_0000_0000_0000_0000;
    vstd::arithmetic::div_mod::lemma_add_mod_noop_right(y, x, m);
    vstd::arithmetic::div_mod::lemma_sub_mod_noop_right(y, x, m);
    assert(y + x % m == x % m + y);
}

/// An address is its distance from a base, added to that base.
proof fn lemma_distance(base: u64, k: int, c: u64)
    ensures
        0 <= k < 0x1_0000_0000_0000_0000 ==> wrap(wrap(base + k) - base) == k,
        c == wrap(base + wrap(c - base)),
{
}

proof fn lemma_number_bound(m: Map<u64, u8>, a: u64, n: nat)
    ensures
        n == 2 ==> 0 <= number_at(m, a, n) < 0x1_0000,
        n == 4 ==> 0 <= number_at(m, a, n) < 0x1_0000_0000,
        n == 8 ==> 0 <= number_at(m, a, n) < 0x1_0000_0000_0000_0000,
{
    reveal_with_fuel(number_at, 9);
}

/// A store changes no byte outside the span that it covers.
pub proof fn lemma_store_frame_byte(m: Map<u64, u8>, a: u64, v: int, n: nat, b: u64)
    requires
        n <= 8,
        !within(a, n as int, b),
    ensures
        with_number(m, a, v, n).contains_key(b) == m.contains_key(b),
        byte_at(with_number(m, a, v, n), b) == byte_at(m, b),
    decreases n,
{
    if n > 0 {
        assert(a != b);
        assert(!within(wrap(a + 1), (n - 1) as int, b));
        lemma_store_frame_byte(
            m.insert(a, (v % 256) as u8),
            wrap(a + 1),
            v / 256,
            (n - 1) as nat,
            b,
        );
    }
}

/// A store makes the bytes that it covers readable, and takes readability from none.
pub proof fn lemma_store_readable(m: Map<u64, u8>, a: u64, v: int, n: nat, b: u64)
    requires
        n <= 8,
        m.contains_key(b) || within(a, n as int, b),
    ensures
        with_number(m, a, v, n).contains_key(b),
    decreases n,
{
    if n > 0 {
        assert(a == b || !within(a, n as int, b) || within(wrap(a + 1), (n - 1) as int, b));
        lemma_store_readable(m.insert(a, (v % 256) as u8), wrap(a + 1), v / 256, (n - 1) as nat, b);
    }
}

/// A word can be read where it was stored, and wherever it could be read before.
pub proof fn lemma_word_store_readable(m: Map<u64, u8>, a: u64, v: u64, b: u64)
    requires
        b == a || word_readable(m, b),
    ensures
        word_readable(with_word(m, a, v), b),
{
    reveal(word_readable);
    reveal(with_word);
    assert forall|k: int| 0 <= k < 8 implies with_word(m, a, v).contains_key(
        #[trigger] wrap(b + k),
    ) by {
        lemma_distance(b, k, b);
        lemma_store_readable(m, a, v as int, 8, wrap(b + k));
    }
}

proof fn lemma_number_same(m1: Map<u64, u8>, m2: Map<u64, u8>, a: u64, n: nat)
    requires
        n <= 8,
        forall|b: u64| within(a, n as int, b) ==> byte_at(m1, b) == byte_at(m2, b),
    ensures
        number_at(m1, a, n) == number_at(m2, a, n),
    decreases n,
{
    if n > 0 {
        assert(within(a, n as int, a));
        assert forall|b: u64| within(wrap(a + 1), (n - 1) as int, b) implies byte_at(m1, b)
            == byte_at(m2, b) by {
            assert(within(a, n as int, b));
        }
        lemma_number_same(m1, m2, wrap(a + 1), (n - 1) as nat);
    }
}

spec fn power_256(n: nat) -> int
    decreases n,
{
    if n == 0 {
        1
    } else {
        256 * power_256((n - 1) as nat)
    }
}

proof fn lemma_number_after_store(m: Map<u64, u8>, a: u64, v: int, n: nat)
    requires
        n <= 8,
        0 <= v < power_256(n),
    ensures
        number_at(with_number(m, a, v, n), a, n) == v,
    decreases n,
{
    if n > 0 {
        let first = m.insert(a, (v % 256) as u8);
        let rest = (n - 1) as nat;
        lemma_number_after_store(first, wrap(a + 1), v / 256, rest);
        lemma_store_frame_byte(first, wrap(a + 1), v / 256, rest, a);
    }
}

/// A load gives back the word that the store at the same address wrote.
pub proof fn lemma_word_after_store(m: Map<u64, u8>, a: u64, v: u64)
    ensures
        word_at(with_word(m, a, v), a) == v,
{
    reveal(word_at);
    reveal(with_word);
    reveal_with_fuel(power_256, 9);
    lemma_number_after_store(m, a, v as int, 8);
}

/// A store of a word leaves every word that shares no byte with it as it was.
pub proof fn lemma_word_store_frame(m: Map<u64, u8>, a: u64, v: u64, b: u64)
    requires
        disjoint(a, 8, b, 8),
    ensures
        word_at(with_word(m, a, v), b) == word_at(m, b),
{
    reveal(word_at);
    reveal(with_word);
    assert forall|c: u64| within(b, 8, c) implies byte_at(m, c) == byte_at(
        with_number(m, a, v as int, 8),
        c,
    ) by {
        lemma_store_frame_byte(m, a, v as int, 8, c);
    }
    lemma_number_same(m, with_number(m, a, v as int, 8), b, 8);
}

/// A store of a word leaves the bytes outside it as they were, readability included.
pub proof fn lemma_word_store_frame_byte(m: Map<u64, u8>, a: u64, v: u64, b: u64)
    requires
        !within(a, 8, b),
    ensures
        with_word(m, a, v).contains_key(b) == m.contains_key(b),
        byte_at(with_word(m, a, v), b) == byte_at(m, b),
{
    reveal(with_word);
    lemma_store_frame_byte(m, a, v as int, 8, b);
}

/// After a copy, a word of the target is the word that the source held at the same place.
pub proof fn lemma_word_after_copy(m: Map<u64, u8>, src: u64, dst: u64, n: int, k: int)
    requires
        0 <= k,
        k + 8 <= n,
        n < 0x1_0000_0000_0000_0000,
    ensures
        word_at(with_copy(m, src, dst, n), wrap(dst + k)) == word_at(m, wrap(src + k)),
{
    reveal(word_at);
    lemma_number_after_copy(m, src, dst, n, k, 8);
}

proof fn lemma_number_after_copy(
    m: Map<u64, u8>,
    src: u64,
    dst: u64,
    n: int,
    k: int,
    len: nat,
)
    requires
        0 <= k,
        k + len <= n,
        n < 0x1_0000_0000_0000_0000,
    ensures
        number_at(with_copy(m, src, dst, n), wrap(dst + k), len) == number_at(
            m,
            wrap(src + k),
            len,
        ),
    decreases len,
{
    if len > 0 {
        lemma_number_after_copy(m, src, dst, n, k + 1, (len - 1) as nat);
        lemma_distance(dst, k, dst);
        lemma_wrap_twice(dst + k, 1);
        lemma_wrap_twice(src + k, 1);
    }
}

proof fn lemma_zeros_step(m: Map<u64, u8>, a: u64, i: int)
    requires
        0 <= i < 0x1_0000_0000_0000_0000,
    ensures
        with_zeros(m, a, i).insert(wrap(a + i), 0) == with_zeros(m, a, i + 1),
{
    lemma_distance(a, i, a);
    assert forall|c: u64| #[trigger] within(a, i + 1, c) <==> within(a, i, c) || c == wrap(
        a + i,
    ) by {
        lemma_distance(a, i, c);
    }
    assert(with_zeros(m, a, i).insert(wrap(a + i), 0) =~= with_zeros(m, a, i + 1));
}

/// To store a number that was loaded is to copy its bytes.
proof fn lemma_store_loaded_number(
    m: Map<u64, u8>,
    other: Map<u64, u8>,
    src: u64,
    dst: u64,
    n: nat,
)
    requires
        n <= 8,
    ensures
        with_number(m, dst, number_at(other, src, n), n) == with_bytes_of(
            m,
            other,
            src,
            dst,
            n as int,
        ),
    decreases n,
{
    let stored = with_number(m, dst, number_at(other, src, n), n);
    if n == 0 {
        assert(stored =~= with_bytes_of(m, other, src, dst, 0));
    } else {
        let rest = (n - 1) as nat;
        let first = m.insert(dst, byte_at(other, src));
        lemma_store_loaded_number(first, other, wrap(src + 1), wrap(dst + 1), rest);
        let v = number_at(other, src, n);
        assert(v % 256 == byte_at(other, src));
        assert(v / 256 == number_at(other, wrap(src + 1), rest));
        let all = with_bytes_of(m, other, src, dst, n as int);
        assert forall|b: u64| #[trigger] stored.contains_key(b) == all.contains_key(b) && (
        all.contains_key(b) ==> stored[b] == all[b]) by {
            lemma_next_distance(src, dst, b);
        }
        assert(stored =~= all);
    }
}

/// Distances from the next address are one less.
proof fn lemma_next_distance(src: u64, dst: u64, b: u64)
    ensures
        b != dst ==> wrap(b - wrap(dst + 1)) == wrap(b - dst) - 1,
        b != dst ==> wrap(wrap(src + 1) + wrap(b - wrap(dst + 1))) == wrap(src + wrap(b - dst)),
        b == dst ==> wrap(b - wrap(dst + 1)) == u64::MAX,
        wrap(src + wrap(dst - dst)) == src,
{
    lemma_wrap_twice(dst + 1, b as int);
    if b != dst {
        assert(wrap(b - dst) >= 1);
        assert(wrap(b - dst - 1) == wrap(b - dst) - 1);
        lemma_wrap_twice(src + 1, wrap(b - dst) - 1);
    }
}

/// To store a word that was loaded is to copy its bytes.
pub proof fn lemma_store_loaded_word(m: Map<u64, u8>, other: Map<u64, u8>, src: u64, dst: u64)
    ensures
        with_word(m, dst, word_at(other, src)) == with_bytes_of(m, other, src, dst, 8),
{
    reveal(word_at);
    reveal(with_word);
    lemma_number_bound(other, src, 8);
    lemma_store_loaded_number(m, other, src, dst, 8);
}

/// In a span that does not reach past the end of the address space, addresses are in order.
pub proof fn lemma_within_plain(a: u64, n: int, b: u64)
    requires
        0 <= n,
        a + n <= 0x1_0000_0000_0000_0000,
    ensures
        within(a, n, b) == (a <= b < a + n),
        a <= b ==> wrap(b - a) == b - a,
{
    if a <= b {
        assert(wrap(b - a) == b - a);
    } else {
        assert(wrap(b - a) == b - a + 0x1_0000_0000_0000_0000);
    }
}

/// A word that shares no byte with the target of a store is as it was.
pub proof fn lemma_word_outside(
    m: Map<u64, u8>,
    other: Map<u64, u8>,
    src: u64,
    dst: u64,
    n: int,
    a: u64,
)
    requires
        0 <= n,
        dst + n <= 0x1_0000_0000_0000_0000,
        a + 8 <= 0x1_0000_0000_0000_0000,
        a + 8 <= dst || dst + n <= a,
    ensures
        word_at(with_bytes_of(m, other, src, dst, n), a) == word_at(m, a),
{
    reveal(word_at);
    let after = with_bytes_of(m, other, src, dst, n);
    assert forall|b: u64| within(a, 8, b) implies byte_at(after, b) == byte_at(m, b) by {
        lemma_within_plain(a, 8, b);
        lemma_within_plain(dst, n, b);
    }
    lemma_number_same(after, m, a, 8);
}

/// Two neighbouring stores of bytes from one image are one store.
pub proof fn lemma_join_bytes(
    m: Map<u64, u8>,
    other: Map<u64, u8>,
    src: u64,
    dst: u64,
    n: int,
    k: int,
)
    requires
        0 <= n,
        0 < k,
        src + n + k <= 0x1_0000_0000_0000_0000,
        dst + n + k <= 0x1_0000_0000_0000_0000,
    ensures
        ({
            let src2 = (src + n) as u64;
            let dst2 = (dst + n) as u64;
            let all = with_bytes_of(m, other, src, dst, n + k);
            &&& with_bytes_of(with_bytes_of(m, other, src, dst, n), other, src2, dst2, k) == all
            &&& with_bytes_of(with_bytes_of(m, other, src2, dst2, k), other, src, dst, n) == all
        }),
{
    let src2 = (src + n) as u64;
    let dst2 = (dst + n) as u64;
    let all = with_bytes_of(m, other, src, dst, n + k);
    let up = with_bytes_of(with_bytes_of(m, other, src, dst, n), other, src2, dst2, k);
    let down = with_bytes_of(with_bytes_of(m, other, src2, dst2, k), other, src, dst, n);
    assert forall|b: u64| #[trigger]
        within(dst, n + k, b) == (within(dst, n, b) || within(dst2, k, b)) && !(within(dst, n, b)
            && within(dst2, k, b)) && (within(dst2, k, b) ==> wrap(src2 + wrap(b - dst2)) == wrap(
            src + wrap(b - dst),
        )) by {
        lemma_within_plain(dst, n, b);
        lemma_within_plain(dst2, k, b);
        lemma_within_plain(dst, n + k, b);
    }
    assert(up =~= all);
    assert(down =~= all);
}

/// Of two spans without a common byte, no byte of the one is in the other.
proof fn lemma_disjoint_byte(src: u64, dst: u64, n: int, i: int)
    requires
        disjoint(src, n, dst, n),
        0 <= i < n,
    ensures
        !within(dst, n, wrap(src + i)),
{
    let m: int = 0x1_0000_0000_0000_0000;
    let ahead = wrap(dst - src);
    let back = wrap(src - dst);
    assert(ahead + back == m);
    lemma_wrap_twice(src + i, -dst);
    lemma_wrap_twice(src - dst, i);
    assert(wrap(wrap(src + i) - dst) == wrap(back + i));
}

/// A copy leaves every word that shares no byte with its target as it was.
pub proof fn lemma_word_copy_frame(m: Map<u64, u8>, src: u64, dst: u64, n: int, a: u64)
    requires
        0 <= n,
        disjoint(dst, n, a, 8),
    ensures
        word_at(with_copy(m, src, dst, n), a) == word_at(m, a),
{
    reveal(word_at);
    let after = with_copy(m, src, dst, n);
    let ahead = wrap(a - dst);
    assert(ahead == 0 || ahead + wrap(dst - a) == 0x1_0000_0000_0000_0000);
    assert forall|b: u64| within(a, 8, b) implies byte_at(after, b) == byte_at(m, b) by {
        let j = wrap(b - a);
        lemma_distance(a, 0, b);
        lemma_wrap_twice(a + j, -dst);
        lemma_wrap_twice(a - dst, j as int);
        assert(wrap(b - dst) == wrap(ahead + j));
        assert(ahead + j >= n);
    }
    lemma_number_same(after, m, a, 8);
}

/// A copy leaves the words of its source as they were.
pub proof fn lemma_copy_keeps_source(m: Map<u64, u8>, src: u64, dst: u64, n: int, k: int)
    requires
        disjoint(src, n, dst, n),
        0 <= k,
        k + 8 <= n < 0x1_0000_0000_0000_0000,
    ensures
        word_at(with_copy(m, src, dst, n), wrap(src + k)) == word_at(m, wrap(src + k)),
{
    reveal(word_at);
    let after = with_copy(m, src, dst, n);
    assert forall|b: u64| within(wrap(src + k), 8, b) implies byte_at(after, b) == byte_at(
        m,
        b,
    ) by {
        let j = wrap(b - wrap(src + k));
        lemma_distance(wrap(src + k), 0, b);
        lemma_wrap_twice(src + k, j as int);
        lemma_disjoint_byte(src, dst, n, k + j);
    }
    lemma_number_same(after, m, wrap(src + k), 8);
}

proof fn lemma_copy_step(m: Map<u64, u8>, src: u64, dst: u64, n: int, i: int)
    requires
        disjoint(src, n, dst, n),
        0 <= i < n < 0x1_0000_0000_0000_0000,
    ensures
        byte_at(with_copy(m, src, dst, i), wrap(src + i)) == byte_at(m, wrap(src + i)),
        with_copy(m, src, dst, i).insert(wrap(dst + i), byte_at(m, wrap(src + i))) == with_copy(
            m,
            src,
            dst,
            i + 1,
        ),
{
    lemma_disjoint_byte(src, dst, n, i);
    lemma_distance(dst, i, dst);
    assert forall|c: u64| #[trigger] within(dst, i + 1, c) <==> within(dst, i, c) || c == wrap(
        dst + i,
    ) by {
        lemma_distance(dst, i, c);
    }
    assert(with_copy(m, src, dst, i).insert(wrap(dst + i), byte_at(m, wrap(src + i)))
        =~= with_copy(m, src, dst, i + 1));
}

/// A sparse image of the bytes of an address space.
pub struct Memory {
    bytes: HashMap<u64, u8>,
}

impl View for Memory {
    type V = Map<u64, u8>;

    closed spec fn view(&self) -> Map<u64, u8> {
        self.bytes@
    }
}

impl Memory {
    /// An address space in which nothing is readable.
    pub fn new() -> (r: Memory)
        ensures
            r@ == Map::<u64, u8>::empty(),
    {
        Memory { bytes: HashMap::new() }
    }

    /// Whether a word can be read at `a`.
    pub fn is_readable(&self, a: Address) -> (r: bool)
        ensures
            r == word_readable(self@, a),
    {
        broadcast use vstd::std_specs::hash::group_hash_axioms;

        reveal(word_readable);
        let mut k: u64 = 0;
        while k < 8
            invariant
                k <= 8,
                forall|j: int| 0 <= j < k ==> self@.contains_key(#[trigger] wrap(a + j)),
            decreases 8 - k,
        {
            let at: u64 = offset_by(a, k);
            if !self.bytes.contains_key(&at) {
                proof {
                    reveal(word_readable);
                    assert(!self@.contains_key(wrap(a + k)));
                }
                return false;
            }
            k = k + 1;
        }
        true
    }

    /// The byte at `a`.
    pub fn load_u8(&self, a: Address) -> (r: u8)
        ensures
            r == byte_at(self@, a),
    {
        broadcast use vstd::std_specs::hash::group_hash_axioms;

        match self.bytes.get(&a) {
            Some(b) => *b,
            None => 0,
        }
    }

    /// The 16-bit number at `a`.
    pub fn load_u16(&self, a: Address) -> (r: u16)
        ensures
            r == half_at(self@, a),
    {
        proof {
            reveal(half_at);
            reveal_with_fuel(number_at, 3);
        }
        let low: u16 = self.load_u8(a) as u16;
        let high: u16 = self.load_u8(offset_by(a, 1)) as u16;
        low + 256 * high
    }

    /// The 32-bit number at `a`.
    pub fn load_u32(&self, a: Address) -> (r: u32)
        ensures
            r == quad_at(self@, a),
    {
        proof {
            reveal(quad_at);
            reveal_with_fuel(number_at, 5);
            lemma_wrap_twice(a + 1, 1);
            lemma_wrap_twice(a + 2, 1);
        }
        let b0: u32 = self.load_u8(a) as u32;
        let b1: u32 = self.load_u8(offset_by(a, 1)) as u32;
        let b2: u32 = self.load_u8(offset_by(a, 2)) as u32;
        let b3: u32 = self.load_u8(offset_by(a, 3)) as u32;
        b0 + 256 * (b1 + 256 * (b2 + 256 * b3))
    }

    /// The word at `a`.
    pub fn load_u64(&self, a: Address) -> (r: u64)
        ensures
            r == word_at(self@, a),
    {
        proof {
            reveal(word_at);
            reveal(quad_at);
            reveal_with_fuel(number_at, 9);
            lemma_number_bound(self@, a, 4);
            lemma_number_bound(self@, wrap(a + 4), 4);
            lemma_wrap_twice(a + 1, 1);
            lemma_wrap_twice(a + 2, 1);
            lemma_wrap_twice(a + 3, 1);
        }
        let low: u64 = self.load_u32(a) as u64;
        let high: u64 = self.load_u32(offset_by(a, 4)) as u64;
        low + 0x1_0000_0000 * high
    }

    /// Stores the byte `v` at `a`.
    pub fn store_u8(&mut self, a: Address, v: u8)
        ensures
            final(self)@ == old(self)@.insert(a, v),
    {
        broadcast use vstd::std_specs::hash::group_hash_axioms;

        self.bytes.insert(a, v);
    }

    /// Stores the word `v` at `a`.
    pub fn store_u64(&mut self, a: Address, v: u64)
        ensures
            final(self)@ == with_word(old(self)@, a, v),
    {
        proof {
            reveal(with_word);
        }
        let mut at: u64 = a;
        let mut left: u64 = v;
        let mut n: u64 = 8;
        while n > 0
            invariant
                n <= 8,
                with_number(self@, at, left as int, n as nat) == with_number(
                    old(self)@,
                    a,
                    v as int,
                    8,
                ),
            decreases n,
        {
            self.store_u8(at, (left % 256) as u8);
            at = offset_by(at, 1);
            left = left / 256;
            n = n - 1;
        }
    }

    /// Copies `n` bytes from `src` to `dst`, which have no byte in common.
    pub fn copy_bytes(&mut self, src: Address, dst: Address, n: u64)
        requires
            disjoint(src, n as int, dst, n as int),
        ensures
            final(self)@ == with_copy(old(self)@, src, dst, n as int),
    {
        let mut i: u64 = 0;
        assert(with_copy(old(self)@, src, dst, 0) =~= old(self)@);
        while i < n
            invariant
                i <= n,
                disjoint(src, n as int, dst, n as int),
                self@ == with_copy(old(self)@, src, dst, i as int),
            decreases n - i,
        {
            let from: u64 = offset_by(src, i);
            let to: u64 = offset_by(dst, i);
            proof {
                lemma_copy_step(old(self)@, src, dst, n as int, i as int);
            }
            let b: u8 = self.load_u8(from);
            self.store_u8(to, b);
            i = i + 1;
        }
    }

    /// Sets `n` bytes from `a` on to zero.
    pub fn zero_bytes(&mut self, a: Address, n: u64)
        ensures
            final(self)@ == with_zeros(old(self)@, a, n as int),
    {
        let mut i: u64 = 0;
        assert(with_zeros(old(self)@, a, 0) =~= old(self)@);
        while i < n
            invariant
                i <= n,
                self@ == with_zeros(old(self)@, a, i as int),
            decreases n - i,
        {
            proof {
                lemma_zeros_step(old(self)@, a, i as int);
            }
            self.store_u8(offset_by(a, i), 0);
            i = i + 1;
        }
    }
}

} // verus!
