//! What a scan of one object does, as a list of steps: the slots that it reports outright and
//! the addresses that it hands on.

use crate::heap::{Heap, HeapView};
use crate::memory::{offset_words, wrap, Address};
use crate::slots::JuliaVMSlot;
use vstd::prelude::*;

verus! {

/// One step of a scan.
#[derive(Clone, Copy, PartialEq, Eq, Structural, Debug)]
pub enum Step {
    /// Report the slot.
    Visit(JuliaVMSlot),
    /// Hand on the address: report it as a plain slot or scan what lies there.
    Slot(Address),
    /// The layout has no known pointer table, so that the scan cannot go on.
    Unsupported,
}

/// Whether a step, if it is a report, reports an interior pointer or a type tag.
pub open spec fn is_special(step: Step) -> bool {
    match step {
        Step::Visit(slot) => slot is Offset || slot is TypeTag,
        _ => true,
    }
}

/// Whether a step, if it is a report, reports an interior pointer, a type tag or one of some slots.
pub open spec fn is_foreseen(step: Step, outright: Set<JuliaVMSlot>) -> bool {
    is_special(step) || (step matches Step::Visit(slot) && outright.contains(slot))
}

/// Whether the reports among the steps are all of interior pointers, of type tags and of some slots.
pub open spec fn visits_within(steps: Seq<Step>, outright: Set<JuliaVMSlot>) -> bool {
    forall|i: int| 0 <= i < steps.len() ==> is_foreseen(#[trigger] steps[i], outright)
}

/// Whether the reports among the steps are all of interior pointers and type tags.
pub open spec fn only_special_visits(steps: Seq<Step>) -> bool {
    forall|i: int| 0 <= i < steps.len() ==> is_special(#[trigger] steps[i])
}

/// The number of strides from `begin` up to `end`.
pub open spec fn span_len(begin: u64, end: u64, stride: int) -> nat {
    if begin < end && stride > 0 {
        ((end - begin + stride - 1) / stride) as nat
    } else {
        0
    }
}

/// The addresses from `begin` up to `end`, one every `stride` bytes.
pub open spec fn span(begin: u64, end: u64, stride: int) -> Seq<Step> {
    Seq::new(span_len(begin, end, stride), |k: int| Step::Slot((begin + k * stride) as u64))
}

/// The `n` words at `begin`.
pub open spec fn words(begin: u64, n: int) -> Seq<Step> {
    span(begin, wrap(begin + 8 * n), 8)
}

proof fn lemma_span_len(d: int, stride: int, k: int)
    by (nonlinear_arith)
    requires
        d > 0,
        stride > 0,
        k >= 0,
    ensures
        k * stride < d <==> k < (d + stride - 1) / stride,
{
}

/// Appends the addresses of a span.
pub fn push_span(steps: &mut Vec<Step>, begin: Address, end: Address, stride: u64)
    ensures
        final(steps)@ == old(steps)@ + span(begin, end, stride as int),
{
    let ghost all = span(begin, end, stride as int);
    if begin >= end || stride == 0 {
        assert(all =~= Seq::<Step>::empty());
        return;
    }
    let mut at: u64 = begin;
    let ghost mut k: int = 0;
    proof {
        lemma_span_len(end - begin, stride as int, 0);
        assert(all.take(0) =~= Seq::<Step>::empty());
    }
    while at < end
        invariant
            begin < end,
            stride > 0,
            0 <= k <= all.len(),
            all == span(begin, end, stride as int),
            at < end ==> at == begin + k * stride && k < all.len(),
            at >= end ==> k == all.len(),
            steps@ == old(steps)@ + all.take(k),
        decreases end - at,
    {
        steps.push(Step::Slot(at));
        proof {
            assert(all[k] == Step::Slot(at));
            assert(all.take(k + 1) =~= all.take(k).push(all[k]));
            assert((k + 1) * stride == k * stride + stride) by (nonlinear_arith);
            lemma_span_len(end - begin, stride as int, k + 1);
            k = k + 1;
        }
        if end - at <= stride {
            at = end;
        } else {
            at = at + stride;
        }
    }
    assert(all.take(k) =~= all);
}

/// Appends the addresses of `n` words.
pub fn push_words(steps: &mut Vec<Step>, begin: Address, n: u64)
    ensures
        final(steps)@ == old(steps)@ + words(begin, n as int),
{
    push_span(steps, begin, offset_words(begin, n), 8);
}

/// The entry of a pointer table whose entries are `width` bytes wide.
pub open spec fn table_entry(h: HeapView, at: u64, width: int) -> int {
    if width == 1 {
        h.byte(at) as int
    } else if width == 2 {
        h.half(at) as int
    } else {
        h.quad(at) as int
    }
}

/// The number of entries of a pointer table: all of them, unless the table would run past the
/// end of the address space.
pub open spec fn table_len(ptrs: u64, n: u32, width: int) -> nat {
    if ptrs + n * width < 0x1_0000_0000_0000_0000 {
        n as nat
    } else {
        0
    }
}

/// The words of the instance at `base` that a pointer table names.
pub open spec fn table_steps(h: HeapView, base: u64, ptrs: u64, n: u32, width: int) -> Seq<Step> {
    Seq::new(
        table_len(ptrs, n, width),
        |k: int| Step::Slot(wrap(base + 8 * table_entry(h, (ptrs + k * width) as u64, width))),
    )
}

/// Appends the words of an instance that a pointer table names.
pub fn push_table(
    heap: &Heap,
    steps: &mut Vec<Step>,
    base: Address,
    ptrs: Address,
    n: u32,
    width: u64,
)
    requires
        width == 1 || width == 2 || width == 4,
    ensures
        final(steps)@ == old(steps)@ + table_steps(heap@, base, ptrs, n, width as int),
{
    let ghost all = table_steps(heap@, base, ptrs, n, width as int);
    assert(n * width <= 0x4_0000_0000) by (nonlinear_arith)
        requires
            n < 0x1_0000_0000,
            width <= 4,
    ;
    if n as u64 * width > 0xffff_ffff_ffff_ffff - ptrs {
        assert(all =~= Seq::<Step>::empty());
        return;
    }
    let mut k: u32 = 0;
    assert(all.take(0) =~= Seq::<Step>::empty());
    while k < n
        invariant
            width == 1 || width == 2 || width == 4,
            0 <= k <= n,
            n * width <= 0x4_0000_0000,
            ptrs + n * width < 0x1_0000_0000_0000_0000,
            all == table_steps(heap@, base, ptrs, n, width as int),
            all.len() == n,
            steps@ == old(steps)@ + all.take(k as int),
        decreases n - k,
    {
        assert(k * width <= n * width) by (nonlinear_arith)
            requires
                k <= n,
                width > 0,
        ;
        let at: u64 = ptrs + k as u64 * width;
        let entry: u64 = if width == 1 {
            heap.load_u8(at) as u64
        } else if width == 2 {
            heap.load_u16(at) as u64
        } else {
            heap.load_u32(at) as u64
        };
        steps.push(Step::Slot(offset_words(base, entry)));
        proof {
            assert(all[k as int] == Step::Slot(wrap(base + 8 * entry)));
            assert(all.take(k + 1) =~= all.take(k as int).push(all[k as int]));
        }
        k = k + 1;
    }
    assert(all.take(n as int) =~= all);
}

/// The pointers of the first `count` elements of an array, by a pointer table.
pub open spec fn element_steps(
    h: HeapView,
    begin: u64,
    stride: int,
    count: nat,
    ptrs: u64,
    n: u32,
    width: int,
) -> Seq<Step>
    decreases count,
{
    if count == 0 {
        Seq::empty()
    } else {
        element_steps(h, begin, stride, (count - 1) as nat, ptrs, n, width) + table_steps(
            h,
            (begin + (count - 1) * stride) as u64,
            ptrs,
            n,
            width,
        )
    }
}

/// Appends the pointers of the elements of an array, by a pointer table.
pub fn push_elements(
    heap: &Heap,
    steps: &mut Vec<Step>,
    begin: Address,
    end: Address,
    stride: u64,
    ptrs: Address,
    n: u32,
    width: u64,
)
    requires
        width == 1 || width == 2 || width == 4,
    ensures
        final(steps)@ == old(steps)@ + element_steps(
            heap@,
            begin,
            stride as int,
            span_len(begin, end, stride as int),
            ptrs,
            n,
            width as int,
        ),
{
    let ghost total = span_len(begin, end, stride as int);
    if begin >= end || stride == 0 {
        assert(old(steps)@ + Seq::<Step>::empty() =~= old(steps)@);
        return;
    }
    let mut at: u64 = begin;
    let ghost mut k: nat = 0;
    proof {
        lemma_span_len(end - begin, stride as int, 0);
        assert(old(steps)@ + Seq::<Step>::empty() =~= old(steps)@);
    }
    while at < end
        invariant
            width == 1 || width == 2 || width == 4,
            begin < end,
            stride > 0,
            total == span_len(begin, end, stride as int),
            0 <= k <= total,
            at < end ==> at == begin + k * stride && k < total,
            at >= end ==> k == total,
            steps@ == old(steps)@ + element_steps(
                heap@,
                begin,
                stride as int,
                k,
                ptrs,
                n,
                width as int,
            ),
        decreases end - at,
    {
        let ghost before = element_steps(heap@, begin, stride as int, k, ptrs, n, width as int);
        push_table(heap, steps, at, ptrs, n, width);
        proof {
            let one = table_steps(heap@, at, ptrs, n, width as int);
            assert(old(steps)@ + before + one =~= old(steps)@ + (before + one));
            assert((k + 1) * stride == k * stride + stride) by (nonlinear_arith);
            lemma_span_len(end - begin, stride as int, (k + 1) as int);
            k = k + 1;
        }
        if end - at <= stride {
            at = end;
        } else {
            at = at + stride;
        }
    }
}

/// The steps for the elements of an array report nothing outright.
pub proof fn lemma_element_visits(
    h: HeapView,
    begin: u64,
    stride: int,
    count: nat,
    ptrs: u64,
    n: u32,
    width: int,
)
    ensures
        only_special_visits(element_steps(h, begin, stride, count, ptrs, n, width)),
    decreases count,
{
    if count > 0 {
        lemma_element_visits(h, begin, stride, (count - 1) as nat, ptrs, n, width);
    }
}

} // verus!
