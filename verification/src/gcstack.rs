//! The shadow stack of a task: a chain of frames, each with a number of roots, which are reported
//! with the addresses of their slots.

use crate::heap::{Heap, HeapView};
use crate::memory::{offset_back, offset_by, offset_words, wrap, Address};
use crate::object_steps::{offset_slot_steps, push_offset_slot};
use crate::slots::{simple, JuliaVMSlot, SimpleSlot};
use crate::steps::Step;
use crate::traversal::{outcome, run, ScanView, Scanner, UnsupportedLayout};
use vstd::prelude::*;

verus! {

/// Where a copied stack is kept: addresses from `lb` up to `ub` are found `offset` bytes
/// further on.
#[derive(Clone, Copy, PartialEq, Eq, Structural, Debug)]
pub struct StackWindow {
    pub offset: u64,
    pub lb: u64,
    pub ub: u64,
}

/// The place where a stack address is kept.
pub open spec fn stack_addr(w: StackWindow, a: u64) -> u64 {
    if w.lb <= a < w.ub {
        wrap(a + w.offset)
    } else {
        a
    }
}

/// The word at a stack address; zero where it cannot be read.
pub open spec fn stack_word(h: HeapView, w: StackWindow, a: u64) -> u64 {
    if h.readable(stack_addr(w, a)) {
        h.word(stack_addr(w, a))
    } else {
        0
    }
}

/// Finds the place where a stack address is kept.
pub fn get_stack_addr(addr: Address, offset: u64, lb: u64, ub: u64) -> (r: Address)
    ensures
        r == stack_addr(StackWindow { offset, lb, ub }, addr),
{
    if addr >= lb && addr < ub {
        offset_by(addr, offset)
    } else {
        addr
    }
}

/// Reads the word at a stack address.
pub fn read_stack(heap: &Heap, addr: Address, offset: u64, lb: u64, ub: u64) -> (r: Address)
    ensures
        r == stack_word(heap@, StackWindow { offset, lb, ub }, addr),
{
    let place: u64 = get_stack_addr(addr, offset, lb, ub);
    if heap.is_readable(place) {
        heap.load_u64(place)
    } else {
        0
    }
}

/// Whether an address carries a tag bit.
pub fn gc_ptr_tag(addr: Address, tag: u64) -> (r: bool)
    ensures
        r == (addr & tag != 0),
{
    addr & tag != 0
}

/// The stack of a task was copied out: it has a buffer and a copied part.
pub open spec fn has_copied_stack(h: HeapView, ta: u64) -> bool {
    &&& h.field(ta, h.config.abi.task_stkbuf) != 0
    &&& copied_size(h, ta) != 0
}

/// The number of bytes of the copied part of the stack of a task.
pub open spec fn copied_size(h: HeapView, ta: u64) -> u32 {
    h.quad(wrap(ta + h.config.abi.task_copy_stack)) & h.config.abi.task_copy_stack_mask
}

/// The id of the thread that a task last ran on, as its 16 bits.
pub open spec fn task_tid(h: HeapView, ta: u64) -> u16 {
    h.half(wrap(ta + h.config.abi.task_tid))
}

/// Whether the stack of a task has to be read from its buffer.
pub open spec fn reads_copied_stack(h: HeapView, ta: u64, copy_stacks: bool) -> bool {
    copy_stacks && has_copied_stack(h, ta) && h.field(ta, h.config.abi.task_ptls) == 0
}

/// Where the stack of a task is kept.
pub open spec fn stack_window(h: HeapView, ta: u64, copy_stacks: bool) -> StackWindow {
    if reads_copied_stack(h, ta, copy_stacks) {
        let ub = h.stack_base(task_tid(h, ta));
        let lb = wrap(ub - copied_size(h, ta));
        let offset = wrap(h.field(ta, h.config.abi.task_stkbuf) - lb);
        StackWindow { offset, lb, ub }
    } else {
        StackWindow { offset: 0, lb: 0, ub: 0xffff_ffff_ffff_ffff }
    }
}

/// The report of a slot at an address; zero is the address of none.
pub open spec fn slot_report(address: u64) -> Seq<Step> {
    if address == 0 {
        Seq::empty()
    } else {
        seq![Step::Visit(simple(address))]
    }
}

/// The steps for the roots of a frame from the `i`-th on. The slots are reported with their actual
/// addresses, wherever the stack lies. In a frame of slots each root is the address of a slot. In a
/// frame of values each root is a slot itself; there, two low bits mark a finalizer that is skipped
/// with its object, one low bit marks an object that is followed by a native function.
pub open spec fn root_steps(
    h: HeapView,
    w: StackWindow,
    roots: u64,
    nroots: u64,
    i: int,
) -> Seq<Step>
    decreases nroots / 4 + 1 - i,
{
    let at = wrap(roots + 8 * i);
    let value = stack_word(h, w, at);
    if i >= nroots / 4 {
        Seq::empty()
    } else if nroots & 1 != 0 {
        slot_report(stack_addr(w, value)) + root_steps(h, w, roots, nroots, i + 1)
    } else if value & 3 == 3 {
        root_steps(h, w, roots, nroots, i + 2)
    } else if value & 1 != 0 {
        offset_slot_steps(h, stack_addr(w, at), 1) + root_steps(h, w, roots, nroots, i + 2)
    } else {
        seq![Step::Visit(simple(stack_addr(w, at)))] + root_steps(h, w, roots, nroots, i + 1)
    }
}

/// The steps for the frame at `s`.
pub open spec fn frame_steps(h: HeapView, w: StackWindow, s: u64) -> Seq<Step> {
    root_steps(h, w, wrap(s + 16), stack_word(h, w, wrap(s + h.config.abi.gcframe_nroots)), 0)
}

/// The frame that encloses the frame at `s`; none at the end of the chain.
pub open spec fn next_frame(h: HeapView, w: StackWindow, s: u64) -> Option<u64> {
    let prev = stack_word(h, w, wrap(s + h.config.abi.gcframe_prev));
    if prev != 0 && h.readable(prev) {
        Some(prev)
    } else {
        None
    }
}

/// Whether the chain of frames from `s` on has at most `n` frames.
pub open spec fn chain_within(h: HeapView, w: StackWindow, s: u64, n: nat) -> bool
    decreases n,
{
    if n == 0 {
        false
    } else {
        match next_frame(h, w, s) {
            None => true,
            Some(prev) => chain_within(h, w, prev, (n - 1) as nat),
        }
    }
}

/// The steps for the first `n` frames from `s` on.
pub open spec fn chain_steps(h: HeapView, w: StackWindow, s: u64, n: nat) -> Seq<Step>
    decreases n,
{
    if n == 0 {
        Seq::empty()
    } else {
        frame_steps(h, w, s) + match next_frame(h, w, s) {
            None => Seq::empty(),
            Some(prev) => chain_steps(h, w, prev, (n - 1) as nat),
        }
    }
}

/// The number of frames from `s` on, for a chain that ends.
pub open spec fn chain_bound(h: HeapView, w: StackWindow, s: u64) -> nat {
    choose|n: nat| chain_within(h, w, s, n)
}

/// All the frames of a chain count, however its length is bounded.
pub proof fn lemma_chain_bound(h: HeapView, w: StackWindow, s: u64, n: nat, m: nat)
    requires
        chain_within(h, w, s, n),
        chain_within(h, w, s, m),
    ensures
        chain_steps(h, w, s, n) == chain_steps(h, w, s, m),
    decreases n,
{
    match next_frame(h, w, s) {
        None => {},
        Some(prev) => {
            lemma_chain_bound(h, w, prev, (n - 1) as nat, (m - 1) as nat);
        },
    }
}

/// Whether the shadow stack of a task can be scanned: its chain of frames ends, and a stack that
/// was copied out belongs to a thread.
pub open spec fn stack_scannable(h: HeapView, ta: u64, copy_stacks: bool) -> bool {
    let w = stack_window(h, ta, copy_stacks);
    let s = h.field(ta, h.config.abi.task_gcstack);
    &&& reads_copied_stack(h, ta, copy_stacks) ==> task_tid(h, ta) < 0x8000
    &&& s != 0 && h.readable(s) ==> exists|n: nat| chain_within(h, w, s, n)
}

/// Whether the shadow stack of a task can be scanned and has at most `n` frames.
pub open spec fn stack_scannable_within(h: HeapView, ta: u64, copy_stacks: bool, n: nat) -> bool {
    let w = stack_window(h, ta, copy_stacks);
    let s = h.field(ta, h.config.abi.task_gcstack);
    &&& reads_copied_stack(h, ta, copy_stacks) ==> task_tid(h, ta) < 0x8000
    &&& s != 0 && h.readable(s) ==> chain_within(h, w, s, n)
}

/// The steps for the frames of a task.
pub open spec fn task_frame_steps(h: HeapView, ta: u64, copy_stacks: bool) -> Seq<Step> {
    let w = stack_window(h, ta, copy_stacks);
    let s = h.field(ta, h.config.abi.task_gcstack);
    if s != 0 && h.readable(s) {
        chain_steps(h, w, s, chain_bound(h, w, s))
    } else {
        Seq::empty()
    }
}

/// The steps for the exception stack of a task.
pub open spec fn exception_steps(h: HeapView, ta: u64) -> Seq<Step> {
    let slots = h.exception_slots_of(ta);
    if h.field(ta, h.config.abi.task_excstack) != 0 {
        Seq::new(slots.len(), |i: int| Step::Slot(slots[i]))
    } else {
        Seq::empty()
    }
}

/// The steps for the shadow stack of a task: its stack buffer if that was copied out, its
/// frames, and its exceptions.
pub open spec fn gcstack_steps(h: HeapView, ta: u64, copy_stacks: bool) -> Seq<Step> {
    (if copy_stacks && has_copied_stack(h, ta) {
        seq![Step::Slot(wrap(ta + h.config.abi.task_stkbuf))]
    } else {
        Seq::empty()
    }) + task_frame_steps(h, ta, copy_stacks) + exception_steps(h, ta)
}

/// Finds where the stack of a task is kept.
fn find_stack_window(heap: &Heap, ta: Address, copy_stacks: bool) -> (r: StackWindow)
    ensures
        r == stack_window(heap@, ta, copy_stacks),
{
    let abi = heap.config.abi;
    let stkbuf: u64 = heap.load_field(ta, abi.task_stkbuf);
    let copied: u32 = heap.load_u32(offset_by(ta, abi.task_copy_stack)) & abi.task_copy_stack_mask;
    if copy_stacks && stkbuf != 0 && copied != 0 && heap.load_field(ta, abi.task_ptls) == 0 {
        let tid: u16 = heap.load_u16(offset_by(ta, abi.task_tid));
        let ub: u64 = heap.stack_base(tid);
        let lb: u64 = offset_back(ub, copied as u64);
        StackWindow { offset: offset_back(stkbuf, lb), lb, ub }
    } else {
        StackWindow { offset: 0, lb: 0, ub: 0xffff_ffff_ffff_ffff }
    }
}

/// Tests whether a chain of frames has at most a number of frames.
fn chain_ends_within(heap: &Heap, w: StackWindow, first: Address, max_frames: u64) -> (r: bool)
    ensures
        r == chain_within(heap@, w, first, max_frames as nat),
{
    let ghost h = heap@;
    let mut s: u64 = first;
    let mut left: u64 = max_frames;
    while left > 0
        invariant
            h == heap@,
            chain_within(h, w, first, max_frames as nat) == chain_within(h, w, s, left as nat),
        decreases left,
    {
        let at: u64 = offset_by(s, heap.config.abi.gcframe_prev);
        let prev: u64 = read_stack(heap, at, w.offset, w.lb, w.ub);
        if prev == 0 || !heap.is_readable(prev) {
            return true;
        }
        s = prev;
        left = left - 1;
    }
    false
}

/// Tests whether the shadow stack of a task can be scanned and has at most a number of frames.
pub fn is_stack_scannable(
    heap: &Heap,
    ta: Address,
    copy_stacks: bool,
    max_frames: u64,
) -> (r: bool)
    ensures
        r == stack_scannable_within(heap@, ta, copy_stacks, max_frames as nat),
        r ==> stack_scannable(heap@, ta, copy_stacks),
{
    let abi = heap.config.abi;
    let stkbuf: u64 = heap.load_field(ta, abi.task_stkbuf);
    let copied: u32 = heap.load_u32(offset_by(ta, abi.task_copy_stack)) & abi.task_copy_stack_mask;
    if copy_stacks && stkbuf != 0 && copied != 0 && heap.load_field(ta, abi.task_ptls) == 0
        && heap.load_u16(offset_by(ta, abi.task_tid)) >= 0x8000 {
        return false;
    }
    let w = find_stack_window(heap, ta, copy_stacks);
    let s: u64 = heap.load_field(ta, abi.task_gcstack);
    if s == 0 || !heap.is_readable(s) {
        return true;
    }
    chain_ends_within(heap, w, s, max_frames)
}

/// Appends the steps for the roots of a frame.
fn push_roots(heap: &Heap, steps: &mut Vec<Step>, w: StackWindow, roots: Address, nroots: u64)
    ensures
        final(steps)@ == old(steps)@ + root_steps(heap@, w, roots, nroots, 0),
{
    let nr: u64 = nroots >> 2;
    proof {
        assert(nroots >> 2 == nroots / 4) by (bit_vector);
    }
    let mut i: u64 = 0;
    let ghost h = heap@;
    let ghost all = root_steps(h, w, roots, nroots, 0);
    while i < nr
        invariant
            h == heap@,
            nr == nroots / 4,
            i <= nr + 1,
            all == root_steps(h, w, roots, nroots, 0),
            old(steps)@ + all == steps@ + root_steps(h, w, roots, nroots, i as int),
        decreases nr + 1 - i,
    {
        let at: u64 = offset_words(roots, i);
        let value: u64 = read_stack(heap, at, w.offset, w.lb, w.ub);
        let ghost before = steps@;
        if nroots & 1 != 0 {
            let place: u64 = get_stack_addr(value, w.offset, w.lb, w.ub);
            if place != 0 {
                steps.push(Step::Visit(JuliaVMSlot::Simple(SimpleSlot::from_address(place))));
            }
            i = i + 1;
            proof {
                let rest = root_steps(h, w, roots, nroots, i as int);
                assert(before + (slot_report(place) + rest) =~= steps@ + rest);
            }
        } else if value & 3 == 3 {
            i = i + 2;
        } else if gc_ptr_tag(value, 1) {
            let place: u64 = get_stack_addr(at, w.offset, w.lb, w.ub);
            push_offset_slot(heap, steps, place, 1);
            i = i + 2;
            proof {
                let rest = root_steps(h, w, roots, nroots, i as int);
                assert(before + (offset_slot_steps(h, place, 1) + rest) =~= steps@ + rest);
            }
        } else {
            let place: u64 = get_stack_addr(at, w.offset, w.lb, w.ub);
            steps.push(Step::Visit(JuliaVMSlot::Simple(SimpleSlot::from_address(place))));
            i = i + 1;
            proof {
                let rest = root_steps(h, w, roots, nroots, i as int);
                assert(before + (seq![Step::Visit(simple(place))] + rest) =~= steps@ + rest);
            }
        }
    }
    proof {
        assert(steps@ + Seq::<Step>::empty() =~= steps@);
    }
}

/// Appends the steps for a chain of frames that ends.
fn push_chain(heap: &Heap, steps: &mut Vec<Step>, w: StackWindow, first: Address)
    requires
        exists|n: nat| chain_within(heap@, w, first, n),
    ensures
        final(steps)@ == old(steps)@ + chain_steps(
            heap@,
            w,
            first,
            chain_bound(heap@, w, first),
        ),
{
    let ghost h = heap@;
    let ghost bound = chain_bound(h, w, first);
    let ghost all = chain_steps(h, w, first, bound);
    let mut s: u64 = first;
    let ghost mut n: nat = bound;
    loop
        invariant_except_break
            chain_within(h, w, s, n),
            old(steps)@ + all == steps@ + chain_steps(h, w, s, n),
        invariant
            h == heap@,
        ensures
            old(steps)@ + all == steps@,
        decreases n,
    {
        let nroots: u64 = read_stack(
            heap,
            offset_by(s, heap.config.abi.gcframe_nroots),
            w.offset,
            w.lb,
            w.ub,
        );
        let ghost before = steps@;
        push_roots(heap, steps, w, offset_by(s, 16), nroots);
        let prev: u64 = read_stack(
            heap,
            offset_by(s, heap.config.abi.gcframe_prev),
            w.offset,
            w.lb,
            w.ub,
        );
        if prev == 0 || !heap.is_readable(prev) {
            proof {
                assert(before + (frame_steps(h, w, s) + Seq::<Step>::empty()) =~= steps@);
            }
            break;
        }
        proof {
            let rest = chain_steps(h, w, prev, (n - 1) as nat);
            assert(before + (frame_steps(h, w, s) + rest) =~= steps@ + rest);
            n = (n - 1) as nat;
        }
        s = prev;
    }
}

/// Appends the steps for the exception stack of a task.
fn push_exceptions(heap: &Heap, steps: &mut Vec<Step>, ta: Address)
    ensures
        final(steps)@ == old(steps)@ + exception_steps(heap@, ta),
{
    proof {
        assert(old(steps)@ + Seq::<Step>::empty() =~= old(steps)@);
    }
    if heap.load_field(ta, heap.config.abi.task_excstack) == 0 {
        return;
    }
    let slots: Vec<u64> = heap.exception_slots_of(ta);
    let ghost all = exception_steps(heap@, ta);
    let mut i: usize = 0;
    assert(all.take(0) =~= Seq::<Step>::empty());
    while i < slots.len()
        invariant
            i <= slots.len(),
            all.len() == slots.len(),
            forall|j: int| 0 <= j < slots.len() ==> all[j] == Step::Slot(slots@[j]),
            steps@ == old(steps)@ + all.take(i as int),
        decreases slots.len() - i,
    {
        steps.push(Step::Slot(slots[i]));
        assert(all.take(i + 1) =~= all.take(i as int).push(all[i as int]));
        i = i + 1;
    }
    assert(all.take(all.len() as int) =~= all);
}

/// Appends the steps for the shadow stack of a task.
pub fn push_gcstack(heap: &Heap, steps: &mut Vec<Step>, ta: Address, copy_stacks: bool)
    requires
        stack_scannable(heap@, ta, copy_stacks),
    ensures
        final(steps)@ == old(steps)@ + gcstack_steps(heap@, ta, copy_stacks),
{
    let abi = heap.config.abi;
    let ghost h = heap@;
    let stkbuf: u64 = heap.load_field(ta, abi.task_stkbuf);
    let copied: u32 = heap.load_u32(offset_by(ta, abi.task_copy_stack)) & abi.task_copy_stack_mask;
    if copy_stacks && stkbuf != 0 && copied != 0 {
        steps.push(Step::Slot(offset_by(ta, abi.task_stkbuf)));
    }
    let w = find_stack_window(heap, ta, copy_stacks);
    let s: u64 = heap.load_field(ta, abi.task_gcstack);
    if s != 0 && heap.is_readable(s) {
        push_chain(heap, steps, w, s);
    }
    push_exceptions(heap, steps, ta);
    assert(steps@ =~= old(steps)@ + gcstack_steps(h, ta, copy_stacks));
}

/// Scans the shadow stack of a task.
pub fn mmtk_scan_gcstack(
    heap: &Heap,
    ta: Address,
    scanner: &mut Scanner,
    copy_stacks: bool,
) -> (r: Result<(), UnsupportedLayout>)
    requires
        heap@.wf(),
        stack_scannable(heap@, ta, copy_stacks),
    ensures
        outcome(r, final(scanner)@, run(heap@, old(scanner)@, gcstack_steps(heap@, ta, copy_stacks))),
{
    let mut steps: Vec<Step> = Vec::new();
    push_gcstack(heap, &mut steps, ta, copy_stacks);
    assert(steps@ =~= gcstack_steps(heap@, ta, copy_stacks));
    scanner.run_steps(heap, &steps)
}

/// The root slots of a frame of values, with their actual addresses.
pub open spec fn frame_slots(h: HeapView, w: StackWindow, s: u64) -> Seq<JuliaVMSlot> {
    let nroots = stack_word(h, w, wrap(s + h.config.abi.gcframe_nroots));
    Seq::new((nroots / 4) as nat, |i: int| simple(stack_addr(w, wrap(wrap(s + 16) + 8 * i))))
}

/// Whether a frame is one of values that are all plain references.
pub open spec fn is_plain_frame(h: HeapView, w: StackWindow, s: u64) -> bool {
    let nroots = stack_word(h, w, wrap(s + h.config.abi.gcframe_nroots));
    &&& nroots & 1 == 0
    &&& forall|i: int|
        0 <= i < nroots / 4 ==> #[trigger] stack_word(h, w, wrap(wrap(s + 16) + 8 * i)) & 3 == 0
}

/// Whether the first `n` frames from `s` on are all frames of plain references.
pub open spec fn is_plain_chain(h: HeapView, w: StackWindow, s: u64, n: nat) -> bool
    decreases n,
{
    n > 0 ==> is_plain_frame(h, w, s) && match next_frame(h, w, s) {
        None => true,
        Some(prev) => is_plain_chain(h, w, prev, (n - 1) as nat),
    }
}

/// The root slots of the first `n` frames from `s` on.
pub open spec fn chain_slots(h: HeapView, w: StackWindow, s: u64, n: nat) -> Seq<JuliaVMSlot>
    decreases n,
{
    if n == 0 {
        Seq::empty()
    } else {
        frame_slots(h, w, s) + match next_frame(h, w, s) {
            None => Seq::empty(),
            Some(prev) => chain_slots(h, w, prev, (n - 1) as nat),
        }
    }
}

/// The reports of slots.
pub open spec fn reports(slots: Seq<JuliaVMSlot>) -> Seq<Step> {
    slots.map_values(|slot: JuliaVMSlot| Step::Visit(slot))
}

proof fn lemma_plain_roots(h: HeapView, w: StackWindow, s: u64, i: int)
    requires
        is_plain_frame(h, w, s),
        0 <= i <= frame_slots(h, w, s).len(),
    ensures
        ({
            let nroots = stack_word(h, w, wrap(s + h.config.abi.gcframe_nroots));
            root_steps(h, w, wrap(s + 16), nroots, i) == reports(frame_slots(h, w, s).skip(i))
        }),
    decreases frame_slots(h, w, s).len() - i,
{
    let nroots = stack_word(h, w, wrap(s + h.config.abi.gcframe_nroots));
    let slots = frame_slots(h, w, s);
    if i < slots.len() {
        let value = stack_word(h, w, wrap(wrap(s + 16) + 8 * i));
        assert(value & 3 == 0 ==> value & 1 == 0) by (bit_vector);
        lemma_plain_roots(h, w, s, i + 1);
        assert(reports(slots.skip(i)) =~= seq![Step::Visit(slots[i])] + reports(slots.skip(i + 1)));
    } else {
        assert(reports(slots.skip(i)) =~= Seq::<Step>::empty());
    }
}

proof fn lemma_plain_chain(h: HeapView, w: StackWindow, s: u64, n: nat)
    requires
        is_plain_chain(h, w, s, n),
    ensures
        chain_steps(h, w, s, n) == reports(chain_slots(h, w, s, n)),
    decreases n,
{
    if n > 0 {
        lemma_plain_roots(h, w, s, 0);
        assert(frame_slots(h, w, s).skip(0) =~= frame_slots(h, w, s));
        if let Some(prev) = next_frame(h, w, s) {
            lemma_plain_chain(h, w, prev, (n - 1) as nat);
        }
    }
    assert(chain_steps(h, w, s, n) =~= reports(chain_slots(h, w, s, n)));
}

/// Steps that are reports report their slots in order and do nothing else.
proof fn lemma_run_reports(h: HeapView, st: ScanView, slots: Seq<JuliaVMSlot>)
    ensures
        run(h, st, reports(slots)) == (ScanView { slots: st.slots + slots, ..st }, true),
    decreases slots.len(),
{
    if slots.len() == 0 {
        assert(st.slots + slots =~= st.slots);
    } else {
        let rest = slots.drop_first();
        assert(reports(slots).drop_first() =~= reports(rest));
        lemma_run_reports(h, st.reporting(slots[0]), rest);
        assert(st.slots.push(slots[0]) + rest =~= st.slots + slots);
    }
}

/// The scan of a shadow stack of plain references reports every root slot with its actual address,
/// frame by frame and root by root, and nothing else. That holds wherever the stack lies, for a task
/// without exceptions whose stack buffer is not a root.
pub proof fn lemma_stack_roots_reported(
    h: HeapView,
    st: ScanView,
    ta: u64,
    copy_stacks: bool,
    n: nat,
)
    requires
        h.readable(h.field(ta, h.config.abi.task_gcstack)),
        h.field(ta, h.config.abi.task_gcstack) != 0,
        h.field(ta, h.config.abi.task_excstack) == 0,
        !copy_stacks || !has_copied_stack(h, ta),
        ({
            let w = stack_window(h, ta, copy_stacks);
            let s = h.field(ta, h.config.abi.task_gcstack);
            chain_within(h, w, s, n) && is_plain_chain(h, w, s, n)
        }),
    ensures
        ({
            let w = stack_window(h, ta, copy_stacks);
            let s = h.field(ta, h.config.abi.task_gcstack);
            run(h, st, gcstack_steps(h, ta, copy_stacks)) == (
                ScanView { slots: st.slots + chain_slots(h, w, s, n), ..st },
                true,
            )
        }),
{
    let w = stack_window(h, ta, copy_stacks);
    let s = h.field(ta, h.config.abi.task_gcstack);
    lemma_chain_bound(h, w, s, chain_bound(h, w, s), n);
    lemma_plain_chain(h, w, s, n);
    let slots = chain_slots(h, w, s, n);
    assert(gcstack_steps(h, ta, copy_stacks) =~= reports(slots));
    lemma_run_reports(h, st, slots);
}

} // verus!
