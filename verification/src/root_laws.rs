//! Which slots end up among the roots of threads, and how they are packed.

use crate::gcstack::{
    gcstack_steps, stack_scannable, stack_scannable_within, stack_window, stack_word,
};
use crate::heap::{Heap, HeapView};
use crate::layouts::{bt_entry_size, bt_jlvalue_slot, bt_num_jlvals, bt_num_uintvals};
use crate::memory::{lemma_wrap_twice, wrap};
use crate::object_steps::object_steps;
use crate::scanning::{
    all_roots, backtrace_roots, entry_roots, field_root, holds_reference,
    lemma_packets_hold_all_roots, lemma_thread_stacks_by_task, list_thread_roots, live_slots,
    live_task, live_task_count, live_task_steps, packet, packs, root_packets, stacks_steps,
    task_scannable, task_stack_steps, thread_roots, thread_scannable, thread_scannable_within,
    thread_steps, thread_tasks, threads_roots, threads_scan, threads_steps, unpacked,
};
use crate::slots::{simple, JuliaVMSlot};
use crate::stack_laws::{
    is_chain, is_in_place, lemma_frame_of_plain_values, lemma_stack_in_place, lemma_stack_scan,
    root_at, root_word,
};
use crate::steps::Step;
use crate::traversal::{is_reported, ScanView};
use crate::walk_laws::{
    has_taken, is_met, is_visited_by, lemma_either_list, lemma_walk_is_complete,
    lemma_walk_is_sound, stems_from_a_step,
};
use vstd::prelude::*;

verus! {

/// Whether a task belongs to a thread: as its root task, as one of its live tasks, or as its
/// current, next or previous task.
pub open spec fn is_task_of(h: HeapView, ptls: u64, task: u64) -> bool {
    let abi = h.config.abi;
    let items = h.word(wrap(ptls + abi.tls_live_tasks_items));
    let count = h.word(wrap(ptls + abi.tls_live_tasks_len));
    &&& task != 0
    &&& {
        ||| task == h.word(wrap(ptls + abi.tls_root_task))
        ||| task == h.word(wrap(ptls + abi.tls_current_task))
        ||| task == h.word(wrap(ptls + abi.tls_next_task))
        ||| task == h.word(wrap(ptls + abi.tls_previous_task))
        ||| exists|i: int| 0 <= i < count && task == #[trigger] h.word(wrap(items + 8 * i))
    }
}

proof fn lemma_live_tasks(h: HeapView, ptls: u64, n: nat, copy_stacks: bool, x: Step)
    ensures
        ({
            let items = h.word(wrap(ptls + h.config.abi.tls_live_tasks_items));
            live_task_steps(h, ptls, n, copy_stacks).contains(x) <==> exists|i: int|
                {
                    let task = #[trigger] h.word(wrap(items + 8 * i));
                    0 <= i < n && task != 0 && gcstack_steps(h, task, copy_stacks).contains(x)
                }
        }),
    decreases n,
{
    let items = h.word(wrap(ptls + h.config.abi.tls_live_tasks_items));
    let steps = live_task_steps(h, ptls, n, copy_stacks);
    if n > 0 {
        let m = (n - 1) as nat;
        lemma_live_tasks(h, ptls, m, copy_stacks, x);
        let task = h.word(wrap(items + 8 * (n - 1)));
        let before = live_task_steps(h, ptls, m, copy_stacks);
        let last = task_stack_steps(h, task, copy_stacks);
        assert(steps == before + last);
        lemma_either_list(before, last, x);
    }
}

#[verifier::rlimit(40)]
proof fn lemma_thread_tasks_scanned(h: HeapView, ptls: u64, copy_stacks: bool, x: Step)
    ensures
        thread_steps(h, ptls, copy_stacks).contains(x) <==> exists|task: u64|
            #[trigger] is_task_of(h, ptls, task) && gcstack_steps(h, task, copy_stacks).contains(x),
{
    let abi = h.config.abi;
    let items = h.word(wrap(ptls + abi.tls_live_tasks_items));
    let count = live_task_count(h, ptls) as nat;
    let root = h.word(wrap(ptls + abi.tls_root_task));
    let current = h.word(wrap(ptls + abi.tls_current_task));
    let next = h.word(wrap(ptls + abi.tls_next_task));
    let previous = h.word(wrap(ptls + abi.tls_previous_task));
    let s1 = task_stack_steps(h, root, copy_stacks);
    let s2 = live_task_steps(h, ptls, count, copy_stacks);
    let s3 = task_stack_steps(h, current, copy_stacks);
    let s4 = task_stack_steps(h, next, copy_stacks);
    let s5 = task_stack_steps(h, previous, copy_stacks);
    assert(thread_steps(h, ptls, copy_stacks) == s1 + s2 + s3 + s4 + s5);
    lemma_either_list(s1 + s2 + s3 + s4, s5, x);
    lemma_either_list(s1 + s2 + s3, s4, x);
    lemma_either_list(s1 + s2, s3, x);
    lemma_either_list(s1, s2, x);
    lemma_live_tasks(h, ptls, count, copy_stacks, x);
    if thread_steps(h, ptls, copy_stacks).contains(x) {
        if s1.contains(x) {
            assert(is_task_of(h, ptls, root));
        } else if s3.contains(x) {
            assert(is_task_of(h, ptls, current));
        } else if s4.contains(x) {
            assert(is_task_of(h, ptls, next));
        } else if s5.contains(x) {
            assert(is_task_of(h, ptls, previous));
        } else {
            let i = choose|i: int|
                {
                    let task = #[trigger] h.word(wrap(items + 8 * i));
                    0 <= i < count && task != 0 && gcstack_steps(h, task, copy_stacks).contains(x)
                };
            assert(is_task_of(h, ptls, h.word(wrap(items + 8 * i))));
        }
    }
    if exists|task: u64|
        #[trigger] is_task_of(h, ptls, task) && gcstack_steps(h, task, copy_stacks).contains(x) {
        let task = choose|task: u64|
            #[trigger] is_task_of(h, ptls, task) && gcstack_steps(h, task, copy_stacks).contains(x);
        if task != root && task != current && task != next && task != previous {
            let i = choose|i: int| 0 <= i < count && task == #[trigger] h.word(wrap(items + 8 * i));
            assert(h.word(wrap(items + 8 * i)) == task);
        }
    }
}

/// Whether a step is one of the shadow stack of some task of a thread.
pub open spec fn is_stack_step(h: HeapView, ptls: u64, copy_stacks: bool, x: Step) -> bool {
    exists|task: u64|
        #[trigger] is_task_of(h, ptls, task) && gcstack_steps(h, task, copy_stacks).contains(x)
}

#[verifier::rlimit(40)]
proof fn lemma_every_thread(h: HeapView, threads: Seq<u64>, copy_stacks: bool, x: Step)
    ensures
        threads_steps(h, threads, copy_stacks).contains(x) <==> exists|t: int|
            0 <= t < threads.len() && is_stack_step(h, #[trigger] threads[t], copy_stacks, x),
    decreases threads.len(),
{
    if threads.len() > 0 {
        let before = threads.drop_last();
        let last = threads.last();
        lemma_every_thread(h, before, copy_stacks, x);
        lemma_thread_tasks_scanned(h, last, copy_stacks, x);
        lemma_either_list(
            threads_steps(h, before, copy_stacks),
            thread_steps(h, last, copy_stacks),
            x,
        );
        assert(threads[threads.len() - 1] == last);
        assert(is_stack_step(h, last, copy_stacks, x) == thread_steps(
            h,
            last,
            copy_stacks,
        ).contains(x));
        if threads_steps(h, before, copy_stacks).contains(x) {
            let t = choose|t: int|
                0 <= t < before.len() && is_stack_step(h, #[trigger] before[t], copy_stacks, x);
            assert(is_stack_step(h, threads[t], copy_stacks, x));
        }
        if exists|t: int|
            0 <= t < threads.len() && is_stack_step(h, #[trigger] threads[t], copy_stacks, x) {
            let t = choose|t: int|
                0 <= t < threads.len() && is_stack_step(h, #[trigger] threads[t], copy_stacks, x);
            if t < before.len() {
                assert(is_stack_step(h, before[t], copy_stacks, x));
            }
        }
    }
}

/// The stacks that a scan of threads covers are those of all tasks of all its threads: a step is
/// taken if and only if it is one of the shadow stack of a task of some thread of the list,
/// whatever the index of the thread.
pub proof fn lemma_every_task_of_every_thread(
    h: HeapView,
    threads: Seq<u64>,
    copy_stacks: bool,
    x: Step,
)
    ensures
        forall|t: int, task: u64|
            {
                &&& 0 <= t < threads.len()
                &&& #[trigger] is_task_of(h, threads[t], task)
                &&& gcstack_steps(h, task, copy_stacks).contains(x)
            } ==> threads_steps(h, threads, copy_stacks).contains(x),
        threads_steps(h, threads, copy_stacks).contains(x) ==> exists|t: int, task: u64|
            {
                &&& 0 <= t < threads.len()
                &&& #[trigger] is_task_of(h, threads[t], task)
                &&& gcstack_steps(h, task, copy_stacks).contains(x)
            },
{
    lemma_every_thread(h, threads, copy_stacks, x);
    assert forall|t: int, task: u64|
        {
            &&& 0 <= t < threads.len()
            &&& #[trigger] is_task_of(h, threads[t], task)
            &&& gcstack_steps(h, task, copy_stacks).contains(x)
        } implies threads_steps(h, threads, copy_stacks).contains(x) by {
        assert(is_stack_step(h, threads[t], copy_stacks, x));
    }
    if threads_steps(h, threads, copy_stacks).contains(x) {
        let t = choose|t: int|
            0 <= t < threads.len() && is_stack_step(h, #[trigger] threads[t], copy_stacks, x);
        let task = choose|task: u64|
            #[trigger] is_task_of(h, threads[t], task) && gcstack_steps(
                h,
                task,
                copy_stacks,
            ).contains(x);
        assert(is_task_of(h, threads[t], task));
    }
}

/// Roots are packed by the 4096: the root at an index is found in the packet and at the place that
/// the index divided by 4096 gives; no packet is empty or holds more, and only the last holds
/// fewer.
pub proof fn lemma_packed_roots<T>(packets: Seq<Vec<T>>, slots: Seq<T>, k: int)
    requires
        packs(packets, slots),
        0 <= k,
    ensures
        k < slots.len() <==> k / 4096 < packets.len() && k % 4096 < packets[k / 4096]@.len(),
        k < slots.len() ==> packets[k / 4096]@[k % 4096] == slots[k],
        k < packets.len() ==> 0 < packets[k]@.len() <= 4096,
        k < packets.len() - 1 ==> packets[k]@.len() == 4096,
{
    if k / 4096 < packets.len() {
        assert(packets[k / 4096]@ == packet(slots, k / 4096));
    }
    if k < packets.len() {
        assert(packets[k]@ == packet(slots, k));
    }
}

proof fn lemma_filtered<T>(s: Seq<T>, keep: spec_fn(T) -> bool, x: T)
    ensures
        s.filter(keep).contains(x) <==> s.contains(x) && keep(x),
    decreases s.len(),
{
    reveal(Seq::filter);
    if s.len() > 0 {
        let before = s.drop_last();
        lemma_filtered(before, keep, x);
        if s.contains(x) {
            let i = choose|i: int| 0 <= i < s.len() && s[i] == x;
            if i < before.len() {
                assert(before[i] == x);
            }
        }
        if before.contains(x) {
            let i = choose|i: int| 0 <= i < before.len() && before[i] == x;
            assert(s[i] == x);
        }
        let kept = before.filter(keep);
        if keep(s.last()) {
            let all = kept.push(s.last());
            assert(all[kept.len() as int] == s.last());
            if kept.contains(x) {
                let j = choose|j: int| 0 <= j < kept.len() && kept[j] == x;
                assert(all[j] == x);
            }
            if all.contains(x) && x != s.last() {
                let j = choose|j: int| 0 <= j < all.len() && all[j] == x;
                assert(kept[j] == x);
            }
        }
        assert(s[s.len() - 1] == s.last());
    }
}

/// The roots of threads are the slots that the scan of their stacks reports, as far as they hold a
/// reference, and the other roots of the threads.
#[verifier::rlimit(40)]
pub proof fn lemma_what_roots_are(
    h: HeapView,
    st: ScanView,
    threads: Seq<u64>,
    copy_stacks: bool,
    slot: JuliaVMSlot,
)
    ensures
        all_roots(h, st, threads, copy_stacks).contains(slot) <==> {
            ||| threads_scan(h, st, threads, copy_stacks).0.slots.contains(slot) && slot.value(h)
                is Some
            ||| threads_roots(h, threads).contains(slot)
        },
{
    let scanned = threads_scan(h, st, threads, copy_stacks).0.slots;
    let keep = |s: JuliaVMSlot| holds_reference(h, s);
    let kept = scanned.filter(keep);
    let others = threads_roots(h, threads);
    lemma_filtered(scanned, keep, slot);
    assert(all_roots(h, st, threads, copy_stacks) == kept + others);
    lemma_either_slot(kept, others, slot);
}

proof fn lemma_either_slot(s: Seq<JuliaVMSlot>, t: Seq<JuliaVMSlot>, x: JuliaVMSlot)
    ensures
        (s + t).contains(x) <==> s.contains(x) || t.contains(x),
{
    if s.contains(x) {
        let i = choose|i: int| 0 <= i < s.len() && s[i] == x;
        assert((s + t)[i] == x);
    }
    if t.contains(x) {
        let i = choose|i: int| 0 <= i < t.len() && t[i] == x;
        assert((s + t)[s.len() + i] == x);
    }
    if (s + t).contains(x) {
        let i = choose|i: int| 0 <= i < (s + t).len() && (s + t)[i] == x;
        if i < s.len() {
            assert(s[i] == x);
        } else {
            assert(t[i - s.len()] == x);
        }
    }
}

/// Whether a slot is in some packet.
pub open spec fn is_packed(packets: Seq<Vec<JuliaVMSlot>>, slot: JuliaVMSlot) -> bool {
    exists|i: int, j: int|
        0 <= i < packets.len() && 0 <= j < packets[i]@.len() && #[trigger] packets[i]@[j] == slot
}

proof fn lemma_root_is_packed(
    packets: Seq<Vec<JuliaVMSlot>>,
    slots: Seq<JuliaVMSlot>,
    slot: JuliaVMSlot,
)
    requires
        packs(packets, slots),
    ensures
        is_packed(packets, slot) <==> slots.contains(slot),
        unpacked(packets).contains(slot) <==> slots.contains(slot),
{
    lemma_packets_hold_all_roots(packets, slots);
    if slots.contains(slot) {
        let k = choose|k: int| 0 <= k < slots.len() && slots[k] == slot;
        lemma_packed_roots(packets, slots, k);
        assert(packets[k / 4096]@[k % 4096] == slot);
    }
    if is_packed(packets, slot) {
        let (i, j) = choose|i: int, j: int|
            0 <= i < packets.len() && 0 <= j < packets[i]@.len() && #[trigger] packets[i]@[j]
                == slot;
        assert(packets[i]@ == packet(slots, i));
        assert(slots[i * 4096 + j] == slot);
    }
}

/// No slot of a shadow stack gets lost: what the stack of any task of any thread of the list has
/// reported and holds a reference is in a packet of roots.
pub proof fn lemma_stack_slots_are_packed(
    h: HeapView,
    st: ScanView,
    threads: Seq<u64>,
    copy_stacks: bool,
    packets: Seq<Vec<JuliaVMSlot>>,
    t: int,
    task: u64,
    slot: JuliaVMSlot,
)
    requires
        threads_scan(h, st, threads, copy_stacks).1,
        packs(packets, all_roots(h, st, threads, copy_stacks)),
        0 <= t < threads.len(),
        is_task_of(h, threads[t], task),
        gcstack_steps(h, task, copy_stacks).contains(Step::Visit(slot)),
        slot.value(h) is Some,
    ensures
        is_packed(packets, slot),
        unpacked(packets).contains(slot),
{
    let x = Step::Visit(slot);
    let fresh = ScanView { slots: Seq::empty(), ..st };
    let steps = threads_steps(h, threads, copy_stacks);
    lemma_every_task_of_every_thread(h, threads, copy_stacks, x);
    assert(steps.contains(x));
    lemma_walk_is_complete(h, fresh, steps);
    let end = threads_scan(h, st, threads, copy_stacks).0;
    assert(has_taken(h, end, x));
    lemma_what_roots_are(h, st, threads, copy_stacks, slot);
    lemma_root_is_packed(packets, all_roots(h, st, threads, copy_stacks), slot);
}

/// Every root of every frame of every task of every thread is in a packet: for any chain of frames
/// from the top of the stack of a task, stacks being in place, the `i`-th root of the last frame of
/// the chain is found if it holds a reference and no root before it in its frame has its lowest bit
/// set.
#[verifier::rlimit(40)]
pub proof fn lemma_frame_roots_are_packed(
    h: HeapView,
    st: ScanView,
    threads: Seq<u64>,
    copy_stacks: bool,
    packets: Seq<Vec<JuliaVMSlot>>,
    t: int,
    task: u64,
    frames: Seq<u64>,
    i: int,
)
    requires
        threads_scan(h, st, threads, copy_stacks).1,
        packs(packets, all_roots(h, st, threads, copy_stacks)),
        0 <= t < threads.len(),
        is_task_of(h, threads[t], task),
        stack_scannable(h, task, copy_stacks),
        is_in_place(h, task, copy_stacks),
        frames.len() > 0,
        frames[0] == h.word(wrap(task + h.config.abi.task_gcstack)),
        frames[0] != 0 && h.readable(frames[0]),
        forall|k: int|
            0 <= k < frames.len() - 1 ==> {
                let place = wrap(#[trigger] frames[k] + h.config.abi.gcframe_prev);
                &&& h.readable(place)
                &&& frames[k + 1] == h.word(place)
                &&& frames[k + 1] != 0 && h.readable(frames[k + 1])
            },
        ({
            let s = frames.last();
            let count = wrap(s + h.config.abi.gcframe_nroots);
            &&& h.readable(count)
            &&& h.word(count) % 2 == 0
            &&& 0 <= i < h.word(count) / 4
            &&& forall|k: int|
                0 <= k <= i ==> h.readable(wrap(s + 16 + 8 * k)) && #[trigger] h.word(
                    wrap(s + 16 + 8 * k),
                ) % 2 == 0
            &&& h.word(wrap(s + 16 + 8 * i)) != 0
        }),
    ensures
        is_packed(packets, simple(wrap(frames.last() + 16 + 8 * i))),
        unpacked(packets).contains(simple(wrap(frames.last() + 16 + 8 * i))),
{
    let w = stack_window(h, task, copy_stacks);
    let s = frames.last();
    let slot = simple(wrap(s + 16 + 8 * i));
    assert forall|a: u64| h.readable(a) implies #[trigger] stack_word(h, w, a)
        == h.word(a) by {
        lemma_stack_in_place(h, task, copy_stacks, a);
    }
    assert(is_chain(h, w, frames[0], frames));
    assert(root_word(h, w, s) == h.word(wrap(s + h.config.abi.gcframe_nroots)));
    assert forall|k: int| 0 <= k <= i implies #[trigger] root_at(h, w, s, k) % 2 == 0 by {
        assert(h.word(wrap(s + 16 + 8 * k)) % 2 == 0);
    }
    lemma_frame_of_plain_values(h, w, s, i);
    lemma_stack_in_place(h, task, copy_stacks, wrap(s + 16 + 8 * i));
    lemma_stack_scan(h, task, copy_stacks, Step::Visit(slot));
    lemma_stack_slots_are_packed(h, st, threads, copy_stacks, packets, t, task, slot);
}

/// A walk over the entries of a backtrace: a native frame takes one word; another entry, which
/// begins with a word of all ones, takes two words, and one for each reference and for each number
/// that the low six bits of its second word count.
pub open spec fn is_backtrace_walk(h: HeapView, data: u64, at: Seq<int>) -> bool {
    &&& at.len() > 0
    &&& at[0] == 0
    &&& forall|k: int|
        0 <= k < at.len() - 1 ==> at[k + 1] == #[trigger] at[k] + (if h.word(
            wrap(data + 8 * at[k]),
        ) != u64::MAX {
            1int
        } else {
            let counts = h.word(wrap(data + 8 * at[k] + 8));
            2 + counts % 8 + counts / 8 % 8
        })
}

/// Whether a slot is one of the references of the backtrace entry at an index: they follow the two
/// words that every entry but a native frame begins with.
pub open spec fn is_entry_reference(h: HeapView, data: u64, i: int, slot: JuliaVMSlot) -> bool {
    let counts = h.word(wrap(data + 8 * i + 8));
    &&& h.word(wrap(data + 8 * i)) == u64::MAX
    &&& exists|j: int|
        0 <= j < counts % 8 && slot == #[trigger] simple(wrap(data + 8 * i + 16 + 8 * j))
}

/// Whether a slot is a reference of some entry of a backtrace of so many words.
pub open spec fn is_backtrace_reference(
    h: HeapView,
    data: u64,
    size: u64,
    slot: JuliaVMSlot,
) -> bool {
    exists|at: Seq<int>|
        {
            &&& #[trigger] is_backtrace_walk(h, data, at)
            &&& 0 <= at.last() < size
            &&& is_entry_reference(h, data, at.last(), slot)
        }
}

proof fn lemma_entry(h: HeapView, data: u64, i: int, size: int, slot: JuliaVMSlot)
    requires
        i < size,
    ensures
        ({
            let step = if h.word(wrap(data + 8 * i)) != u64::MAX {
                1int
            } else {
                let counts = h.word(wrap(data + 8 * i + 8));
                2 + counts % 8 + counts / 8 % 8
            };
            &&& step > 0
            &&& backtrace_roots(h, data, i, size).contains(slot) <==> is_entry_reference(
                h,
                data,
                i,
                slot,
            ) || backtrace_roots(h, data, i + step, size).contains(slot)
        }),
{
    let e = wrap(data + 8 * i);
    lemma_wrap_twice(data + 8 * i, 8);
    let counts = h.word(wrap(data + 8 * i + 8));
    assert(h.field(e, 8) == counts);
    assert(bt_num_jlvals(h, e) == counts % 8);
    assert(bt_num_uintvals(h, e) == counts / 8 % 8);
    let own = entry_roots(h, e);
    let rest = backtrace_roots(h, data, i + bt_entry_size(h, e), size);
    lemma_either_slot(own, rest, slot);
    assert forall|j: int| bt_jlvalue_slot(e, j) == wrap(data + 8 * i + 16 + 8 * j) by {
        lemma_wrap_twice(data + 8 * i, 8 * (2 + j));
    }
    if own.contains(slot) {
        let j = choose|j: int| 0 <= j < own.len() && own[j] == slot;
        assert(slot == simple(wrap(data + 8 * i + 16 + 8 * j)));
    }
    if is_entry_reference(h, data, i, slot) {
        let j = choose|j: int|
            0 <= j < counts % 8 && slot == #[trigger] simple(wrap(data + 8 * i + 16 + 8 * j));
        assert(own[j] == slot);
    }
}

proof fn lemma_backtrace_found(
    h: HeapView,
    data: u64,
    size: u64,
    at: Seq<int>,
    slot: JuliaVMSlot,
) -> (r: Seq<int>)
    requires
        is_backtrace_walk(h, data, at),
        at.last() >= 0,
        backtrace_roots(h, data, at.last(), size as int).contains(slot),
    ensures
        is_backtrace_walk(h, data, r),
        0 <= r.last() < size,
        is_entry_reference(h, data, r.last(), slot),
    decreases (if at.last() < size { size - at.last() } else { 0 }),
{
    let i = at.last();
    assert(i < size);
    lemma_entry(h, data, i, size as int, slot);
    if is_entry_reference(h, data, i, slot) {
        at
    } else {
        let step = if h.word(wrap(data + 8 * i)) != u64::MAX {
            1int
        } else {
            let counts = h.word(wrap(data + 8 * i + 8));
            2 + counts % 8 + counts / 8 % 8
        };
        let longer = at.push(i + step);
        assert forall|k: int| 0 <= k < longer.len() - 1 implies longer[k + 1]
            == #[trigger] longer[k] + (if h.word(wrap(data + 8 * longer[k])) != u64::MAX {
            1int
        } else {
            let counts = h.word(wrap(data + 8 * longer[k] + 8));
            2 + counts % 8 + counts / 8 % 8
        }) by {
            assert(longer[k] == at[k]);
        }
        lemma_backtrace_found(h, data, size, longer, slot)
    }
}

proof fn lemma_backtrace_rises(h: HeapView, data: u64, at: Seq<int>, j: int, k: int)
    requires
        is_backtrace_walk(h, data, at),
        0 <= j <= k < at.len(),
    ensures
        at[j] <= at[k],
    decreases k - j,
{
    if j < k {
        lemma_backtrace_rises(h, data, at, j, k - 1);
        assert(at[k - 1 + 1] == at[k]);
    }
}

proof fn lemma_backtrace_reached(
    h: HeapView,
    data: u64,
    size: u64,
    at: Seq<int>,
    k: int,
    slot: JuliaVMSlot,
)
    requires
        is_backtrace_walk(h, data, at),
        0 <= k < at.len(),
        at.last() < size,
        is_entry_reference(h, data, at.last(), slot),
    ensures
        backtrace_roots(h, data, at[k], size as int).contains(slot),
    decreases at.len() - k,
{
    lemma_backtrace_rises(h, data, at, k, at.len() - 1);
    lemma_entry(h, data, at[k], size as int, slot);
    if k < at.len() - 1 {
        lemma_backtrace_reached(h, data, size, at, k + 1, slot);
        assert(at[k + 1] == at[k] + (if h.word(wrap(data + 8 * at[k])) != u64::MAX {
            1int
        } else {
            let counts = h.word(wrap(data + 8 * at[k] + 8));
            2 + counts % 8 + counts / 8 % 8
        }));
    }
}

/// Whether a slot is one of the fields of a thread that hold a task or its last exception, and
/// holds anything.
pub open spec fn is_thread_field(h: HeapView, ptls: u64, slot: JuliaVMSlot) -> bool {
    let abi = h.config.abi;
    &&& slot is Simple
    &&& h.word(slot.address()) != 0
    &&& {
        ||| slot.address() == wrap(ptls + abi.tls_root_task)
        ||| slot.address() == wrap(ptls + abi.tls_current_task)
        ||| slot.address() == wrap(ptls + abi.tls_next_task)
        ||| slot.address() == wrap(ptls + abi.tls_previous_task)
        ||| slot.address() == wrap(ptls + abi.tls_previous_exception)
    }
}

/// Whether a slot is a root of a thread besides its shadow stacks.
pub open spec fn is_thread_root(h: HeapView, ptls: u64, slot: JuliaVMSlot) -> bool {
    let abi = h.config.abi;
    ||| is_thread_field(h, ptls, slot)
    ||| is_backtrace_reference(
        h,
        h.word(wrap(ptls + abi.tls_bt_data)),
        h.word(wrap(ptls + abi.tls_bt_size)),
        slot,
    )
}

proof fn lemma_field_root(h: HeapView, ptls: u64, offset: u64, slot: JuliaVMSlot)
    ensures
        field_root(h, ptls, offset).contains(slot) <==> slot is Simple && slot.address() == wrap(
            ptls + offset,
        ) && h.word(slot.address()) != 0,
{
    let own = field_root(h, ptls, offset);
    if own.len() > 0 {
        assert(own[0] == simple(wrap(ptls + offset)));
    }
}

proof fn lemma_backtrace(h: HeapView, data: u64, size: u64, slot: JuliaVMSlot)
    ensures
        backtrace_roots(h, data, 0, size as int).contains(slot) <==> is_backtrace_reference(
            h,
            data,
            size,
            slot,
        ),
{
    if backtrace_roots(h, data, 0, size as int).contains(slot) {
        let start = seq![0int];
        assert(is_backtrace_walk(h, data, start));
        let at = lemma_backtrace_found(h, data, size, start, slot);
        assert(is_backtrace_walk(h, data, at));
    }
    if is_backtrace_reference(h, data, size, slot) {
        let at = choose|at: Seq<int>|
            {
                &&& #[trigger] is_backtrace_walk(h, data, at)
                &&& 0 <= at.last() < size
                &&& is_entry_reference(h, data, at.last(), slot)
            };
        lemma_backtrace_reached(h, data, size, at, 0, slot);
    }
}

/// The roots of a thread besides its stacks are the five fields, as far as they hold anything, and
/// the references of its backtrace; there are no others.
pub proof fn lemma_thread_root(h: HeapView, ptls: u64, slot: JuliaVMSlot)
    ensures
        thread_roots(h, ptls).contains(slot) <==> is_thread_root(h, ptls, slot),
{
    let abi = h.config.abi;
    let f1 = field_root(h, ptls, abi.tls_root_task);
    let f2 = field_root(h, ptls, abi.tls_current_task);
    let f3 = field_root(h, ptls, abi.tls_next_task);
    let f4 = field_root(h, ptls, abi.tls_previous_task);
    let f5 = field_root(h, ptls, abi.tls_previous_exception);
    let data = h.word(wrap(ptls + abi.tls_bt_data));
    let size = h.word(wrap(ptls + abi.tls_bt_size));
    let b = backtrace_roots(h, data, 0, size as int);
    assert(thread_roots(h, ptls) == f1 + f2 + f3 + f4 + f5 + b);
    lemma_either_slot(f1 + f2 + f3 + f4 + f5, b, slot);
    lemma_either_slot(f1 + f2 + f3 + f4, f5, slot);
    lemma_either_slot(f1 + f2 + f3, f4, slot);
    lemma_either_slot(f1 + f2, f3, slot);
    lemma_either_slot(f1, f2, slot);
    lemma_field_root(h, ptls, abi.tls_root_task, slot);
    lemma_field_root(h, ptls, abi.tls_current_task, slot);
    lemma_field_root(h, ptls, abi.tls_next_task, slot);
    lemma_field_root(h, ptls, abi.tls_previous_task, slot);
    lemma_field_root(h, ptls, abi.tls_previous_exception, slot);
    lemma_backtrace(h, data, size, slot);
}

/// The other roots of a list of threads are those of each of its threads, whatever its index.
pub proof fn lemma_every_thread_root(h: HeapView, threads: Seq<u64>, slot: JuliaVMSlot)
    ensures
        threads_roots(h, threads).contains(slot) <==> exists|t: int|
            0 <= t < threads.len() && is_thread_root(h, #[trigger] threads[t], slot),
    decreases threads.len(),
{
    if threads.len() > 0 {
        let before = threads.drop_last();
        lemma_every_thread_root(h, before, slot);
        lemma_thread_root(h, threads.last(), slot);
        lemma_either_slot(threads_roots(h, before), thread_roots(h, threads.last()), slot);
        if threads_roots(h, before).contains(slot) {
            let t = choose|t: int|
                0 <= t < before.len() && is_thread_root(h, #[trigger] before[t], slot);
            assert(is_thread_root(h, threads[t], slot));
        } else if thread_roots(h, threads.last()).contains(slot) {
            assert(is_thread_root(h, threads[threads.len() - 1], slot));
        }
        if exists|t: int| 0 <= t < threads.len() && is_thread_root(h, #[trigger] threads[t], slot) {
            let t = choose|t: int|
                0 <= t < threads.len() && is_thread_root(h, #[trigger] threads[t], slot);
            if t < before.len() {
                assert(is_thread_root(h, before[t], slot));
            }
        }
    }
}

/// Every other root of every thread of a list is in a packet.
pub proof fn lemma_thread_roots_are_packed(
    h: HeapView,
    st: ScanView,
    threads: Seq<u64>,
    copy_stacks: bool,
    packets: Seq<Vec<JuliaVMSlot>>,
    t: int,
    slot: JuliaVMSlot,
)
    requires
        packs(packets, all_roots(h, st, threads, copy_stacks)),
        0 <= t < threads.len(),
        is_thread_root(h, threads[t], slot),
    ensures
        is_packed(packets, slot),
{
    lemma_every_thread_root(h, threads, slot);
    lemma_what_roots_are(h, st, threads, copy_stacks, slot);
    lemma_root_is_packed(packets, all_roots(h, st, threads, copy_stacks), slot);
}

/// Threads can be scanned if and only if the stacks of all their tasks can be.
pub proof fn lemma_scannable_threads(h: HeapView, ptls: u64, copy_stacks: bool)
    ensures
        thread_scannable(h, ptls, copy_stacks) <==> forall|task: u64|
            #[trigger] is_task_of(h, ptls, task) ==> stack_scannable(h, task, copy_stacks),
{
    let abi = h.config.abi;
    let items = h.word(wrap(ptls + abi.tls_live_tasks_items));
    let count = h.word(wrap(ptls + abi.tls_live_tasks_len));
    if thread_scannable(h, ptls, copy_stacks) {
        assert forall|task: u64| #[trigger] is_task_of(h, ptls, task) implies stack_scannable(
            h,
            task,
            copy_stacks,
        ) by {
            if exists|i: int| 0 <= i < count && task == #[trigger] h.word(wrap(items + 8 * i)) {
                let i = choose|i: int|
                    0 <= i < count && task == #[trigger] h.word(wrap(items + 8 * i));
                assert(task == live_task(h, ptls, i));
            }
        }
    }
    if forall|task: u64|
        #[trigger] is_task_of(h, ptls, task) ==> stack_scannable(h, task, copy_stacks) {
        let root = h.word(wrap(ptls + abi.tls_root_task));
        let current = h.word(wrap(ptls + abi.tls_current_task));
        let next = h.word(wrap(ptls + abi.tls_next_task));
        let previous = h.word(wrap(ptls + abi.tls_previous_task));
        assert(root != 0 ==> is_task_of(h, ptls, root));
        assert(current != 0 ==> is_task_of(h, ptls, current));
        assert(next != 0 ==> is_task_of(h, ptls, next));
        assert(previous != 0 ==> is_task_of(h, ptls, previous));
        assert forall|i: int| 0 <= i < live_task_count(h, ptls) implies {
            task_scannable(
                h,
                #[trigger] live_task(h, ptls, i),
                copy_stacks,
            )
        } by {
            let task = h.word(wrap(items + 8 * i));
            assert(task != 0 ==> is_task_of(h, ptls, task));
        }
    }
}

/// The list of the tasks of a thread holds its tasks, all of them, and no other.
pub proof fn lemma_listed_tasks(h: HeapView, ptls: u64, task: u64)
    requires
        task != 0,
    ensures
        thread_tasks(h, ptls).contains(task) <==> is_task_of(h, ptls, task),
{
    let abi = h.config.abi;
    let items = h.word(wrap(ptls + abi.tls_live_tasks_items));
    let count = h.word(wrap(ptls + abi.tls_live_tasks_len));
    let tasks = thread_tasks(h, ptls);
    assert(tasks.len() == count + 4);
    assert(tasks[0] == h.word(wrap(ptls + abi.tls_root_task)));
    assert(tasks[count + 1] == h.word(wrap(ptls + abi.tls_current_task)));
    assert(tasks[count + 2] == h.word(wrap(ptls + abi.tls_next_task)));
    assert(tasks[count + 3] == h.word(wrap(ptls + abi.tls_previous_task)));
    if tasks.contains(task) {
        let i = choose|i: int| 0 <= i < tasks.len() && tasks[i] == task;
        if 0 < i <= count {
            assert(task == h.word(wrap(items + 8 * (i - 1))));
        }
    }
    if exists|i: int| 0 <= i < count && task == #[trigger] h.word(wrap(items + 8 * i)) {
        let i = choose|i: int| 0 <= i < count && task == #[trigger] h.word(wrap(items + 8 * i));
        assert(tasks[i + 1] == task);
    }
}

/// A thread passes the test for a number of frames if and only if the stack of each of its tasks
/// does.
pub proof fn lemma_thread_test(h: HeapView, ptls: u64, copy_stacks: bool, n: nat)
    ensures
        thread_scannable_within(h, ptls, copy_stacks, n) <==> forall|task: u64|
            #[trigger] is_task_of(h, ptls, task) ==> stack_scannable_within(
                h,
                task,
                copy_stacks,
                n,
            ),
{
    let abi = h.config.abi;
    let items = h.word(wrap(ptls + abi.tls_live_tasks_items));
    let count = h.word(wrap(ptls + abi.tls_live_tasks_len));
    if thread_scannable_within(h, ptls, copy_stacks, n) {
        assert forall|task: u64| #[trigger] is_task_of(h, ptls, task) implies {
            stack_scannable_within(h, task, copy_stacks, n)
        } by {
            if exists|i: int| 0 <= i < count && task == #[trigger] h.word(wrap(items + 8 * i)) {
                let i = choose|i: int|
                    0 <= i < count && task == #[trigger] h.word(wrap(items + 8 * i));
                assert(task == live_task(h, ptls, i));
            }
        }
    }
    if forall|task: u64|
        #[trigger] is_task_of(h, ptls, task) ==> stack_scannable_within(h, task, copy_stacks, n) {
        let root = h.word(wrap(ptls + abi.tls_root_task));
        let current = h.word(wrap(ptls + abi.tls_current_task));
        let next = h.word(wrap(ptls + abi.tls_next_task));
        let previous = h.word(wrap(ptls + abi.tls_previous_task));
        assert(root != 0 ==> is_task_of(h, ptls, root));
        assert(current != 0 ==> is_task_of(h, ptls, current));
        assert(next != 0 ==> is_task_of(h, ptls, next));
        assert(previous != 0 ==> is_task_of(h, ptls, previous));
        assert forall|i: int| 0 <= i < live_task_count(h, ptls) implies {
            let task = #[trigger] live_task(h, ptls, i);
            task != 0 ==> stack_scannable_within(h, task, copy_stacks, n)
        } by {
            let task = h.word(wrap(items + 8 * i));
            assert(task != 0 ==> is_task_of(h, ptls, task));
        }
    }
}

/// The tasks of a thread are listed with the root task first, then the live tasks in their order,
/// then the current, the next and the previous task, each once.
pub proof fn lemma_order_of_tasks(h: HeapView, ptls: u64, i: int)
    ensures
        ({
            let abi = h.config.abi;
            let items = h.word(wrap(ptls + abi.tls_live_tasks_items));
            let count = h.word(wrap(ptls + abi.tls_live_tasks_len));
            let tasks = thread_tasks(h, ptls);
            &&& tasks.len() == count + 4
            &&& tasks[0] == h.word(wrap(ptls + abi.tls_root_task))
            &&& 0 <= i < count ==> tasks[i + 1] == h.word(wrap(items + 8 * i))
            &&& tasks[count + 1] == h.word(wrap(ptls + abi.tls_current_task))
            &&& tasks[count + 2] == h.word(wrap(ptls + abi.tls_next_task))
            &&& tasks[count + 3] == h.word(wrap(ptls + abi.tls_previous_task))
        }),
{
}

/// Whether a function of lists goes through a list element by element, from the first to the last.
pub open spec fn goes_in_order<T>(
    f: spec_fn(Seq<u64>) -> Seq<T>,
    g: spec_fn(u64) -> Seq<T>,
) -> bool {
    &&& f(Seq::empty()) == Seq::<T>::empty()
    &&& forall|s: Seq<u64>|
        #![trigger f(s)]
        s.len() > 0 ==> f(s) == f(s.drop_last()) + g(s.last())
}

proof fn lemma_in_order<T>(
    f: spec_fn(Seq<u64>) -> Seq<T>,
    g: spec_fn(u64) -> Seq<T>,
    s: Seq<u64>,
    t: Seq<u64>,
)
    requires
        goes_in_order(f, g),
    ensures
        f(s + t) == f(s) + f(t),
    decreases t.len(),
{
    if t.len() == 0 {
        assert(t =~= Seq::<u64>::empty());
        assert(s + t =~= s);
        assert(f(s) + Seq::<T>::empty() =~= f(s));
    } else {
        assert((s + t).drop_last() =~= s + t.drop_last());
        assert((s + t).last() == t.last());
        lemma_in_order(f, g, s, t.drop_last());
        let x = f(s);
        let y = f(t.drop_last());
        let z = g(t.last());
        assert(f(s + t) == x + y + z);
        assert(x + y + z =~= x + (y + z));
    }
}

proof fn lemma_alone<T>(f: spec_fn(Seq<u64>) -> Seq<T>, g: spec_fn(u64) -> Seq<T>, a: u64)
    requires
        goes_in_order(f, g),
    ensures
        f(seq![a]) == g(a),
{
    let one = seq![a];
    assert(one.drop_last() =~= Seq::<u64>::empty());
    assert(one.last() == a);
    assert(f(one) == f(one.drop_last()) + g(a));
    assert(Seq::<T>::empty() + g(a) =~= g(a));
}

/// The stacks of tasks are scanned one after the other, in the order of the list: those of two
/// lists of tasks like those of the lists one behind the other, and that of a single task as that
/// of the task.
pub proof fn lemma_order_of_stacks(
    h: HeapView,
    s: Seq<u64>,
    t: Seq<u64>,
    task: u64,
    copy_stacks: bool,
)
    ensures
        stacks_steps(h, s + t, copy_stacks) == stacks_steps(h, s, copy_stacks) + stacks_steps(
            h,
            t,
            copy_stacks,
        ),
        task != 0 ==> stacks_steps(h, seq![task], copy_stacks) == gcstack_steps(
            h,
            task,
            copy_stacks,
        ),
        task == 0 ==> stacks_steps(h, seq![task], copy_stacks).len() == 0,
{
    let f = |x: Seq<u64>| stacks_steps(h, x, copy_stacks);
    let g = |x: u64| task_stack_steps(h, x, copy_stacks);
    assert(goes_in_order(f, g));
    lemma_in_order(f, g, s, t);
    lemma_alone(f, g, task);
    assert(f(s + t) == f(s) + f(t));
    assert(f(seq![task]) == g(task));
}

/// Threads are scanned one after the other, in the order of the list.
#[verifier::rlimit(40)]
pub proof fn lemma_order_of_threads(h: HeapView, s: Seq<u64>, t: Seq<u64>, copy_stacks: bool)
    ensures
        threads_steps(h, s + t, copy_stacks) == threads_steps(h, s, copy_stacks) + threads_steps(
            h,
            t,
            copy_stacks,
        ),
{
    let f = |x: Seq<u64>| threads_steps(h, x, copy_stacks);
    let g = |x: u64| thread_steps(h, x, copy_stacks);
    assert(goes_in_order(f, g));
    lemma_in_order(f, g, s, t);
    assert(f(s + t) == f(s) + f(t));
}

/// A single thread is scanned by the stacks of its tasks, in the order of its list of tasks.
#[verifier::rlimit(40)]
pub proof fn lemma_order_in_a_thread(h: HeapView, ptls: u64, copy_stacks: bool)
    ensures
        threads_steps(h, seq![ptls], copy_stacks) == stacks_steps(
            h,
            thread_tasks(h, ptls),
            copy_stacks,
        ),
{
    let f = |x: Seq<u64>| threads_steps(h, x, copy_stacks);
    let g = |x: u64| thread_steps(h, x, copy_stacks);
    assert(goes_in_order(f, g));
    lemma_alone(f, g, ptls);
    lemma_thread_stacks_by_task(h, ptls, copy_stacks);
    assert(f(seq![ptls]) == g(ptls));
}

/// The other roots of threads are listed thread by thread, in the order of the list.
pub proof fn lemma_order_of_thread_roots(h: HeapView, s: Seq<u64>, t: Seq<u64>, ptls: u64)
    ensures
        threads_roots(h, s + t) == threads_roots(h, s) + threads_roots(h, t),
        threads_roots(h, seq![ptls]) == thread_roots(h, ptls),
{
    let f = |x: Seq<u64>| threads_roots(h, x);
    let g = |x: u64| thread_roots(h, x);
    assert(goes_in_order(f, g));
    lemma_in_order(f, g, s, t);
    lemma_alone(f, g, ptls);
    assert(f(s + t) == f(s) + f(t));
    assert(f(seq![ptls]) == g(ptls));
}

/// The slot of a thread at an offset, as a list: empty if the field holds nothing.
pub open spec fn held_field(h: HeapView, ptls: u64, offset: u64) -> Seq<JuliaVMSlot> {
    if h.word(wrap(ptls + offset)) == 0 {
        seq![]
    } else {
        seq![simple(wrap(ptls + offset))]
    }
}

/// The roots of a thread are listed with its tasks first (root, current, next, previous), then its
/// last exception, then those of its backtrace; each once.
pub proof fn lemma_order_of_roots(h: HeapView, ptls: u64)
    ensures
        ({
            let abi = h.config.abi;
            let tasks = held_field(h, ptls, abi.tls_root_task) + held_field(
                h,
                ptls,
                abi.tls_current_task,
            ) + held_field(h, ptls, abi.tls_next_task) + held_field(h, ptls, abi.tls_previous_task);
            let exception = held_field(h, ptls, abi.tls_previous_exception);
            let data = h.word(wrap(ptls + abi.tls_bt_data));
            let size = h.word(wrap(ptls + abi.tls_bt_size));
            thread_roots(h, ptls) == tasks + exception + backtrace_roots(h, data, 0, size as int)
        }),
{
    let abi = h.config.abi;
    assert(field_root(h, ptls, abi.tls_root_task) =~= held_field(h, ptls, abi.tls_root_task));
    assert(field_root(h, ptls, abi.tls_current_task) =~= held_field(h, ptls, abi.tls_current_task));
    assert(field_root(h, ptls, abi.tls_next_task) =~= held_field(h, ptls, abi.tls_next_task));
    assert(field_root(h, ptls, abi.tls_previous_task) =~= held_field(
        h,
        ptls,
        abi.tls_previous_task,
    ));
    assert(field_root(h, ptls, abi.tls_previous_exception) =~= held_field(
        h,
        ptls,
        abi.tls_previous_exception,
    ));
}

/// A backtrace is listed entry by entry: from an index on, the references of the entry there come
/// first, in their order, and then those from the next entry on; there are none from its end on.
pub proof fn lemma_order_of_backtrace(h: HeapView, data: u64, i: int, size: int, j: int)
    ensures
        i >= size ==> backtrace_roots(h, data, i, size).len() == 0,
        ({
            let native = h.word(wrap(data + 8 * i)) != u64::MAX;
            let counts = h.word(wrap(data + 8 * i + 8));
            let references = if native {
                0
            } else {
                counts as int % 8
            };
            let next = if native {
                i + 1
            } else {
                i + 2 + counts as int % 8 + counts as int / 8 % 8
            };
            let all = backtrace_roots(h, data, i, size);
            i < size ==> {
                &&& references <= all.len()
                &&& all.skip(references) == backtrace_roots(h, data, next, size)
                &&& 0 <= j < references ==> all[j] == simple(wrap(data + 8 * i + 16 + 8 * j))
            }
        }),
{
    if i < size {
        let e = wrap(data + 8 * i);
        lemma_wrap_twice(data + 8 * i, 8);
        lemma_wrap_twice(data + 8 * i, 8 * (2 + j));
        let own = entry_roots(h, e);
        let all = backtrace_roots(h, data, i, size);
        let rest = backtrace_roots(h, data, i + bt_entry_size(h, e), size);
        assert(all == own + rest);
        assert(all.skip(own.len() as int) =~= rest);
    }
}

/// Of the roots of threads those of the stacks come first, in the order in which the scan reports
/// them, and the other roots come last.
#[verifier::rlimit(40)]
pub proof fn lemma_stack_roots_first(
    h: HeapView,
    st: ScanView,
    threads: Seq<u64>,
    copy_stacks: bool,
    slots: Seq<JuliaVMSlot>,
    more: Seq<JuliaVMSlot>,
)
    requires
        threads_scan(h, st, threads, copy_stacks).0.slots == slots + more,
    ensures
        ({
            let roots = all_roots(h, st, threads, copy_stacks);
            let others = threads_roots(h, threads);
            let n = roots.len() - others.len();
            &&& n >= 0
            &&& roots.skip(n) == others
            &&& roots.take(n) == live_ones(h, slots) + live_ones(h, more)
        }),
{
    let keep = |slot: JuliaVMSlot| holds_reference(h, slot);
    let alive = |slot: JuliaVMSlot| slot.value(h) is Some;
    assert(keep =~= alive);
    let roots = all_roots(h, st, threads, copy_stacks);
    let others = threads_roots(h, threads);
    let kept = (slots + more).filter(keep);
    Seq::filter_distributes_over_add(slots, more, keep);
    assert(roots == kept + others);
    assert(roots.skip(kept.len() as int) =~= others);
    assert(roots.take(kept.len() as int) =~= kept);
}

/// The slots of a list that hold a reference, in order.
pub open spec fn live_ones(h: HeapView, slots: Seq<JuliaVMSlot>) -> Seq<JuliaVMSlot> {
    slots.filter(|slot: JuliaVMSlot| slot.value(h) is Some)
}

/// The scan of threads takes no account of slots that were reported before: scanners that differ in
/// these alone find the same, and every slot that is found stems from a step of the stacks.
pub proof fn lemma_scan_starts_afresh(
    h: HeapView,
    st: ScanView,
    other: ScanView,
    threads: Seq<u64>,
    copy_stacks: bool,
    i: int,
)
    requires
        st.gc_epoch == other.gc_epoch,
        st.local_epoch == other.local_epoch,
        st.visited == other.visited,
        0 <= i < threads_scan(h, st, threads, copy_stacks).0.slots.len(),
    ensures
        threads_scan(h, st, threads, copy_stacks) == threads_scan(h, other, threads, copy_stacks),
        ({
            let after = threads_scan(h, st, threads, copy_stacks).0;
            stems_from_a_step(
                h,
                st,
                after,
                threads_steps(h, threads, copy_stacks),
                after.slots[i],
            )
        }),
{
    let fresh = ScanView { slots: Seq::empty(), ..st };
    let steps = threads_steps(h, threads, copy_stacks);
    lemma_walk_is_sound(h, fresh, steps);
    let after = threads_scan(h, st, threads, copy_stacks).0;
    let slot = after.slots[i];
    assert(stems_from_a_step(h, fresh, after, steps, slot));
    lemma_same_past(h, fresh, st, after, steps, slot);
}

proof fn lemma_same_past(
    h: HeapView,
    fresh: ScanView,
    st: ScanView,
    after: ScanView,
    steps: Seq<Step>,
    slot: JuliaVMSlot,
)
    requires
        fresh.gc_epoch == st.gc_epoch,
        fresh.local_epoch == st.local_epoch,
        fresh.visited == st.visited,
        stems_from_a_step(h, fresh, after, steps, slot),
    ensures
        stems_from_a_step(h, st, after, steps, slot),
{
    assert forall|b: u64| is_visited_by(fresh, after, b) == is_visited_by(st, after, b) by {}
    assert forall|x: Step| is_met(h, fresh, after, steps, x) implies #[trigger] is_met(
        h,
        st,
        after,
        steps,
        x,
    ) by {
        if !steps.contains(x) {
            let b = choose|b: u64|
                #![trigger object_steps(h, b)]
                is_visited_by(fresh, after, b) && object_steps(h, b).contains(x);
            assert(is_visited_by(st, after, b) && object_steps(h, b).contains(x));
        }
    }
    if !is_met(h, fresh, after, steps, Step::Visit(slot)) {
        let a = choose|a: u64|
            slot == #[trigger] simple(a) && is_reported(h, a) && is_met(
                h,
                fresh,
                after,
                steps,
                Step::Slot(a),
            );
        assert(is_met(h, st, after, steps, Step::Slot(a)));
    } else {
        assert(is_met(h, st, after, steps, Step::Visit(slot)));
    }
}

/// The roots that are listed for a thread are its fields that hold anything and the references of
/// its backtrace.
pub proof fn lemma_listed_roots(heap: &Heap, ptls: u64, r: Vec<JuliaVMSlot>, slot: JuliaVMSlot)
    requires
        call_ensures(list_thread_roots, (heap, ptls), r),
    ensures
        r@.contains(slot) <==> is_thread_root(heap@, ptls, slot),
{
    lemma_thread_root(heap@, ptls, slot);
}

/// Slots are kept if and only if they hold a reference.
pub proof fn lemma_kept_slots(
    heap: &Heap,
    slots: Vec<JuliaVMSlot>,
    r: Vec<JuliaVMSlot>,
    slot: JuliaVMSlot,
)
    requires
        call_ensures(live_slots, (heap, &slots), r),
    ensures
        r@.contains(slot) <==> slots@.contains(slot) && slot.value(heap@) is Some,
{
    lemma_filtered(slots@, |s: JuliaVMSlot| holds_reference(heap@, s), slot);
}

/// Slots that are parted into packets are found in them by the 4096, in order.
pub proof fn lemma_parted_roots(slots: Vec<JuliaVMSlot>, r: Vec<Vec<JuliaVMSlot>>, k: int)
    requires
        call_ensures(root_packets::<JuliaVMSlot>, (&slots,), r),
        0 <= k < slots@.len(),
    ensures
        k / 4096 < r@.len(),
        k % 4096 < r@[k / 4096]@.len(),
        r@[k / 4096]@[k % 4096] == slots@[k],
{
    lemma_packed_roots(r@, slots@, k);
}

} // verus!
