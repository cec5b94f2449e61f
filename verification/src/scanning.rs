//! Roots of threads, and the packets in which they are handed to the collector.

use crate::gcstack::{
    gcstack_steps, is_stack_scannable, push_gcstack, stack_scannable, stack_scannable_within,
};
use crate::heap::{Heap, HeapView, ObjectReference};
use crate::julia_scanning::{
    get_julia_obj_array_data, get_julia_obj_kind, is_julia_obj_array, is_julia_val_array,
    is_obj_array, is_val_array, object_kind, scan_julia_object, scan_julia_object_with_type,
    typed_object_steps, ObjectKind,
};
use crate::layouts::{
    bt_entry_size, bt_is_native, bt_jlvalue_slot, bt_num_jlvals, mmtk_jl_bt_entry_jlvalue_slot,
    mmtk_jl_bt_entry_size, mmtk_jl_bt_is_native, mmtk_jl_bt_num_jlvals,
};
use crate::memory::{offset_by, offset_words, wrap, Address};
use crate::object_steps::object_steps;
use crate::slots::{simple, JuliaMemorySlice, JuliaVMSlot, SimpleSlot};
use crate::steps::{is_foreseen, Step};
use crate::traversal::{
    lemma_reported_slots_accounted, lemma_run_concat, outcome, run, slots_accounted, ScanView,
    Scanner, UnsupportedLayout,
};
use vstd::prelude::*;

verus! {

/// The number of roots that go into one packet.
pub const CAPACITY_PER_PACKET: usize = 4096;

/// The scanner of a runtime that is bound to the collector.
pub struct VMScanning {}

/// Slots of shadow stacks that hold a reference.
pub struct GCStackSlotBuffer {
    pub buffer: Vec<JuliaVMSlot>,
}

/// Whether a slot holds a reference.
pub open spec fn holds_reference(h: HeapView, slot: JuliaVMSlot) -> bool {
    slot.value(h) is Some
}

impl GCStackSlotBuffer {
    /// Keeps a slot if it holds a reference.
    pub fn visit_slot(&mut self, heap: &Heap, slot: JuliaVMSlot)
        ensures
            final(self).buffer@ == (if holds_reference(heap@, slot) {
                old(self).buffer@.push(slot)
            } else {
                old(self).buffer@
            }),
    {
        if slot.load(heap).is_some() {
            self.buffer.push(slot);
        }
    }
}

/// Keeps the slots that hold a reference.
pub fn live_slots(heap: &Heap, slots: &Vec<JuliaVMSlot>) -> (r: Vec<JuliaVMSlot>)
    ensures
        r@ == slots@.filter(|slot: JuliaVMSlot| holds_reference(heap@, slot)),
{
    let ghost keep = |slot: JuliaVMSlot| holds_reference(heap@, slot);
    let mut gcstack_slots = GCStackSlotBuffer { buffer: Vec::new() };
    let mut i: usize = 0;
    proof {
        reveal(Seq::filter);
        assert(slots@.take(0) =~= Seq::<JuliaVMSlot>::empty());
    }
    while i < slots.len()
        invariant
            i <= slots.len(),
            keep == (|slot: JuliaVMSlot| holds_reference(heap@, slot)),
            gcstack_slots.buffer@ == slots@.take(i as int).filter(keep),
        decreases slots.len() - i,
    {
        gcstack_slots.visit_slot(heap, slots[i]);
        proof {
            let next = slots@.take(i + 1);
            assert(next.drop_last() =~= slots@.take(i as int));
            assert(next.last() == slots@[i as int]);
            reveal(Seq::filter);
        }
        i = i + 1;
    }
    assert(slots@.take(slots@.len() as int) =~= slots@);
    gcstack_slots.buffer
}

/// The steps for the shadow stack of a task; none for no task.
pub open spec fn task_stack_steps(h: HeapView, task: u64, copy_stacks: bool) -> Seq<Step> {
    if task == 0 {
        Seq::empty()
    } else {
        gcstack_steps(h, task, copy_stacks)
    }
}

/// Whether the shadow stack of a task can be scanned; no task is no obstacle.
pub open spec fn task_scannable(h: HeapView, task: u64, copy_stacks: bool) -> bool {
    task != 0 ==> stack_scannable(h, task, copy_stacks)
}

/// The `i`-th live task of a thread.
pub open spec fn live_task(h: HeapView, ptls: u64, i: int) -> u64 {
    h.word(wrap(h.field(ptls, h.config.abi.tls_live_tasks_items) + 8 * i))
}

/// The steps for the shadow stacks of the first `n` live tasks of a thread.
pub open spec fn live_task_steps(h: HeapView, ptls: u64, n: nat, copy_stacks: bool) -> Seq<Step>
    decreases n,
{
    if n == 0 {
        Seq::empty()
    } else {
        live_task_steps(h, ptls, (n - 1) as nat, copy_stacks) + task_stack_steps(
            h,
            live_task(h, ptls, n - 1),
            copy_stacks,
        )
    }
}

/// The number of live tasks of a thread.
pub open spec fn live_task_count(h: HeapView, ptls: u64) -> u64 {
    h.field(ptls, h.config.abi.tls_live_tasks_len)
}

/// The steps for the shadow stacks of a thread: those of its root task, its live tasks, and its
/// current, next and previous task.
pub open spec fn thread_steps(h: HeapView, ptls: u64, copy_stacks: bool) -> Seq<Step> {
    let abi = h.config.abi;
    task_stack_steps(h, h.field(ptls, abi.tls_root_task), copy_stacks) + live_task_steps(
        h,
        ptls,
        live_task_count(h, ptls) as nat,
        copy_stacks,
    ) + task_stack_steps(h, h.field(ptls, abi.tls_current_task), copy_stacks) + task_stack_steps(
        h,
        h.field(ptls, abi.tls_next_task),
        copy_stacks,
    ) + task_stack_steps(h, h.field(ptls, abi.tls_previous_task), copy_stacks)
}

/// The tasks of a thread, in the order in which their stacks are scanned. Zero stands for no task.
pub open spec fn thread_tasks(h: HeapView, ptls: u64) -> Seq<u64> {
    let abi = h.config.abi;
    seq![h.field(ptls, abi.tls_root_task)] + Seq::new(
        live_task_count(h, ptls) as nat,
        |i: int| live_task(h, ptls, i),
    ) + seq![
        h.field(ptls, abi.tls_current_task),
        h.field(ptls, abi.tls_next_task),
        h.field(ptls, abi.tls_previous_task),
    ]
}

/// The steps for the shadow stacks of tasks.
pub open spec fn stacks_steps(h: HeapView, tasks: Seq<u64>, copy_stacks: bool) -> Seq<Step>
    decreases tasks.len(),
{
    if tasks.len() == 0 {
        Seq::empty()
    } else {
        stacks_steps(h, tasks.drop_last(), copy_stacks) + task_stack_steps(
            h,
            tasks.last(),
            copy_stacks,
        )
    }
}

proof fn lemma_live_stacks(h: HeapView, ptls: u64, n: nat, copy_stacks: bool)
    requires
        n <= live_task_count(h, ptls),
    ensures
        stacks_steps(h, thread_tasks(h, ptls).take(n as int + 1), copy_stacks) == task_stack_steps(
            h,
            h.field(ptls, h.config.abi.tls_root_task),
            copy_stacks,
        ) + live_task_steps(h, ptls, n, copy_stacks),
    decreases n,
{
    let tasks = thread_tasks(h, ptls).take(n as int + 1);
    let root = task_stack_steps(h, h.field(ptls, h.config.abi.tls_root_task), copy_stacks);
    if n == 0 {
        assert(tasks.drop_last() =~= Seq::<u64>::empty());
        assert(stacks_steps(h, tasks.drop_last(), copy_stacks) =~= Seq::<Step>::empty());
        assert(Seq::<Step>::empty() + root =~= root + Seq::<Step>::empty());
    } else {
        lemma_live_stacks(h, ptls, (n - 1) as nat, copy_stacks);
        assert(tasks.drop_last() =~= thread_tasks(h, ptls).take(n as int));
        assert(tasks.last() == live_task(h, ptls, n - 1));
        let before = live_task_steps(h, ptls, (n - 1) as nat, copy_stacks);
        let last = task_stack_steps(h, tasks.last(), copy_stacks);
        assert(root + before + last =~= root + (before + last));
    }
}

proof fn lemma_stacks_push(h: HeapView, tasks: Seq<u64>, task: u64, copy_stacks: bool)
    ensures
        stacks_steps(h, tasks.push(task), copy_stacks) == stacks_steps(h, tasks, copy_stacks)
            + task_stack_steps(h, task, copy_stacks),
{
    assert(tasks.push(task).drop_last() =~= tasks);
}

/// The scan of the stacks of a thread is the scan of the stacks of its tasks, one after the other.
pub proof fn lemma_thread_stacks_by_task(h: HeapView, ptls: u64, copy_stacks: bool)
    ensures
        thread_steps(h, ptls, copy_stacks) == stacks_steps(h, thread_tasks(h, ptls), copy_stacks),
{
    let abi = h.config.abi;
    let base = thread_tasks(h, ptls).take(live_task_count(h, ptls) + 1);
    let current = h.field(ptls, abi.tls_current_task);
    let next = h.field(ptls, abi.tls_next_task);
    let previous = h.field(ptls, abi.tls_previous_task);
    assert(thread_tasks(h, ptls) =~= base.push(current).push(next).push(previous));
    lemma_live_stacks(h, ptls, live_task_count(h, ptls) as nat, copy_stacks);
    lemma_stacks_push(h, base, current, copy_stacks);
    lemma_stacks_push(h, base.push(current), next, copy_stacks);
    lemma_stacks_push(h, base.push(current).push(next), previous, copy_stacks);
}

/// Lists the tasks of a thread, in the order in which their stacks are scanned.
pub fn list_thread_tasks(heap: &Heap, ptls: Address) -> (r: Vec<Address>)
    ensures
        r@ == thread_tasks(heap@, ptls),
{
    let abi = heap.config.abi;
    let count: u64 = heap.load_field(ptls, abi.tls_live_tasks_len);
    let items: u64 = heap.load_field(ptls, abi.tls_live_tasks_items);
    let mut tasks: Vec<Address> = Vec::new();
    tasks.push(heap.load_field(ptls, abi.tls_root_task));
    let ghost h = heap@;
    let mut i: u64 = 0;
    while i < count
        invariant
            i <= count,
            h == heap@,
            count == live_task_count(h, ptls),
            items == h.field(ptls, h.config.abi.tls_live_tasks_items),
            tasks@ =~= thread_tasks(h, ptls).take(i + 1),
        decreases count - i,
    {
        let task: u64 = heap.load_u64(offset_words(items, i));
        assert(task == live_task(h, ptls, i as int));
        tasks.push(task);
        i = i + 1;
    }
    tasks.push(heap.load_field(ptls, abi.tls_current_task));
    tasks.push(heap.load_field(ptls, abi.tls_next_task));
    tasks.push(heap.load_field(ptls, abi.tls_previous_task));
    assert(tasks@ =~= thread_tasks(h, ptls));
    tasks
}

/// Whether the shadow stacks of a thread can be scanned.
pub open spec fn thread_scannable(h: HeapView, ptls: u64, copy_stacks: bool) -> bool {
    let abi = h.config.abi;
    &&& task_scannable(h, h.field(ptls, abi.tls_root_task), copy_stacks)
    &&& forall|i: int|
        0 <= i < live_task_count(h, ptls) ==> task_scannable(
            h,
            #[trigger] live_task(h, ptls, i),
            copy_stacks,
        )
    &&& task_scannable(h, h.field(ptls, abi.tls_current_task), copy_stacks)
    &&& task_scannable(h, h.field(ptls, abi.tls_next_task), copy_stacks)
    &&& task_scannable(h, h.field(ptls, abi.tls_previous_task), copy_stacks)
}

/// Tests whether the shadow stack of a task, if there is one, can be scanned and has at most a
/// number of frames.
fn is_task_scannable(heap: &Heap, task: Address, copy_stacks: bool, max_frames: u64) -> (r: bool)
    ensures
        r == (task != 0 ==> stack_scannable_within(heap@, task, copy_stacks, max_frames as nat)),
        r ==> task_scannable(heap@, task, copy_stacks),
{
    task == 0 || is_stack_scannable(heap, task, copy_stacks, max_frames)
}

/// Whether the shadow stacks of a thread can be scanned and have at most `n` frames each.
pub open spec fn thread_scannable_within(
    h: HeapView,
    ptls: u64,
    copy_stacks: bool,
    n: nat,
) -> bool {
    let abi = h.config.abi;
    let fine = |task: u64| task != 0 ==> stack_scannable_within(h, task, copy_stacks, n);
    &&& fine(h.field(ptls, abi.tls_root_task))
    &&& forall|i: int|
        0 <= i < live_task_count(h, ptls) ==> fine(#[trigger] live_task(h, ptls, i))
    &&& fine(h.field(ptls, abi.tls_current_task))
    &&& fine(h.field(ptls, abi.tls_next_task))
    &&& fine(h.field(ptls, abi.tls_previous_task))
}

/// Tests whether the shadow stacks of a thread can be scanned and have at most a number of frames
/// each.
pub fn is_thread_scannable(
    heap: &Heap,
    ptls: Address,
    copy_stacks: bool,
    max_frames: u64,
) -> (r: bool)
    ensures
        r == thread_scannable_within(heap@, ptls, copy_stacks, max_frames as nat),
        r ==> thread_scannable(heap@, ptls, copy_stacks),
{
    let abi = heap.config.abi;
    let count: u64 = heap.load_field(ptls, abi.tls_live_tasks_len);
    let items: u64 = heap.load_field(ptls, abi.tls_live_tasks_items);
    let ghost h = heap@;
    let mut i: u64 = 0;
    while i < count
        invariant
            i <= count,
            h == heap@,
            count == live_task_count(h, ptls),
            items == h.field(ptls, h.config.abi.tls_live_tasks_items),
            forall|j: int|
                0 <= j < i ==> {
                    let task = #[trigger] live_task(h, ptls, j);
                    &&& task != 0 ==> stack_scannable_within(
                        h,
                        task,
                        copy_stacks,
                        max_frames as nat,
                    )
                    &&& task_scannable(h, task, copy_stacks)
                },
        decreases count - i,
    {
        let task: u64 = heap.load_u64(offset_words(items, i));
        assert(task == live_task(h, ptls, i as int));
        if !is_task_scannable(heap, task, copy_stacks, max_frames) {
            return false;
        }
        i = i + 1;
    }
    is_task_scannable(heap, heap.load_field(ptls, abi.tls_root_task), copy_stacks, max_frames)
        && is_task_scannable(
        heap,
        heap.load_field(ptls, abi.tls_current_task),
        copy_stacks,
        max_frames,
    ) && is_task_scannable(
        heap,
        heap.load_field(ptls, abi.tls_next_task),
        copy_stacks,
        max_frames,
    ) && is_task_scannable(
        heap,
        heap.load_field(ptls, abi.tls_previous_task),
        copy_stacks,
        max_frames,
    )
}

/// The field of a thread as a root, if it holds anything.
pub open spec fn field_root(h: HeapView, ptls: u64, offset: u64) -> Seq<JuliaVMSlot> {
    if h.field(ptls, offset) != 0 {
        seq![simple(wrap(ptls + offset))]
    } else {
        Seq::empty()
    }
}

/// The references of a backtrace entry, as roots.
pub open spec fn entry_roots(h: HeapView, e: u64) -> Seq<JuliaVMSlot> {
    if bt_is_native(h, e) {
        Seq::empty()
    } else {
        Seq::new(bt_num_jlvals(h, e) as nat, |j: int| simple(bt_jlvalue_slot(e, j)))
    }
}

/// The references in the backtrace buffer from its `i`-th word on, as roots.
pub open spec fn backtrace_roots(h: HeapView, data: u64, i: int, size: int) -> Seq<JuliaVMSlot>
    decreases (if i < size { size - i } else { 0 }),
{
    let e = wrap(data + 8 * i);
    if i >= size {
        Seq::empty()
    } else {
        entry_roots(h, e) + backtrace_roots(h, data, i + bt_entry_size(h, e), size)
    }
}

/// The roots of a thread besides its shadow stacks: the fields that hold its tasks and its last
/// exception, and the references in its backtrace buffer.
pub open spec fn thread_roots(h: HeapView, ptls: u64) -> Seq<JuliaVMSlot> {
    let abi = h.config.abi;
    field_root(h, ptls, abi.tls_root_task) + field_root(h, ptls, abi.tls_current_task)
        + field_root(h, ptls, abi.tls_next_task) + field_root(h, ptls, abi.tls_previous_task)
        + field_root(h, ptls, abi.tls_previous_exception) + backtrace_roots(
        h,
        h.field(ptls, abi.tls_bt_data),
        0,
        h.field(ptls, abi.tls_bt_size) as int,
    )
}

/// Appends the steps for the shadow stack of a task.
fn push_task_stack(heap: &Heap, steps: &mut Vec<Step>, task: Address, copy_stacks: bool)
    requires
        task_scannable(heap@, task, copy_stacks),
    ensures
        final(steps)@ == old(steps)@ + task_stack_steps(heap@, task, copy_stacks),
{
    if task != 0 {
        push_gcstack(heap, steps, task, copy_stacks);
    } else {
        assert(old(steps)@ + Seq::<Step>::empty() =~= old(steps)@);
    }
}

/// Appends the steps for the shadow stacks of the live tasks of a thread.
fn push_live_tasks(heap: &Heap, steps: &mut Vec<Step>, ptls: Address, copy_stacks: bool)
    requires
        thread_scannable(heap@, ptls, copy_stacks),
    ensures
        final(steps)@ == old(steps)@ + live_task_steps(
            heap@,
            ptls,
            live_task_count(heap@, ptls) as nat,
            copy_stacks,
        ),
{
    let count: u64 = heap.load_field(ptls, heap.config.abi.tls_live_tasks_len);
    let items: u64 = heap.load_field(ptls, heap.config.abi.tls_live_tasks_items);
    let mut i: u64 = 0;
    proof {
        assert(old(steps)@ + Seq::<Step>::empty() =~= old(steps)@);
    }
    while i < count
        invariant
            i <= count,
            count == live_task_count(heap@, ptls),
            items == heap@.field(ptls, heap@.config.abi.tls_live_tasks_items),
            thread_scannable(heap@, ptls, copy_stacks),
            steps@ == old(steps)@ + live_task_steps(heap@, ptls, i as nat, copy_stacks),
        decreases count - i,
    {
        let task: u64 = heap.load_u64(offset_words(items, i));
        assert(task == live_task(heap@, ptls, i as int));
        let ghost before = live_task_steps(heap@, ptls, i as nat, copy_stacks);
        push_task_stack(heap, steps, task, copy_stacks);
        proof {
            let one = task_stack_steps(heap@, task, copy_stacks);
            assert(old(steps)@ + before + one =~= old(steps)@ + (before + one));
        }
        i = i + 1;
    }
}

/// Lists the steps for the shadow stacks of a thread.
pub fn list_thread_steps(heap: &Heap, ptls: Address, copy_stacks: bool) -> (r: Vec<Step>)
    requires
        thread_scannable(heap@, ptls, copy_stacks),
    ensures
        r@ == thread_steps(heap@, ptls, copy_stacks),
{
    let abi = heap.config.abi;
    let mut steps: Vec<Step> = Vec::new();
    push_task_stack(heap, &mut steps, heap.load_field(ptls, abi.tls_root_task), copy_stacks);
    push_live_tasks(heap, &mut steps, ptls, copy_stacks);
    push_task_stack(heap, &mut steps, heap.load_field(ptls, abi.tls_current_task), copy_stacks);
    push_task_stack(heap, &mut steps, heap.load_field(ptls, abi.tls_next_task), copy_stacks);
    push_task_stack(heap, &mut steps, heap.load_field(ptls, abi.tls_previous_task), copy_stacks);
    assert(steps@ =~= thread_steps(heap@, ptls, copy_stacks));
    steps
}

/// Appends the field of a thread as a root, if it holds anything.
fn push_field_root(heap: &Heap, roots: &mut Vec<JuliaVMSlot>, ptls: Address, offset: u64)
    ensures
        final(roots)@ == old(roots)@ + field_root(heap@, ptls, offset),
{
    if heap.load_field(ptls, offset) != 0 {
        let slot_addr: u64 = offset_by(ptls, offset);
        roots.push(JuliaVMSlot::Simple(SimpleSlot::from_address(slot_addr)));
    }
    assert(roots@ =~= old(roots)@ + field_root(heap@, ptls, offset));
}

/// Appends the references of a backtrace entry.
fn push_entry_roots(heap: &Heap, roots: &mut Vec<JuliaVMSlot>, e: Address)
    ensures
        final(roots)@ == old(roots)@ + entry_roots(heap@, e),
{
    if mmtk_jl_bt_is_native(heap, e) {
        assert(old(roots)@ + Seq::<JuliaVMSlot>::empty() =~= old(roots)@);
        return;
    }
    let njlvals: u64 = mmtk_jl_bt_num_jlvals(heap, e);
    let ghost all = entry_roots(heap@, e);
    let mut j: u64 = 0;
    assert(all.take(0) =~= Seq::<JuliaVMSlot>::empty());
    while j < njlvals
        invariant
            j <= njlvals,
            all.len() == njlvals,
            forall|k: int| 0 <= k < njlvals ==> all[k] == simple(bt_jlvalue_slot(e, k)),
            roots@ == old(roots)@ + all.take(j as int),
        decreases njlvals - j,
    {
        let slot_addr: u64 = mmtk_jl_bt_entry_jlvalue_slot(e, j);
        roots.push(JuliaVMSlot::Simple(SimpleSlot::from_address(slot_addr)));
        assert(all.take(j + 1) =~= all.take(j as int).push(all[j as int]));
        j = j + 1;
    }
    assert(all.take(all.len() as int) =~= all);
}

/// Appends the references in the backtrace buffer of a thread.
fn push_backtrace_roots(heap: &Heap, roots: &mut Vec<JuliaVMSlot>, data: Address, size: u64)
    ensures
        final(roots)@ == old(roots)@ + backtrace_roots(heap@, data, 0, size as int),
{
    let ghost h = heap@;
    let ghost all = backtrace_roots(h, data, 0, size as int);
    let mut i: u64 = 0;
    let ghost mut at: int = 0;
    while i < size
        invariant
            h == heap@,
            at == i || (at >= size && i >= size),
            old(roots)@ + all == roots@ + backtrace_roots(h, data, at, size as int),
        decreases (if i < size { size - i } else { 0 }),
    {
        let e: u64 = offset_words(data, i);
        let ghost before = roots@;
        push_entry_roots(heap, roots, e);
        let step: u64 = mmtk_jl_bt_entry_size(heap, e);
        proof {
            let rest = backtrace_roots(h, data, at + step, size as int);
            assert(before + (entry_roots(h, e) + rest) =~= roots@ + rest);
            at = at + step;
        }
        i = i.saturating_add(step);
    }
    proof {
        assert(roots@ + Seq::<JuliaVMSlot>::empty() =~= roots@);
    }
}

/// Lists the roots of a thread besides its shadow stacks.
pub fn list_thread_roots(heap: &Heap, ptls: Address) -> (r: Vec<JuliaVMSlot>)
    ensures
        r@ == thread_roots(heap@, ptls),
{
    let abi = heap.config.abi;
    let mut roots: Vec<JuliaVMSlot> = Vec::new();
    push_field_root(heap, &mut roots, ptls, abi.tls_root_task);
    push_field_root(heap, &mut roots, ptls, abi.tls_current_task);
    push_field_root(heap, &mut roots, ptls, abi.tls_next_task);
    push_field_root(heap, &mut roots, ptls, abi.tls_previous_task);
    push_field_root(heap, &mut roots, ptls, abi.tls_previous_exception);
    let size: u64 = heap.load_field(ptls, abi.tls_bt_size);
    push_backtrace_roots(heap, &mut roots, heap.load_field(ptls, abi.tls_bt_data), size);
    assert(roots@ =~= thread_roots(heap@, ptls));
    roots
}

/// Scans a thread: the slots of its shadow stacks go to the scanner, its other roots to the list.
pub fn scan_ptls_roots(
    heap: &Heap,
    ptls: Address,
    root_slots: &mut Vec<JuliaVMSlot>,
    scanner: &mut Scanner,
    copy_stacks: bool,
) -> (r: Result<(), UnsupportedLayout>)
    requires
        heap@.wf(),
        thread_scannable(heap@, ptls, copy_stacks),
    ensures
        outcome(
            r,
            final(scanner)@,
            run(heap@, old(scanner)@, thread_steps(heap@, ptls, copy_stacks)),
        ),
        final(root_slots)@ == old(root_slots)@ + (if r is Ok {
            thread_roots(heap@, ptls)
        } else {
            Seq::empty()
        }),
{
    let steps: Vec<Step> = list_thread_steps(heap, ptls, copy_stacks);
    match scanner.run_steps(heap, &steps) {
        Err(e) => {
            assert(old(root_slots)@ + Seq::<JuliaVMSlot>::empty() =~= old(root_slots)@);
            Err(e)
        },
        Ok(()) => {
            let mut roots: Vec<JuliaVMSlot> = list_thread_roots(heap, ptls);
            root_slots.append(&mut roots);
            Ok(())
        },
    }
}

/// The steps for the shadow stacks of several threads, one thread after the other.
pub open spec fn threads_steps(h: HeapView, threads: Seq<u64>, copy_stacks: bool) -> Seq<Step>
    decreases threads.len(),
{
    if threads.len() == 0 {
        Seq::empty()
    } else {
        threads_steps(h, threads.drop_last(), copy_stacks) + thread_steps(
            h,
            threads.last(),
            copy_stacks,
        )
    }
}

/// The roots of several threads besides their shadow stacks.
pub open spec fn threads_roots(h: HeapView, threads: Seq<u64>) -> Seq<JuliaVMSlot>
    decreases threads.len(),
{
    if threads.len() == 0 {
        Seq::empty()
    } else {
        threads_roots(h, threads.drop_last()) + thread_roots(h, threads.last())
    }
}

/// The scan of the shadow stacks of several threads by a scanner that has reported nothing yet.
pub open spec fn threads_scan(
    h: HeapView,
    st: ScanView,
    threads: Seq<u64>,
    copy_stacks: bool,
) -> (ScanView, bool) {
    run(h, ScanView { slots: Seq::empty(), ..st }, threads_steps(h, threads, copy_stacks))
}

/// The roots of several threads: the slots of their shadow stacks that hold a reference, and
/// after them their other roots.
pub open spec fn all_roots(
    h: HeapView,
    st: ScanView,
    threads: Seq<u64>,
    copy_stacks: bool,
) -> Seq<JuliaVMSlot> {
    threads_scan(h, st, threads, copy_stacks).0.slots.filter(
        |slot: JuliaVMSlot| holds_reference(h, slot),
    ) + threads_roots(h, threads)
}

/// The number of packets that a number of roots fills.
pub open spec fn packet_count(n: int) -> int {
    (n + CAPACITY_PER_PACKET - 1) / CAPACITY_PER_PACKET as int
}

/// The `i`-th packet of a list of roots: the next roots, up to the capacity of a packet.
pub open spec fn packet<T>(slots: Seq<T>, i: int) -> Seq<T> {
    let begin = i * CAPACITY_PER_PACKET;
    let end = begin + CAPACITY_PER_PACKET;
    slots.subrange(begin, if end <= slots.len() { end } else { slots.len() as int })
}

/// Whether the packets hold the roots, in order and each packet but the last one full.
pub open spec fn packs<T>(packets: Seq<Vec<T>>, slots: Seq<T>) -> bool {
    &&& packets.len() == packet_count(slots.len() as int)
    &&& forall|i: int| 0 <= i < packets.len() ==> (#[trigger] packets[i])@ == packet(slots, i)
}

/// All roots in a list of packets, in order.
pub open spec fn unpacked<T>(packets: Seq<Vec<T>>) -> Seq<T>
    decreases packets.len(),
{
    if packets.len() == 0 {
        Seq::empty()
    } else {
        unpacked(packets.drop_last()) + packets.last()@
    }
}

/// The first packets hold the first roots.
proof fn lemma_unpacked_prefix<T>(packets: Seq<Vec<T>>, slots: Seq<T>, n: int)
    requires
        packs(packets, slots),
        0 <= n <= packets.len(),
    ensures
        unpacked(packets.take(n)) == slots.take(
            if n * CAPACITY_PER_PACKET <= slots.len() {
                n * CAPACITY_PER_PACKET
            } else {
                slots.len() as int
            },
        ),
    decreases n,
{
    if n == 0 {
        assert(slots.take(0) =~= Seq::<T>::empty());
    } else {
        lemma_unpacked_prefix(packets, slots, n - 1);
        assert(packets.take(n).drop_last() =~= packets.take(n - 1));
        assert(packets.take(n).last() == packets[n - 1]);
        let begin = (n - 1) * CAPACITY_PER_PACKET;
        assert(begin < slots.len());
        assert(slots.take(begin) + packet(slots, n - 1) =~= slots.take(
            if n * CAPACITY_PER_PACKET <= slots.len() {
                n * CAPACITY_PER_PACKET
            } else {
                slots.len() as int
            },
        ));
    }
}

/// Packing loses no root and keeps their order.
pub proof fn lemma_packets_hold_all_roots<T>(packets: Seq<Vec<T>>, slots: Seq<T>)
    requires
        packs(packets, slots),
    ensures
        unpacked(packets) == slots,
{
    lemma_unpacked_prefix(packets, slots, packets.len() as int);
    assert(packets.take(packets.len() as int) =~= packets);
    assert(slots.take(slots.len() as int) =~= slots);
}

/// Parts a list of roots into packets.
pub fn root_packets<T: Copy>(slots: &Vec<T>) -> (r: Vec<Vec<T>>)
    ensures
        packs(r@, slots@),
{
    let total: usize = slots.len();
    let mut packets: Vec<Vec<T>> = Vec::new();
    let mut begin: usize = 0;
    while begin < total
        invariant
            total == slots@.len(),
            begin <= total,
            begin == packets@.len() * CAPACITY_PER_PACKET || begin == total,
            packets@.len() == packet_count(begin as int),
            forall|i: int|
                0 <= i < packets.len() ==> (#[trigger] packets@[i])@ == packet(slots@, i),
        decreases total - begin,
    {
        let left: usize = total - begin;
        let size: usize = if left < CAPACITY_PER_PACKET {
            left
        } else {
            CAPACITY_PER_PACKET
        };
        let mut one: Vec<T> = Vec::new();
        let mut j: usize = 0;
        while j < size
            invariant
                j <= size,
                begin + size <= total,
                total == slots@.len(),
                one@ =~= slots@.subrange(begin as int, begin + j),
            decreases size - j,
        {
            one.push(slots[begin + j]);
            j = j + 1;
        }
        let ghost before = packets@;
        packets.push(one);
        proof {
            assert(packets@ =~= before.push(one));
            assert(one@ =~= packet(slots@, before.len() as int));
        }
        begin = begin + size;
    }
    packets
}

impl VMScanning {
    /// Lists the roots of several threads, in packets. What the scanner had reported before stays
    /// reported.
    pub fn scan_multiple_thread_root(
        heap: &Heap,
        mutators: &Vec<Address>,
        scanner: &mut Scanner,
        copy_stacks: bool,
    ) -> (r: Result<Vec<Vec<JuliaVMSlot>>, UnsupportedLayout>)
        requires
            heap@.wf(),
            forall|i: int|
                0 <= i < mutators.len() ==> thread_scannable(
                    heap@,
                    #[trigger] mutators@[i],
                    copy_stacks,
                ),
        ensures
            r is Ok == threads_scan(heap@, old(scanner)@, mutators@, copy_stacks).1,
            r matches Ok(packets) ==> packs(
                packets@,
                all_roots(heap@, old(scanner)@, mutators@, copy_stacks),
            ),
            final(scanner)@ == (ScanView {
                slots: old(scanner)@.slots,
                ..threads_scan(heap@, old(scanner)@, mutators@, copy_stacks).0
            }),
    {
        let ghost h = heap@;
        let reported: Vec<JuliaVMSlot> = scanner.take_slots();
        let ghost st = scanner@;
        let mut root_slots: Vec<JuliaVMSlot> = Vec::new();
        let mut i: usize = 0;
        assert(mutators@.take(0) =~= Seq::<u64>::empty());
        while i < mutators.len()
            invariant
                i <= mutators.len(),
                h == heap@,
                heap@.wf(),
                st == (ScanView { slots: Seq::empty(), ..old(scanner)@ }),
                forall|j: int|
                    0 <= j < mutators.len() ==> thread_scannable(
                        heap@,
                        #[trigger] mutators@[j],
                        copy_stacks,
                    ),
                reported@ == old(scanner)@.slots,
                run(h, st, threads_steps(h, mutators@.take(i as int), copy_stacks)) == (
                    scanner@,
                    true,
                ),
                root_slots@ == threads_roots(h, mutators@.take(i as int)),
            decreases mutators.len() - i,
        {
            let ghost before = scanner@;
            let done = scan_ptls_roots(heap, mutators[i], &mut root_slots, scanner, copy_stacks);
            proof {
                let upto = mutators@.take(i + 1);
                assert(upto.drop_last() =~= mutators@.take(i as int));
                let first = threads_steps(h, mutators@.take(i as int), copy_stacks);
                let second = thread_steps(h, mutators@[i as int], copy_stacks);
                lemma_run_concat(h, st, first, second);
            }
            if let Err(e) = done {
                proof {
                    lemma_threads_stop(h, st, mutators@, i + 1, copy_stacks);
                }
                scanner.slots = reported;
                return Err(e);
            }
            i = i + 1;
        }
        assert(mutators@.take(mutators@.len() as int) =~= mutators@);
        let gcstack_slots: Vec<JuliaVMSlot> = scanner.take_slots();
        let mut all_slots: Vec<JuliaVMSlot> = live_slots(heap, &gcstack_slots);
        all_slots.append(&mut root_slots);
        scanner.slots = reported;
        Ok(root_packets(&all_slots))
    }

    /// Lists the roots of one thread, in packets.
    pub fn scan_roots_in_mutator_thread(
        heap: &Heap,
        mutator: Address,
        scanner: &mut Scanner,
        copy_stacks: bool,
    ) -> (r: Result<Vec<Vec<JuliaVMSlot>>, UnsupportedLayout>)
        requires
            heap@.wf(),
            thread_scannable(heap@, mutator, copy_stacks),
        ensures
            r is Ok == threads_scan(heap@, old(scanner)@, seq![mutator], copy_stacks).1,
            r matches Ok(packets) ==> packs(
                packets@,
                all_roots(heap@, old(scanner)@, seq![mutator], copy_stacks),
            ),
            final(scanner)@ == (ScanView {
                slots: old(scanner)@.slots,
                ..threads_scan(heap@, old(scanner)@, seq![mutator], copy_stacks).0
            }),
    {
        let mut mutators: Vec<Address> = Vec::new();
        mutators.push(mutator);
        assert(mutators@ =~= seq![mutator]);
        VMScanning::scan_multiple_thread_root(heap, &mutators, scanner, copy_stacks)
    }
}

impl VMScanning {
    /// Scans an object.
    pub fn scan_object(heap: &Heap, object: ObjectReference, scanner: &mut Scanner) -> (r: Result<
        (),
        UnsupportedLayout,
    >)
        requires
            heap@.wf(),
        ensures
            outcome(r, final(scanner)@, run(heap@, old(scanner)@, object_steps(heap@, object.raw))),
    {
        process_object(heap, object, scanner)
    }

    /// Scans an object whose type is known already.
    pub fn scan_object_with_klass(
        heap: &Heap,
        object: ObjectReference,
        scanner: &mut Scanner,
        klass: Address,
    ) -> (r: Result<(), UnsupportedLayout>)
        requires
            heap@.wf(),
        ensures
            outcome(
                r,
                final(scanner)@,
                run(heap@, old(scanner)@, typed_object_steps(heap@, object.raw, klass)),
            ),
    {
        scan_julia_object_with_type(heap, object.to_raw_address(), scanner, klass)
    }

    /// Classifies an object for chunked scanning.
    pub fn get_obj_kind(heap: &Heap, object: ObjectReference) -> (r: ObjectKind)
        requires
            heap@.wf(),
        ensures
            r == object_kind(heap@, object.raw),
    {
        get_julia_obj_kind(heap, object)
    }

    /// Tests whether an object is a generic memory whose elements are references.
    pub fn is_obj_array(heap: &Heap, object: ObjectReference) -> (r: bool)
        requires
            heap@.wf(),
        ensures
            r == is_obj_array(heap@, object.raw),
    {
        is_julia_obj_array(heap, object)
    }

    /// Tests whether an object is a generic memory without references.
    pub fn is_val_array(heap: &Heap, object: ObjectReference) -> (r: bool)
        requires
            heap@.wf(),
        ensures
            r == is_val_array(heap@, object.raw),
    {
        is_julia_val_array(heap, object)
    }

    /// The references of a generic memory.
    pub fn obj_array_data(heap: &Heap, object: ObjectReference) -> (r: JuliaMemorySlice)
        ensures
            r.owner == object,
            r.start == heap@.field(object.raw, heap@.config.abi.genericmemory_ptr),
            r.count == heap@.field(object.raw, heap@.config.abi.genericmemory_length),
    {
        get_julia_obj_array_data(heap, object)
    }
}

/// Scans an object.
pub fn process_object(heap: &Heap, object: ObjectReference, scanner: &mut Scanner) -> (r: Result<
    (),
    UnsupportedLayout,
>)
    requires
        heap@.wf(),
    ensures
        outcome(r, final(scanner)@, run(heap@, old(scanner)@, object_steps(heap@, object.raw))),
{
    scan_julia_object(heap, object.to_raw_address(), scanner)
}

/// A scan that stops in one thread stops in the whole list.
proof fn lemma_threads_stop(
    h: HeapView,
    st: ScanView,
    threads: Seq<u64>,
    n: int,
    copy_stacks: bool,
)
    requires
        0 <= n <= threads.len(),
        !run(h, st, threads_steps(h, threads.take(n), copy_stacks)).1,
    ensures
        run(h, st, threads_steps(h, threads, copy_stacks)) == run(
            h,
            st,
            threads_steps(h, threads.take(n), copy_stacks),
        ),
    decreases threads.len() - n,
{
    if n < threads.len() {
        let first = threads_steps(h, threads.take(n), copy_stacks);
        let second = thread_steps(h, threads[n], copy_stacks);
        assert(threads.take(n + 1).drop_last() =~= threads.take(n));
        lemma_run_concat(h, st, first, second);
        lemma_threads_stop(h, st, threads, n + 1, copy_stacks);
    } else {
        assert(threads.take(n) =~= threads);
    }
}

/// The slots that the scan of the shadow stacks of threads reports outright: the roots of frames.
pub open spec fn stack_root_slots(
    h: HeapView,
    threads: Seq<u64>,
    copy_stacks: bool,
) -> Set<JuliaVMSlot> {
    Set::new(
        |slot: JuliaVMSlot| threads_steps(h, threads, copy_stacks).contains(Step::Visit(slot)),
    )
}

/// The scan of the shadow stacks of threads reports the root slots of their frames, wherever these
/// lie. Any other plain slot that it reports lies in the main or in the large-object space.
pub proof fn lemma_threads_scan_accounted(
    h: HeapView,
    st: ScanView,
    threads: Seq<u64>,
    copy_stacks: bool,
)
    ensures
        slots_accounted(
            h,
            threads_scan(h, st, threads, copy_stacks).0.slots,
            0,
            stack_root_slots(h, threads, copy_stacks),
        ),
{
    let fresh = ScanView { slots: Seq::empty(), ..st };
    let steps = threads_steps(h, threads, copy_stacks);
    let outright = stack_root_slots(h, threads, copy_stacks);
    assert forall|i: int| 0 <= i < steps.len() implies is_foreseen(#[trigger] steps[i], outright) by {
        if let Step::Visit(slot) = steps[i] {
            assert(steps.contains(Step::Visit(slot)));
        }
    }
    lemma_reported_slots_accounted(h, fresh, steps, outright);
}

/// The packet of work that sweeps what the runtime itself has allocated.
pub struct SweepVMSpecific {
    pub swept: bool,
}

impl SweepVMSpecific {
    pub fn new() -> (r: SweepVMSpecific)
        ensures
            !r.swept,
    {
        SweepVMSpecific { swept: false }
    }

    /// Notes that the runtime has swept.
    pub fn finish(&mut self)
        ensures
            final(self).swept,
    {
        self.swept = true;
    }
}

impl Default for SweepVMSpecific {
    fn default() -> (r: SweepVMSpecific)
        ensures
            !r.swept,
    {
        SweepVMSpecific::new()
    }
}

} // verus!
