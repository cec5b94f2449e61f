//! The walk over the objects outside the moving spaces.
//!
//! A slot in the main space or in the large-object space is reported. Any other slot that may
//! hold an object is taken for that object and scanned in place, once in every collection.

use crate::heap::{Heap, HeapView, JuliaConfig};
use crate::julia_types::MIN_POINTER;
use crate::memory::Address;
use crate::object_steps::{lemma_object_visits, list_object_steps, object_steps};
use crate::slots::{simple, JuliaVMSlot, SimpleSlot};
use crate::steps::{is_foreseen, visits_within, Step};
use std::collections::HashSet;
use vstd::prelude::*;

verus! {

/// Whether an address lies in the first or the last third of the heap: the main space or the
/// large-object space. None does before both bounds of the heap are known.
pub open spec fn in_immix_or_los(start: u64, end: u64, a: u64) -> bool {
    let extent = (end - start) / 3;
    &&& start != 0
    &&& end != 0
    &&& start <= a < start + extent || start + 2 * extent <= a < end
}

/// Tests whether an address lies in the main space or in the large-object space.
pub fn mmtk_address_is_in_immix_or_los(config: &JuliaConfig, addr: Address) -> (r: bool)
    requires
        config.has_heap_range(),
    ensures
        r == in_immix_or_los(config.heap_start, config.heap_end, addr),
{
    let start: u64 = config.heap_start;
    let end: u64 = config.heap_end;
    if start == 0 || end == 0 {
        return false;
    }
    let extent: u64 = (end - start) / 3;
    let in_immix: bool = addr >= start && addr < start + extent;
    let in_los: bool = addr >= start + 2 * extent && addr < end;
    in_immix || in_los
}

/// Whether a slot is reported as it is.
pub open spec fn is_reported(h: HeapView, slot: u64) -> bool {
    slot != 0 && in_immix_or_los(h.config.heap_start, h.config.heap_end, slot)
}

/// Whether a slot is taken for an object and scanned in place.
pub open spec fn is_scanned(h: HeapView, slot: u64) -> bool {
    &&& slot != 0
    &&& !in_immix_or_los(h.config.heap_start, h.config.heap_end, slot)
    &&& slot % 8 == 0
    &&& slot >= MIN_POINTER
    &&& h.is_mapped(slot)
}

/// The state of a scan.
pub struct ScanView {
    /// The collection that is under way.
    pub gc_epoch: u64,
    /// The collection in which the visited objects were visited.
    pub local_epoch: u64,
    /// The objects that were scanned in place.
    pub visited: Set<u64>,
    /// The slots that were reported, in order.
    pub slots: Seq<JuliaVMSlot>,
}

impl ScanView {
    /// The state with one more slot reported.
    pub open spec fn reporting(self, slot: JuliaVMSlot) -> ScanView {
        ScanView { slots: self.slots.push(slot), ..self }
    }

    /// The state in which objects visited in earlier collections are forgotten.
    pub open spec fn refreshed(self) -> ScanView {
        if self.local_epoch == self.gc_epoch {
            self
        } else {
            ScanView { local_epoch: self.gc_epoch, visited: Set::empty(), ..self }
        }
    }

    /// The state with one more object visited.
    pub open spec fn visiting(self, a: u64) -> ScanView {
        ScanView { visited: self.visited.insert(a), ..self }
    }

    /// How many times the visited objects may still be forgotten.
    pub open spec fn stale(self) -> nat {
        if self.local_epoch == self.gc_epoch {
            0
        } else {
            1
        }
    }

    /// How many addresses were not visited.
    pub open spec fn unvisited(self) -> nat {
        Set::<u64>::full().difference(self.visited).len()
    }
}

/// Each visit leaves one address less to visit.
pub proof fn lemma_visiting_shrinks(st: ScanView, a: u64)
    requires
        !st.visited.contains(a),
    ensures
        st.visiting(a).unvisited() < st.unvisited(),
{
    <u64 as vstd::set_lib::FiniteFull>::full_properties();
    let all = Set::<u64>::full();
    assert(all.difference(st.visited.insert(a)) =~= all.difference(st.visited).remove(a));
    assert(all.difference(st.visited).contains(a));
}

/// The state after the steps, and whether they all were taken: a step on an unsupported layout
/// ends the scan.
pub open spec fn run(h: HeapView, st: ScanView, steps: Seq<Step>) -> (ScanView, bool)
    decreases st.stale(), st.unvisited(), steps.len(),
{
    if steps.len() == 0 {
        (st, true)
    } else {
        let rest = steps.drop_first();
        match steps[0] {
            Step::Visit(slot) => run(h, st.reporting(slot), rest),
            Step::Unsupported => (st, false),
            Step::Slot(a) => {
                if is_reported(h, a) {
                    run(h, st.reporting(simple(a)), rest)
                } else if is_scanned(h, a) {
                    if st.refreshed().visited.contains(a) {
                        run(h, st.refreshed(), rest)
                    } else {
                        proof {
                            lemma_visiting_shrinks(st.refreshed(), a);
                        }
                        run(h, st.refreshed().visiting(a), object_steps(h, a) + rest)
                    }
                } else {
                    run(h, st, rest)
                }
            },
        }
    }
}

/// Steps taken one list after the other are taken as one list; after a step on an unsupported
/// layout the second list is not begun.
pub proof fn lemma_run_concat(h: HeapView, st: ScanView, first: Seq<Step>, second: Seq<Step>)
    ensures
        run(h, st, first + second) == (if run(h, st, first).1 {
            run(h, run(h, st, first).0, second)
        } else {
            run(h, st, first)
        }),
    decreases st.stale(), st.unvisited(), first.len(),
{
    if first.len() == 0 {
        assert(first + second =~= second);
    } else {
        let rest = first.drop_first();
        assert((first + second)[0] == first[0]);
        assert((first + second).drop_first() =~= rest + second);
        match first[0] {
            Step::Visit(slot) => lemma_run_concat(h, st.reporting(slot), rest, second),
            Step::Unsupported => {},
            Step::Slot(a) => {
                if is_reported(h, a) {
                    lemma_run_concat(h, st.reporting(simple(a)), rest, second);
                } else if is_scanned(h, a) {
                    if st.refreshed().visited.contains(a) {
                        lemma_run_concat(h, st.refreshed(), rest, second);
                    } else {
                        lemma_visiting_shrinks(st.refreshed(), a);
                        let inner = object_steps(h, a);
                        assert(inner + (rest + second) =~= (inner + rest) + second);
                        lemma_run_concat(h, st.refreshed().visiting(a), inner + rest, second);
                    }
                } else {
                    lemma_run_concat(h, st, rest, second);
                }
            },
        }
    }
}

/// Whether a later state of a scan continues an earlier one: the same collection, the reported
/// slots kept and only added to, and no object of this collection forgotten.
pub open spec fn continues(before: ScanView, after: ScanView) -> bool {
    &&& after.gc_epoch == before.gc_epoch
    &&& before.slots.len() <= after.slots.len()
    &&& after.slots.take(before.slots.len() as int) == before.slots
    &&& before.local_epoch == before.gc_epoch ==> {
        &&& after.local_epoch == after.gc_epoch
        &&& before.visited.subset_of(after.visited)
    }
}

proof fn lemma_continues_transitive(a: ScanView, b: ScanView, c: ScanView)
    requires
        continues(a, b),
        continues(b, c),
    ensures
        continues(a, c),
{
    assert(c.slots.take(a.slots.len() as int) =~= c.slots.take(b.slots.len() as int).take(
        a.slots.len() as int,
    ));
}

proof fn lemma_reporting_continues(st: ScanView, slot: JuliaVMSlot)
    ensures
        continues(st, st.reporting(slot)),
{
    assert(st.reporting(slot).slots.take(st.slots.len() as int) =~= st.slots);
}

proof fn lemma_refreshed_continues(st: ScanView)
    ensures
        continues(st, st.refreshed()),
{
    assert(st.slots.take(st.slots.len() as int) =~= st.slots);
}

proof fn lemma_visiting_continues(st: ScanView, a: u64)
    ensures
        continues(st, st.visiting(a)),
{
    assert(st.slots.take(st.slots.len() as int) =~= st.slots);
}

/// A scan takes back nothing: it keeps the collection, the reported slots and their order, and
/// the objects visited in this collection.
pub proof fn lemma_run_continues(h: HeapView, st: ScanView, steps: Seq<Step>)
    ensures
        continues(st, run(h, st, steps).0),
    decreases st.stale(), st.unvisited(), steps.len(),
{
    let end = run(h, st, steps).0;
    lemma_refreshed_continues(st);
    if steps.len() == 0 || steps[0] is Unsupported {
        assert(st.slots.take(st.slots.len() as int) =~= st.slots);
    } else {
        let rest = steps.drop_first();
        match steps[0] {
            Step::Visit(slot) => {
                lemma_reporting_continues(st, slot);
                lemma_run_continues(h, st.reporting(slot), rest);
                lemma_continues_transitive(st, st.reporting(slot), end);
            },
            Step::Unsupported => {},
            Step::Slot(a) => {
                if is_reported(h, a) {
                    lemma_reporting_continues(st, simple(a));
                    lemma_run_continues(h, st.reporting(simple(a)), rest);
                    lemma_continues_transitive(st, st.reporting(simple(a)), end);
                } else if is_scanned(h, a) {
                    let fresh = st.refreshed();
                    if fresh.visited.contains(a) {
                        lemma_run_continues(h, fresh, rest);
                        lemma_continues_transitive(st, fresh, end);
                    } else {
                        lemma_visiting_shrinks(fresh, a);
                        lemma_visiting_continues(fresh, a);
                        lemma_run_continues(h, fresh.visiting(a), object_steps(h, a) + rest);
                        lemma_continues_transitive(st, fresh, fresh.visiting(a));
                        lemma_continues_transitive(st, fresh.visiting(a), end);
                    }
                } else {
                    lemma_run_continues(h, st, rest);
                }
            },
        }
    }
}

/// An object outside the moving spaces is scanned once in a collection: handing on its address a
/// second time changes nothing.
pub proof fn lemma_scanned_once(h: HeapView, st: ScanView, a: u64)
    requires
        is_scanned(h, a),
    ensures
        ({
            let first = run(h, st, seq![Step::Slot(a)]);
            run(h, first.0, seq![Step::Slot(a)]) == (first.0, true)
        }),
{
    let steps = seq![Step::Slot(a)];
    let rest = steps.drop_first();
    assert(rest =~= Seq::<Step>::empty());
    let fresh = st.refreshed();
    let end = run(h, st, steps).0;
    if fresh.visited.contains(a) {
        assert(run(h, fresh, rest) == (fresh, true));
        assert(end == fresh);
    } else {
        let inner = object_steps(h, a);
        assert(inner + rest =~= inner);
        lemma_run_continues(h, fresh.visiting(a), inner);
        assert(end.visited.contains(a));
    }
    assert(end.refreshed() == end);
    assert(run(h, end, rest) == (end, true));
}

/// A new collection starts with nothing visited: an object that was scanned in the one before is
/// scanned again.
pub proof fn lemma_new_collection_scans_again(h: HeapView, st: ScanView, a: u64)
    requires
        is_scanned(h, a),
        st.local_epoch != st.gc_epoch,
    ensures
        run(h, st, seq![Step::Slot(a)]) == run(
            h,
            ScanView {
                local_epoch: st.gc_epoch,
                visited: Set::empty().insert(a),
                ..st
            },
            object_steps(h, a),
        ),
{
    let steps = seq![Step::Slot(a)];
    assert(object_steps(h, a) + steps.drop_first() =~= object_steps(h, a));
}

/// Whether a slot is accounted for: a plain slot lies in the main or in the large-object space, or
/// was to be reported outright, and a captured reference was to be reported outright.
pub open spec fn is_accounted(h: HeapView, slot: JuliaVMSlot, outright: Set<JuliaVMSlot>) -> bool {
    match slot {
        JuliaVMSlot::Simple(e) => is_reported(h, e.address) || outright.contains(slot),
        JuliaVMSlot::Direct(_) => outright.contains(slot),
        _ => true,
    }
}

/// Whether the slots of a list from its `from`-th slot on are all accounted for.
pub open spec fn slots_accounted(
    h: HeapView,
    slots: Seq<JuliaVMSlot>,
    from: int,
    outright: Set<JuliaVMSlot>,
) -> bool {
    forall|i: int| from <= i < slots.len() ==> is_accounted(h, #[trigger] slots[i], outright)
}

/// Besides the slots that the steps report outright, a scan reports plain slots in the main and the
/// large-object space only, and no captured references.
pub proof fn lemma_reported_slots_accounted(
    h: HeapView,
    st: ScanView,
    steps: Seq<Step>,
    outright: Set<JuliaVMSlot>,
)
    requires
        visits_within(steps, outright),
    ensures
        slots_accounted(h, run(h, st, steps).0.slots, st.slots.len() as int, outright),
    decreases st.stale(), st.unvisited(), steps.len(), 0int,
{
    if steps.len() > 0 {
        let rest = steps.drop_first();
        assert(visits_within(rest, outright)) by {
            assert forall|i: int| 0 <= i < rest.len() implies is_foreseen(
                #[trigger] rest[i],
                outright,
            ) by {
                assert(rest[i] == steps[i + 1]);
            }
        }
        assert(is_foreseen(steps[0], outright));
        match steps[0] {
            Step::Visit(slot) => lemma_reported_slots_next(h, st, slot, rest, outright),
            Step::Unsupported => {},
            Step::Slot(a) => {
                if is_reported(h, a) {
                    lemma_reported_slots_next(h, st, simple(a), rest, outright);
                } else if is_scanned(h, a) {
                    let fresh = st.refreshed();
                    if fresh.visited.contains(a) {
                        lemma_reported_slots_accounted(h, fresh, rest, outright);
                    } else {
                        lemma_visiting_shrinks(fresh, a);
                        lemma_object_visits(h, a);
                        lemma_reported_slots_accounted(
                            h,
                            fresh.visiting(a),
                            object_steps(h, a) + rest,
                            outright,
                        );
                    }
                } else {
                    lemma_reported_slots_accounted(h, st, rest, outright);
                }
            },
        }
    }
}

/// The scan of an object reports plain slots in the main and the large-object space only, and no
/// captured references.
pub proof fn lemma_object_scan_managed(h: HeapView, st: ScanView, obj: u64)
    ensures
        slots_accounted(
            h,
            run(h, st, object_steps(h, obj)).0.slots,
            st.slots.len() as int,
            Set::empty(),
        ),
{
    lemma_object_visits(h, obj);
    lemma_reported_slots_accounted(h, st, object_steps(h, obj), Set::empty());
}

proof fn lemma_reported_slots_next(
    h: HeapView,
    st: ScanView,
    slot: JuliaVMSlot,
    rest: Seq<Step>,
    outright: Set<JuliaVMSlot>,
)
    requires
        visits_within(rest, outright),
        is_accounted(h, slot, outright),
    ensures
        slots_accounted(
            h,
            run(h, st.reporting(slot), rest).0.slots,
            st.slots.len() as int,
            outright,
        ),
    decreases st.stale(), st.unvisited(), rest.len(), 1int,
{
    let next = st.reporting(slot);
    lemma_reported_slots_accounted(h, next, rest, outright);
    lemma_run_continues(h, next, rest);
    let end = run(h, next, rest).0.slots;
    assert(end.take(next.slots.len() as int)[st.slots.len() as int] == slot);
}

/// A scan met a layout that has no known pointer table.
#[derive(Clone, Copy, PartialEq, Eq, Structural, Debug)]
pub struct UnsupportedLayout;

/// A scan in progress.
pub struct Scanner {
    /// The collection that is under way.
    pub gc_epoch: u64,
    /// The collection in which the visited objects were visited.
    pub local_epoch: u64,
    /// The objects that were scanned in place.
    pub visited: HashSet<u64>,
    /// The slots that were reported, in order.
    pub slots: Vec<JuliaVMSlot>,
}

impl View for Scanner {
    type V = ScanView;

    open spec fn view(&self) -> ScanView {
        ScanView {
            gc_epoch: self.gc_epoch,
            local_epoch: self.local_epoch,
            visited: self.visited@,
            slots: self.slots@,
        }
    }
}

/// Whether the result of a scan says what the model of the scan says.
pub open spec fn outcome(
    r: Result<(), UnsupportedLayout>,
    after: ScanView,
    expected: (ScanView, bool),
) -> bool {
    after == expected.0 && r is Ok == expected.1
}

/// Puts steps on top of a stack, the first step uppermost.
fn push_reversed(stack: &mut Vec<Step>, steps: &Vec<Step>)
    ensures
        final(stack)@.reverse() == steps@ + old(stack)@.reverse(),
{
    let mut i: usize = steps.len();
    assert(steps@.skip(steps@.len() as int) + old(stack)@.reverse() =~= old(stack)@.reverse());
    while i > 0
        invariant
            i <= steps.len(),
            stack@.reverse() == steps@.skip(i as int) + old(stack)@.reverse(),
        decreases i,
    {
        i = i - 1;
        let ghost before = stack@;
        stack.push(steps[i]);
        proof {
            assert(steps@.skip(i as int) =~= seq![steps@[i as int]] + steps@.skip(i + 1));
            assert(stack@.reverse() =~= seq![steps@[i as int]] + before.reverse());
            assert(stack@.reverse() =~= steps@.skip(i as int) + old(stack)@.reverse());
        }
    }
    assert(steps@.skip(0) =~= steps@);
}

impl Scanner {
    /// A scan that has visited and reported nothing yet.
    pub fn new(gc_epoch: u64) -> (r: Scanner)
        ensures
            r@ == (ScanView {
                gc_epoch,
                local_epoch: 0,
                visited: Set::empty(),
                slots: Seq::empty(),
            }),
    {
        Scanner { gc_epoch, local_epoch: 0, visited: HashSet::new(), slots: Vec::new() }
    }

    /// Hands out the reported slots and keeps none of them.
    pub fn take_slots(&mut self) -> (r: Vec<JuliaVMSlot>)
        ensures
            r@ == old(self)@.slots,
            final(self)@ == (ScanView { slots: Seq::empty(), ..old(self)@ }),
    {
        let mut slots: Vec<JuliaVMSlot> = Vec::new();
        slots.append(&mut self.slots);
        slots
    }

    /// Takes steps until none is left or one cannot be taken.
    pub fn run_steps(&mut self, heap: &Heap, steps: &Vec<Step>) -> (r: Result<
        (),
        UnsupportedLayout,
    >)
        requires
            heap@.wf(),
        ensures
            outcome(r, final(self)@, run(heap@, old(self)@, steps@)),
    {
        broadcast use vstd::std_specs::hash::group_hash_axioms;

        let mut stack: Vec<Step> = Vec::new();
        push_reversed(&mut stack, steps);
        assert(stack@.reverse() =~= steps@);
        while stack.len() > 0
            invariant
                heap@.wf(),
                run(heap@, self@, stack@.reverse()) == run(heap@, old(self)@, steps@),
            decreases self@.stale(), self@.unvisited(), stack@.len(),
        {
            let ghost before = stack@;
            let ghost st = self@;
            let next = stack.pop();
            proof {
                assert(before.reverse()[0] == before.last());
                assert(before.reverse().drop_first() =~= stack@.reverse());
            }
            match next {
                None => {},
                Some(Step::Visit(slot)) => {
                    self.slots.push(slot);
                    assert(self@ == st.reporting(slot));
                },
                Some(Step::Unsupported) => {
                    return Err(UnsupportedLayout);
                },
                Some(Step::Slot(a)) => {
                    if a != 0 && mmtk_address_is_in_immix_or_los(&heap.config, a) {
                        self.slots.push(JuliaVMSlot::Simple(SimpleSlot::from_address(a)));
                        assert(self@ == st.reporting(simple(a)));
                    } else if a % 8 == 0 && a >= MIN_POINTER && heap.is_mapped(a) {
                        if self.local_epoch != self.gc_epoch {
                            self.local_epoch = self.gc_epoch;
                            self.visited.clear();
                        }
                        assert(self@ == st.refreshed());
                        let is_new: bool = self.visited.insert(a);
                        if is_new {
                            proof {
                                lemma_visiting_shrinks(st.refreshed(), a);
                                assert(self@ == st.refreshed().visiting(a));
                            }
                            let inner: Vec<Step> = list_object_steps(heap, a);
                            push_reversed(&mut stack, &inner);
                        } else {
                            assert(self@.visited =~= st.refreshed().visited);
                        }
                    }
                },
            }
        }
        assert(stack@.reverse() =~= Seq::<Step>::empty());
        Ok(())
    }
}

} // verus!
