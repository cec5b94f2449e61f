//! What a walk over the heap reports and visits: all that its steps and the objects it visits lead
//! to, and nothing else.

use crate::heap::HeapView;
use crate::object_steps::object_steps;
use crate::slots::{simple, JuliaVMSlot};
use crate::steps::Step;
use crate::traversal::{
    continues, is_reported, is_scanned, lemma_run_concat, lemma_run_continues,
    lemma_visiting_shrinks, outcome, run, ScanView, UnsupportedLayout,
};
use vstd::prelude::*;

verus! {

/// A slot is reported as it is if and only if it lies in the first or in the last third of a heap
/// whose bounds are known. A third has a whole number of bytes; what is left over is at the end.
pub proof fn lemma_reported_places(h: HeapView, a: u64, third: int)
    requires
        ({
            let extent = h.config.heap_end - h.config.heap_start;
            3 * third <= extent < 3 * third + 3
        }),
    ensures
        ({
            let start = h.config.heap_start;
            let end = h.config.heap_end;
            is_reported(h, a) <==> {
                &&& a != 0 && start != 0 && end != 0
                &&& start <= a < start + third || start + 2 * third <= a < end
            }
        }),
{
}

/// Any other slot is taken for an object and scanned in place if and only if it is aligned to a
/// word, no low number and managed.
pub proof fn lemma_scanned_places(h: HeapView, a: u64)
    ensures
        is_scanned(h, a) <==> {
            &&& !is_reported(h, a)
            &&& a % 8 == 0 && a >= 0x20000
            &&& h.is_mapped(a)
        },
        !(is_scanned(h, a) && is_reported(h, a)),
{
}

/// Whether a state of a walk has taken a step: a slot to report is reported, a slot in the outer
/// thirds of the heap is reported as it is, and an object that is scanned in place has been visited
/// in this collection.
pub open spec fn has_taken(h: HeapView, st: ScanView, x: Step) -> bool {
    match x {
        Step::Visit(slot) => st.slots.contains(slot),
        Step::Slot(a) => {
            &&& is_reported(h, a) ==> st.slots.contains(simple(a))
            &&& is_scanned(h, a) ==> st.local_epoch == st.gc_epoch && st.visited.contains(a)
        },
        Step::Unsupported => false,
    }
}

/// Whether an object was visited before a walk began, in this collection.
pub open spec fn was_visited(st: ScanView, a: u64) -> bool {
    st.local_epoch == st.gc_epoch && st.visited.contains(a)
}

/// Whether an object was visited by a walk.
pub open spec fn is_visited_by(before: ScanView, after: ScanView, a: u64) -> bool {
    !was_visited(before, a) && was_visited(after, a)
}

/// Whether a state of a walk has taken a list of steps and those of every object that it visited
/// since an earlier state.
pub open spec fn has_taken_all(
    h: HeapView,
    before: ScanView,
    after: ScanView,
    steps: Seq<Step>,
) -> bool {
    &&& forall|x: Step| #[trigger] steps.contains(x) ==> has_taken(h, after, x)
    &&& forall|a: u64, x: Step|
        is_visited_by(before, after, a) && #[trigger] object_steps(h, a).contains(x) ==> has_taken(
            h,
            after,
            x,
        )
}

proof fn lemma_kept_slot(before: ScanView, after: ScanView, slot: JuliaVMSlot)
    requires
        continues(before, after),
        before.slots.contains(slot),
    ensures
        after.slots.contains(slot),
{
    let i = choose|i: int| 0 <= i < before.slots.len() && before.slots[i] == slot;
    assert(after.slots.take(before.slots.len() as int)[i] == slot);
    assert(after.slots[i] == slot);
}

proof fn lemma_first_or_rest(steps: Seq<Step>, x: Step)
    requires
        steps.len() > 0,
    ensures
        steps.contains(x) <==> x == steps[0] || steps.drop_first().contains(x),
{
    if steps.contains(x) {
        let i = choose|i: int| 0 <= i < steps.len() && steps[i] == x;
        if i > 0 {
            assert(steps.drop_first()[i - 1] == x);
        }
    }
    if steps.drop_first().contains(x) {
        let rest = steps.drop_first();
        let i = choose|i: int| 0 <= i < rest.len() && rest[i] == x;
        assert(steps[i + 1] == x);
    }
}

pub proof fn lemma_either_list(s: Seq<Step>, t: Seq<Step>, x: Step)
    ensures
        (s + t).contains(x) <==> s.contains(x) || t.contains(x),
{
    if s.contains(x) {
        let i = choose|i: int| 0 <= i < s.len() && s[i] == x;
        assert((s + t)[i] == x);
    }
    if t.contains(x) {
        let i = choose|i: int| 0 <= i < t.len() && t[i] == x;
        assert((s + t)[s.len() + i] == x);
    }
    if (s + t).contains(x) {
        let i = choose|i: int| 0 <= i < (s + t).len() && (s + t)[i] == x;
        if i < s.len() {
            assert(s[i] == x);
        } else {
            assert(t[i - s.len()] == x);
        }
    }
}

/// A walk that comes to its end has taken all of its steps and all steps of the objects that it
/// visited on the way.
#[verifier::rlimit(40)]
pub proof fn lemma_walk_is_complete(h: HeapView, st: ScanView, steps: Seq<Step>)
    requires
        run(h, st, steps).1,
    ensures
        has_taken_all(h, st, run(h, st, steps).0, steps),
    decreases st.stale(), st.unvisited(), steps.len(),
{
    let end = run(h, st, steps).0;
    lemma_run_continues(h, st, steps);
    if steps.len() > 0 {
        let rest = steps.drop_first();
        assert forall|x: Step| steps.contains(x) == (x == steps[0] || rest.contains(x)) by {
            lemma_first_or_rest(steps, x);
        }
        match steps[0] {
            Step::Visit(slot) => {
                let next = st.reporting(slot);
                lemma_walk_is_complete(h, next, rest);
                lemma_run_continues(h, next, rest);
                assert(next.slots.last() == slot);
                lemma_kept_slot(next, end, slot);
            },
            Step::Unsupported => {},
            Step::Slot(a) => {
                if is_reported(h, a) {
                    let next = st.reporting(simple(a));
                    lemma_walk_is_complete(h, next, rest);
                    lemma_run_continues(h, next, rest);
                    assert(next.slots.last() == simple(a));
                    lemma_kept_slot(next, end, simple(a));
                } else if is_scanned(h, a) {
                    let fresh = st.refreshed();
                    if fresh.visited.contains(a) {
                        lemma_walk_is_complete(h, fresh, rest);
                        lemma_run_continues(h, fresh, rest);
                    } else {
                        lemma_visiting_shrinks(fresh, a);
                        let inner = object_steps(h, a);
                        let next = fresh.visiting(a);
                        lemma_walk_is_complete(h, next, inner + rest);
                        lemma_run_continues(h, next, inner + rest);
                        assert forall|x: Step| (inner + rest).contains(x) == (inner.contains(x)
                            || rest.contains(x)) by {
                            lemma_either_list(inner, rest, x);
                        }
                        assert forall|b: u64, x: Step|
                            is_visited_by(st, end, b) && #[trigger] object_steps(h, b).contains(
                                x,
                            ) implies has_taken(h, end, x) by {
                            if b == a {
                                assert((inner + rest).contains(x));
                            } else {
                                assert(is_visited_by(next, end, b));
                            }
                        }
                        assert forall|x: Step| #[trigger] steps.contains(x) implies has_taken(
                            h,
                            end,
                            x,
                        ) by {
                            if rest.contains(x) {
                                assert((inner + rest).contains(x));
                            }
                        }
                    }
                } else {
                    lemma_walk_is_complete(h, st, rest);
                }
            },
        }
    }
}

/// Whether a step is one of a list or of an object that a walk visited.
pub open spec fn is_met(
    h: HeapView,
    before: ScanView,
    after: ScanView,
    steps: Seq<Step>,
    x: Step,
) -> bool {
    ||| steps.contains(x)
    ||| exists|b: u64|
        #![trigger object_steps(h, b)]
        is_visited_by(before, after, b) && object_steps(h, b).contains(x)
}

/// Whether a slot was to be reported by a step that a walk met.
pub open spec fn stems_from_a_step(
    h: HeapView,
    before: ScanView,
    after: ScanView,
    steps: Seq<Step>,
    slot: JuliaVMSlot,
) -> bool {
    ||| is_met(h, before, after, steps, Step::Visit(slot))
    ||| exists|a: u64|
        slot == #[trigger] simple(a) && is_reported(h, a) && is_met(
            h,
            before,
            after,
            steps,
            Step::Slot(a),
        )
}

/// Whether a walk did nothing but what the steps that it met led to.
pub open spec fn stems_from_steps(
    h: HeapView,
    before: ScanView,
    after: ScanView,
    steps: Seq<Step>,
) -> bool {
    &&& forall|i: int|
        before.slots.len() <= i < after.slots.len() ==> stems_from_a_step(
            h,
            before,
            after,
            steps,
            #[trigger] after.slots[i],
        )
    &&& forall|a: u64| #[trigger]
        is_visited_by(before, after, a) ==> is_scanned(h, a) && is_met(
            h,
            before,
            after,
            steps,
            Step::Slot(a),
        )
}

proof fn lemma_met_later(
    h: HeapView,
    before: ScanView,
    next: ScanView,
    after: ScanView,
    steps: Seq<Step>,
    later: Seq<Step>,
)
    requires
        forall|b: u64| is_visited_by(next, after, b) ==> #[trigger] is_visited_by(before, after, b),
        forall|x: Step| #[trigger] later.contains(x) ==> is_met(h, before, after, steps, x),
        stems_from_steps(h, next, after, later),
    ensures
        forall|i: int|
            next.slots.len() <= i < after.slots.len() ==> stems_from_a_step(
                h,
                before,
                after,
                steps,
                #[trigger] after.slots[i],
            ),
        forall|a: u64|
            #![trigger is_visited_by(before, after, a)]
            is_visited_by(next, after, a) ==> is_scanned(h, a) && is_met(
                h,
                before,
                after,
                steps,
                Step::Slot(a),
            ),
{
    assert forall|x: Step| is_met(h, next, after, later, x) implies #[trigger] is_met(
        h,
        before,
        after,
        steps,
        x,
    ) by {
        if !later.contains(x) {
            let b = choose|b: u64|
                #![trigger object_steps(h, b)]
                is_visited_by(next, after, b) && object_steps(h, b).contains(x);
            assert(is_visited_by(before, after, b));
        }
    }
    assert forall|i: int| next.slots.len() <= i < after.slots.len() implies stems_from_a_step(
        h,
        before,
        after,
        steps,
        #[trigger] after.slots[i],
    ) by {
        let slot = after.slots[i];
        assert(stems_from_a_step(h, next, after, later, slot));
        if !is_met(h, next, after, later, Step::Visit(slot)) {
            let a = choose|a: u64|
                slot == #[trigger] simple(a) && is_reported(h, a) && is_met(
                    h,
                    next,
                    after,
                    later,
                    Step::Slot(a),
                );
            assert(is_met(h, before, after, steps, Step::Slot(a)));
        } else {
            assert(is_met(h, before, after, steps, Step::Visit(slot)));
        }
    }
    assert forall|a: u64|
        #![trigger is_visited_by(before, after, a)]
        is_visited_by(next, after, a) implies is_scanned(h, a) && is_met(
        h,
        before,
        after,
        steps,
        Step::Slot(a),
    ) by {
        assert(is_met(h, next, after, later, Step::Slot(a)));
    }
}

/// A walk reports no slot and visits no object but those that its steps, or the steps of objects
/// that it visited, lead to.
#[verifier::rlimit(40)]
pub proof fn lemma_walk_is_sound(h: HeapView, st: ScanView, steps: Seq<Step>)
    ensures
        stems_from_steps(h, st, run(h, st, steps).0, steps),
    decreases st.stale(), st.unvisited(), steps.len(),
{
    let end = run(h, st, steps).0;
    lemma_run_continues(h, st, steps);
    if steps.len() > 0 {
        let rest = steps.drop_first();
        assert forall|x: Step| #[trigger] rest.contains(x) implies is_met(h, st, end, steps, x) by {
            lemma_first_or_rest(steps, x);
        }
        assert(steps.contains(steps[0]));
        match steps[0] {
            Step::Visit(slot) => {
                let next = st.reporting(slot);
                lemma_walk_is_sound(h, next, rest);
                lemma_run_continues(h, next, rest);
                lemma_met_later(h, st, next, end, steps, rest);
                assert(end.slots[st.slots.len() as int] == slot) by {
                    assert(end.slots.take(next.slots.len() as int)[st.slots.len() as int] == slot);
                }
                assert(is_met(h, st, end, steps, Step::Visit(slot)));
            },
            Step::Unsupported => {},
            Step::Slot(a) => {
                assert(is_met(h, st, end, steps, Step::Slot(a)));
                if is_reported(h, a) {
                    let next = st.reporting(simple(a));
                    lemma_walk_is_sound(h, next, rest);
                    lemma_run_continues(h, next, rest);
                    lemma_met_later(h, st, next, end, steps, rest);
                    assert(end.slots[st.slots.len() as int] == simple(a)) by {
                        assert(end.slots.take(next.slots.len() as int)[st.slots.len() as int]
                            == simple(a));
                    }
                } else if is_scanned(h, a) {
                    let fresh = st.refreshed();
                    if fresh.visited.contains(a) {
                        lemma_walk_is_sound(h, fresh, rest);
                        lemma_met_later(h, st, fresh, end, steps, rest);
                    } else {
                        lemma_visiting_shrinks(fresh, a);
                        let inner = object_steps(h, a);
                        let next = fresh.visiting(a);
                        lemma_walk_is_sound(h, next, inner + rest);
                        lemma_run_continues(h, next, inner + rest);
                        assert(is_visited_by(st, end, a));
                        assert forall|x: Step| #[trigger] (inner + rest).contains(x) implies is_met(
                            h,
                            st,
                            end,
                            steps,
                            x,
                        ) by {
                            lemma_either_list(inner, rest, x);
                        }
                        lemma_met_later(h, st, next, end, steps, inner + rest);
                        assert forall|b: u64| #[trigger] is_visited_by(st, end, b) implies {
                            is_scanned(h, b) && is_met(h, st, end, steps, Step::Slot(b))
                        } by {
                            if b != a {
                                assert(is_visited_by(next, end, b));
                            }
                        }
                    }
                } else {
                    lemma_walk_is_sound(h, st, rest);
                    lemma_met_later(h, st, st, end, steps, rest);
                }
            },
        }
    }
}

/// A walk stops before its end if and only if it meets a layout that is not supported.
#[verifier::rlimit(40)]
pub proof fn lemma_walk_stops_at_unsupported(h: HeapView, st: ScanView, steps: Seq<Step>)
    ensures
        !run(h, st, steps).1 <==> is_met(h, st, run(h, st, steps).0, steps, Step::Unsupported),
    decreases st.stale(), st.unvisited(), steps.len(),
{
    let end = run(h, st, steps).0;
    if run(h, st, steps).1 {
        lemma_walk_is_complete(h, st, steps);
    } else {
        lemma_run_continues(h, st, steps);
        let rest = steps.drop_first();
        lemma_first_or_rest(steps, Step::Unsupported);
        match steps[0] {
            Step::Visit(slot) => {
                let next = st.reporting(slot);
                lemma_walk_stops_at_unsupported(h, next, rest);
                lemma_stop_later(h, st, next, end, steps, rest);
            },
            Step::Unsupported => {},
            Step::Slot(a) => {
                if is_reported(h, a) {
                    let next = st.reporting(simple(a));
                    lemma_walk_stops_at_unsupported(h, next, rest);
                    lemma_stop_later(h, st, next, end, steps, rest);
                } else if is_scanned(h, a) {
                    let fresh = st.refreshed();
                    if fresh.visited.contains(a) {
                        lemma_walk_stops_at_unsupported(h, fresh, rest);
                        lemma_stop_later(h, st, fresh, end, steps, rest);
                    } else {
                        lemma_visiting_shrinks(fresh, a);
                        let inner = object_steps(h, a);
                        let next = fresh.visiting(a);
                        lemma_walk_stops_at_unsupported(h, next, inner + rest);
                        lemma_run_continues(h, next, inner + rest);
                        lemma_either_list(inner, rest, Step::Unsupported);
                        assert(is_visited_by(st, end, a));
                        if inner.contains(Step::Unsupported) {
                            assert(is_met(h, st, end, steps, Step::Unsupported));
                        } else if !rest.contains(Step::Unsupported) {
                            lemma_stop_later(h, st, next, end, steps, inner + rest);
                        }
                    }
                } else {
                    lemma_walk_stops_at_unsupported(h, st, rest);
                    lemma_stop_later(h, st, st, end, steps, rest);
                }
            },
        }
    }
}

proof fn lemma_stop_later(
    h: HeapView,
    before: ScanView,
    next: ScanView,
    after: ScanView,
    steps: Seq<Step>,
    later: Seq<Step>,
)
    requires
        is_met(h, next, after, later, Step::Unsupported),
        later.contains(Step::Unsupported) ==> steps.contains(Step::Unsupported),
        forall|b: u64| is_visited_by(next, after, b) ==> #[trigger] is_visited_by(before, after, b),
    ensures
        is_met(h, before, after, steps, Step::Unsupported),
{
    if !later.contains(Step::Unsupported) {
        let b = choose|b: u64|
            #![trigger object_steps(h, b)]
            is_visited_by(next, after, b) && object_steps(h, b).contains(Step::Unsupported);
        assert(is_visited_by(before, after, b));
    }
}

/// What a single step does to a walk: a slot to report is added behind the slots that were
/// reported, a slot in the outer thirds is added as it is, an object that is scanned in place and
/// was not visited in this collection is noted as visited and its steps are taken, and nothing else
/// has an effect. A layout that is not supported ends the walk.
pub proof fn lemma_single_steps(h: HeapView, st: ScanView, slot: JuliaVMSlot, a: u64)
    ensures
        run(h, st, seq![Step::Visit(slot)]) == (
            ScanView { slots: st.slots.push(slot), ..st },
            true,
        ),
        run(h, st, seq![Step::Unsupported]) == (st, false),
        is_reported(h, a) ==> run(h, st, seq![Step::Slot(a)]) == (
            ScanView { slots: st.slots.push(simple(a)), ..st },
            true,
        ),
        is_scanned(h, a) && !was_visited(st, a) ==> ({
            let visited = if st.local_epoch == st.gc_epoch {
                st.visited
            } else {
                Set::empty()
            };
            let inside = ScanView {
                local_epoch: st.gc_epoch,
                visited: visited.insert(a),
                ..st
            };
            run(h, st, seq![Step::Slot(a)]) == run(h, inside, object_steps(h, a))
        }),
        is_scanned(h, a) && was_visited(st, a) ==> run(h, st, seq![Step::Slot(a)]) == (st, true),
        !is_reported(h, a) && !is_scanned(h, a) ==> run(h, st, seq![Step::Slot(a)]) == (st, true),
        run(h, st, Seq::<Step>::empty()) == (st, true),
{
    let none = Seq::<Step>::empty();
    assert(seq![Step::Visit(slot)].drop_first() =~= none);
    assert(seq![Step::Slot(a)].drop_first() =~= none);
    assert(object_steps(h, a) + none =~= object_steps(h, a));
    assert(run(h, st, none) == (st, true));
    assert(run(h, st.reporting(slot), none) == (st.reporting(slot), true));
    assert(run(h, st.reporting(simple(a)), none) == (st.reporting(simple(a)), true));
    assert(run(h, st.refreshed(), none) == (st.refreshed(), true));
}

/// Walks follow each other: a list of steps behind another is taken from the state in which the
/// other ends, if it comes to its end.
pub proof fn lemma_walks_follow_each_other(
    h: HeapView,
    st: ScanView,
    first: Seq<Step>,
    second: Seq<Step>,
)
    ensures
        run(h, st, first).1 ==> run(h, st, first + second) == run(
            h,
            run(h, st, first).0,
            second,
        ),
        !run(h, st, first).1 ==> run(h, st, first + second) == run(h, st, first),
{
    lemma_run_concat(h, st, first, second);
}

/// A scan answers with success if and only if its walk comes to its end, and leaves the state in
/// which the walk ends.
pub proof fn lemma_answers(
    h: HeapView,
    st: ScanView,
    steps: Seq<Step>,
    r: Result<(), UnsupportedLayout>,
    after: ScanView,
)
    requires
        outcome(r, after, run(h, st, steps)),
    ensures
        r is Err <==> is_met(h, st, after, steps, Step::Unsupported),
        r is Ok ==> has_taken_all(h, st, after, steps),
        stems_from_steps(h, st, after, steps),
{
    lemma_walk_stops_at_unsupported(h, st, steps);
    lemma_walk_is_sound(h, st, steps);
    if r is Ok {
        lemma_walk_is_complete(h, st, steps);
    }
}

} // verus!
