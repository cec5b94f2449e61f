//! How the collector and the one mutator of a compiled program wait for each other.
//!
//! To collect, the collector asks the mutator to stop and waits until it has. The mutator stops at
//! a safepoint and waits until the collector is done.

use crate::heap::ObjectReference;
use crate::julia_mlir::mutator::MlirOptions;
use crate::memory::{wrap, Address};
use vstd::prelude::*;

verus! {

/// The state that the collector and the mutator share, and the set-up of the collector.
#[derive(Clone, Copy, PartialEq, Eq, Structural, Debug)]
pub struct JuliaMlirCollection {
    /// Whether the collector has been set up, which happens once.
    pub initialized: bool,
    /// What the collector was told when it was set up.
    pub instance: Option<MlirOptions>,
    /// Whether the collector has asked the mutator to stop.
    pub gc_requested: bool,
    /// Whether the mutator has stopped.
    pub mutator_stopped: bool,
    /// Whether the collector is done and the mutator may go on.
    pub gc_done: bool,
    /// The number of collections that the mutator has waited for.
    pub gc_count: u64,
    /// The page that the mutator touches at safepoints; zero if there is none.
    pub safepoint_page: Address,
    /// The mutator; zero before it is bound.
    pub the_mutator: Address,
}

/// What the mutator does at a safepoint.
#[derive(Clone, Copy, PartialEq, Eq, Structural, Debug)]
pub enum SafepointAction {
    /// Go on.
    Continue,
    /// Hand over the barrier buffers of the mutator, if there is one, and wait for a collection.
    FlushAndBlock(Option<Address>),
}

/// An address unless it is zero.
pub open spec fn present(a: u64) -> Option<u64> {
    if a == 0 {
        None
    } else {
        Some(a)
    }
}

impl JuliaMlirCollection {
    /// No collection under way, and no mutator.
    pub fn new() -> (r: JuliaMlirCollection)
        ensures
            r.idle(),
            !r.initialized,
            r.instance is None,
            r.gc_count == 0,
            r.safepoint_page == 0,
            r.the_mutator == 0,
    {
        JuliaMlirCollection {
            initialized: false,
            instance: None,
            gc_requested: false,
            mutator_stopped: false,
            gc_done: false,
            gc_count: 0,
            safepoint_page: 0,
            the_mutator: 0,
        }
    }

    /// Whether no collection is under way.
    pub open spec fn idle(self) -> bool {
        !self.gc_requested && !self.mutator_stopped && !self.gc_done
    }

    /// The state in which the collector has been set up with some options.
    pub open spec fn set_up(self, options: MlirOptions) -> JuliaMlirCollection {
        JuliaMlirCollection { initialized: true, instance: Some(options), ..self }
    }

    /// The state in which the safepoint page is known.
    pub open spec fn with_page(self, page: Address) -> JuliaMlirCollection {
        JuliaMlirCollection { safepoint_page: page, ..self }
    }

    /// The state in which the mutator is asked to stop.
    pub open spec fn stop_asked(self) -> JuliaMlirCollection {
        JuliaMlirCollection { gc_requested: true, ..self }
    }

    /// The state in which the mutator has stopped.
    pub open spec fn stopped(self) -> JuliaMlirCollection {
        JuliaMlirCollection { mutator_stopped: true, ..self }
    }

    /// The state in which the request to stop is taken back.
    pub open spec fn resuming(self) -> JuliaMlirCollection {
        JuliaMlirCollection { gc_requested: false, mutator_stopped: false, ..self }
    }

    /// The state in which the mutator may go on.
    pub open spec fn released(self) -> JuliaMlirCollection {
        JuliaMlirCollection { gc_done: true, ..self }
    }

    /// The state after the mutator has seen whether it may go on. Each collection is counted when
    /// the mutator goes on.
    pub open spec fn polled(self) -> JuliaMlirCollection {
        if self.gc_done {
            JuliaMlirCollection { gc_done: false, gc_count: wrap(self.gc_count + 1), ..self }
        } else {
            self
        }
    }

    /// Asks the mutator to stop. The result says whether the safepoint page has to be armed.
    pub fn stop_all_mutators(&mut self) -> (r: bool)
        ensures
            *final(self) == old(self).stop_asked(),
            r == (old(self).safepoint_page != 0),
    {
        self.gc_requested = true;
        self.safepoint_page != 0
    }

    /// Looks for the mutator while the collector waits. Nothing until the mutator has stopped; then
    /// the mutator to visit, if there is one.
    pub fn stopped_mutator(&self) -> (r: Option<Option<Address>>)
        ensures
            r == (if self.mutator_stopped {
                Some(present(self.the_mutator))
            } else {
                None
            }),
    {
        if !self.mutator_stopped {
            None
        } else if self.the_mutator == 0 {
            Some(None)
        } else {
            Some(Some(self.the_mutator))
        }
    }

    /// Takes back the request to stop. The result says whether the safepoint page has to be
    /// disarmed, which has to happen before the mutator is released.
    pub fn resume_mutators(&mut self) -> (r: bool)
        ensures
            *final(self) == old(self).resuming(),
            r == (old(self).safepoint_page != 0),
    {
        self.gc_requested = false;
        self.mutator_stopped = false;
        self.safepoint_page != 0
    }

    /// Lets the mutator go on.
    pub fn release_mutator(&mut self)
        ensures
            *final(self) == old(self).released(),
    {
        self.gc_done = true;
    }

    /// Stops the mutator.
    pub fn block_for_gc(&mut self)
        ensures
            *final(self) == old(self).stopped(),
    {
        self.mutator_stopped = true;
    }

    /// Looks whether the mutator may go on, while it waits.
    pub fn poll_gc_done(&mut self) -> (r: bool)
        ensures
            r == old(self).gc_done,
            *final(self) == old(self).polled(),
    {
        if self.gc_done {
            self.gc_done = false;
            self.gc_count = self.gc_count.wrapping_add(1);
            true
        } else {
            false
        }
    }

    /// Decides what the mutator does at a safepoint.
    pub fn jlmlir_gc_safepoint(&self) -> (r: SafepointAction)
        ensures
            r == (if self.gc_requested {
                SafepointAction::FlushAndBlock(present(self.the_mutator))
            } else {
                SafepointAction::Continue
            }),
    {
        if !self.gc_requested {
            SafepointAction::Continue
        } else if self.the_mutator == 0 {
            SafepointAction::FlushAndBlock(None)
        } else {
            SafepointAction::FlushAndBlock(Some(self.the_mutator))
        }
    }

    /// Decides what the mutator does when it has touched the armed safepoint page.
    pub fn safepoint_gc_block(&self) -> (r: SafepointAction)
        ensures
            r == SafepointAction::FlushAndBlock(present(self.the_mutator)),
    {
        if self.the_mutator == 0 {
            SafepointAction::FlushAndBlock(None)
        } else {
            SafepointAction::FlushAndBlock(Some(self.the_mutator))
        }
    }

    /// The number of collections.
    pub fn jlmlir_gc_count(&self) -> (r: u64)
        ensures
            r == self.gc_count,
    {
        self.gc_count
    }

    /// Notes the page that the mutator touches at safepoints, which ends the set-up.
    pub fn enter_safepoint_page(&mut self, page: Address)
        ensures
            *final(self) == old(self).with_page(page),
    {
        self.safepoint_page = page;
    }

    /// The page that the mutator touches at safepoints.
    pub fn jlmlir_safepoint_page(&self) -> (r: Address)
        ensures
            r == self.safepoint_page,
    {
        self.safepoint_page
    }

    /// Binds the mutator.
    pub fn jlmlir_bind_mutator(&mut self, mutator: Address)
        ensures
            *final(self) == (JuliaMlirCollection { the_mutator: mutator, ..*old(self) }),
    {
        self.the_mutator = mutator;
    }

    /// Whether collection is switched on: always.
    pub fn is_collection_enabled() -> (r: bool)
        ensures
            r,
    {
        true
    }

    /// The bytes that the program holds outside the heap: none.
    pub fn vm_live_bytes() -> (r: u64)
        ensures
            r == 0,
    {
        0
    }
}

/// A collection leaves everything as it was, but for the count of collections: the collector asks,
/// the mutator stops, the collector resumes, and the mutator goes on.
pub proof fn lemma_collection_cycle(s: JuliaMlirCollection)
    requires
        s.idle(),
    ensures
        ({
            let waiting = s.stop_asked().stopped();
            let after = waiting.resuming().released().polled();
            &&& waiting.mutator_stopped
            &&& after.idle()
            &&& after == (JuliaMlirCollection { gc_count: wrap(s.gc_count + 1), ..s })
        }),
{
}

/// Whether two states have the same set-up: the flag, what the collector was told, and the safepoint
/// page.
pub open spec fn same_set_up(s: JuliaMlirCollection, t: JuliaMlirCollection) -> bool {
    &&& s.initialized == t.initialized
    &&& s.instance == t.instance
    &&& s.safepoint_page == t.safepoint_page
}

/// Nothing that happens in the course of collections changes the set-up.
pub proof fn lemma_collections_keep_set_up(s: JuliaMlirCollection)
    ensures
        same_set_up(s.stop_asked(), s),
        same_set_up(s.stopped(), s),
        same_set_up(s.resuming(), s),
        same_set_up(s.released(), s),
        same_set_up(s.polled(), s),
{
}

/// The mutator waits until it is released: while the collector is not done, looking changes
/// nothing.
pub proof fn lemma_mutator_waits(s: JuliaMlirCollection)
    requires
        s.idle(),
    ensures
        s.stop_asked().stopped().polled() == s.stop_asked().stopped(),
        s.stop_asked().stopped().resuming().polled() == s.stop_asked().stopped().resuming(),
        !s.stop_asked().stopped().resuming().gc_done,
{
}

/// The mutators of a compiled program.
#[derive(Clone, Copy, PartialEq, Eq, Structural, Debug)]
pub struct JuliaMlirActivePlan;

impl JuliaMlirActivePlan {
    /// The number of mutators: one.
    pub fn number_of_mutators() -> (r: u64)
        ensures
            r == 1,
    {
        1
    }

    /// Whether a thread is a mutator: every thread is.
    pub fn is_mutator() -> (r: bool)
        ensures
            r,
    {
        true
    }

    /// Lists the mutators: the one that is bound, if any is.
    pub fn mutators(shared: &JuliaMlirCollection) -> (r: Vec<Address>)
        ensures
            r@ == (match present(shared.the_mutator) {
                None => Seq::<u64>::empty(),
                Some(m) => seq![m],
            }),
    {
        let mut list: Vec<Address> = Vec::new();
        if shared.the_mutator != 0 {
            list.push(shared.the_mutator);
            assert(list@ =~= seq![shared.the_mutator]);
        }
        list
    }

    /// Traces an object that the collector does not manage: it is queued as it is.
    pub fn vm_trace_object(queue: &mut Vec<ObjectReference>, object: ObjectReference) -> (r:
        ObjectReference)
        ensures
            r == object,
            final(queue)@ == old(queue)@.push(object),
    {
        queue.push(object);
        object
    }
}

/// References of special strength: a compiled program has none.
#[derive(Clone, Copy, PartialEq, Eq, Structural, Debug)]
pub struct JuliaMlirReferenceGlue;

impl JuliaMlirReferenceGlue {
    /// The object that a weak reference refers to: none.
    pub fn get_referent(_object: ObjectReference) -> (r: Option<ObjectReference>)
        ensures
            r is None,
    {
        None
    }
}

/// An object with a finalizer that does nothing.
#[derive(Clone, Copy, PartialEq, Eq, Structural, Debug)]
pub struct DummyFinalizable(pub ObjectReference);

impl DummyFinalizable {
    pub fn get_reference(&self) -> (r: ObjectReference)
        ensures
            r == self.0,
    {
        self.0
    }

    pub fn set_reference(&mut self, object: ObjectReference)
        ensures
            final(self).0 == object,
    {
        self.0 = object;
    }
}

} // verus!
