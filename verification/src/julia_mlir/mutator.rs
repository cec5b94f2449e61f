//! What a compiled program asks of the collector while it runs: memory for objects, access to
//! their fields, and barriers.

use crate::api::{GCTriggerSelector, PlanSelector};
use crate::heap::ObjectReference;
use crate::julia_mlir::model::TAG_SIZE;
use crate::julia_mlir::safepoint::JuliaMlirCollection;
use crate::memory::{
    lemma_word_after_store, lemma_wrap_twice, offset_back, offset_by, with_word, word_at, wrap,
    Address, Memory,
};
use crate::object_model::{aligned, llt_align};
use crate::slots::SimpleSlot;
use vstd::prelude::*;

verus! {

/// The plans that a build of the binding asks for.
#[derive(Clone, Copy, PartialEq, Eq, Structural, Debug)]
pub struct MlirFeatures {
    pub immix: bool,
    pub immix_moving: bool,
    pub lxr: bool,
}

/// What the collector is told before it starts.
#[derive(Clone, Copy, PartialEq, Eq, Structural, Debug)]
pub struct MlirOptions {
    pub plan: PlanSelector,
    pub gc_trigger: GCTriggerSelector,
    pub threads: u64,
}

/// The plan of a build: the one that counts references if it is asked for, or else the one that
/// traces, or else none that collects.
pub open spec fn mlir_plan(f: MlirFeatures) -> PlanSelector {
    if f.lxr {
        PlanSelector::LXR
    } else if f.immix || f.immix_moving {
        PlanSelector::Immix
    } else {
        PlanSelector::NoGC
    }
}

/// What the collector is told: a heap of fixed size, and one thread.
pub open spec fn mlir_options(heap_size: u64, features: MlirFeatures) -> MlirOptions {
    MlirOptions {
        plan: mlir_plan(features),
        gc_trigger: GCTriggerSelector::FixedHeapSize(heap_size),
        threads: 1,
    }
}

/// Settles what the collector is told before it starts. A collector is set up once.
pub fn jlmlir_gc_init(
    shared: &mut JuliaMlirCollection,
    heap_size: u64,
    features: MlirFeatures,
) -> (r: MlirOptions)
    requires
        !old(shared).initialized,
    ensures
        r == mlir_options(heap_size, features),
        *final(shared) == old(shared).set_up(r),
{
    let plan = if features.lxr {
        PlanSelector::LXR
    } else if features.immix || features.immix_moving {
        PlanSelector::Immix
    } else {
        PlanSelector::NoGC
    };
    let options = MlirOptions {
        plan,
        gc_trigger: GCTriggerSelector::FixedHeapSize(heap_size),
        threads: 1,
    };
    shared.initialized = true;
    shared.instance = Some(options);
    options
}

/// The set-up was asked for a second time.
#[derive(Clone, Copy, PartialEq, Eq, Structural, Debug)]
pub struct CalledTwice;

/// What a request to set the collector up comes to, and the state that it leaves.
pub open spec fn init_outcome(
    s: JuliaMlirCollection,
    heap_size: u64,
    features: MlirFeatures,
) -> (JuliaMlirCollection, Result<MlirOptions, CalledTwice>) {
    if s.initialized {
        (s, Err(CalledTwice))
    } else {
        let options = mlir_options(heap_size, features);
        (s.set_up(options), Ok(options))
    }
}

/// Sets the collector up unless that has been done: then the request is refused, and nothing
/// changes.
pub fn checked_gc_init(
    shared: &mut JuliaMlirCollection,
    heap_size: u64,
    features: MlirFeatures,
) -> (r: Result<MlirOptions, CalledTwice>)
    ensures
        (*final(shared), r) == init_outcome(*old(shared), heap_size, features),
{
    if shared.initialized {
        Err(CalledTwice)
    } else {
        Ok(jlmlir_gc_init(shared, heap_size, features))
    }
}

/// A collector is set up once. After a set-up that succeeded, with whatever page was entered for it,
/// every further request is refused whatever heap size and plan it asks for. The collector, the
/// safepoint page and the flag stay as they are.
pub proof fn lemma_set_up_once(
    s: JuliaMlirCollection,
    heap_size: u64,
    features: MlirFeatures,
    page: u64,
    later_size: u64,
    later_features: MlirFeatures,
)
    requires
        init_outcome(s, heap_size, features).1 is Ok,
    ensures
        ({
            let running = init_outcome(s, heap_size, features).0.with_page(page);
            &&& running.initialized
            &&& running.instance == Some(mlir_options(heap_size, features))
            &&& running.safepoint_page == page
            &&& init_outcome(running, later_size, later_features) == (
                running,
                Err::<MlirOptions, CalledTwice>(CalledTwice),
            )
        }),
{
}

/// A refusal lasts: whatever state a collector that was set up has come to, a request to set it up
/// again is refused and changes nothing.
pub proof fn lemma_set_up_again_is_refused(
    s: JuliaMlirCollection,
    heap_size: u64,
    features: MlirFeatures,
)
    requires
        s.initialized,
    ensures
        init_outcome(s, heap_size, features) == (s, Err::<MlirOptions, CalledTwice>(CalledTwice)),
{
}

/// What to allocate for an object.
#[derive(Clone, Copy, PartialEq, Eq, Structural, Debug)]
pub struct AllocRequest {
    pub bytes: u64,
    pub align: u64,
    pub offset: u64,
}

/// Says what to allocate for an object with a body of a size: room for the tag as well, padded.
pub fn jlmlir_alloc(body_size: u64) -> (r: AllocRequest)
    requires
        body_size + 23 <= u64::MAX,
    ensures
        r.bytes == aligned(TAG_SIZE + body_size, 16),
        r.align == 16,
        r.offset == 0,
{
    let total_size: u64 = TAG_SIZE + body_size;
    AllocRequest { bytes: llt_align(total_size, 16), align: 16, offset: 0 }
}

/// The body of an object that was allocated at an address; none if nothing was allocated.
pub open spec fn body_of(alloc_start: u64) -> u64 {
    if alloc_start == 0 {
        0
    } else {
        wrap(alloc_start + TAG_SIZE)
    }
}

/// Finds the body of an object that was allocated at an address.
pub fn allocated_body(alloc_start: Address) -> (r: Address)
    ensures
        r == body_of(alloc_start),
{
    if alloc_start == 0 {
        0
    } else {
        offset_by(alloc_start, TAG_SIZE)
    }
}

/// Tags an object that was allocated at an address, and finds its body.
pub fn jlmlir_alloc_typed(memory: &mut Memory, alloc_start: Address, type_tag: u64) -> (r: Address)
    ensures
        r == body_of(alloc_start),
        final(memory)@ == (if r == 0 {
            old(memory)@
        } else {
            with_word(old(memory)@, wrap(r - TAG_SIZE), type_tag)
        }),
{
    let body: u64 = allocated_body(alloc_start);
    if body != 0 {
        memory.store_u64(offset_back(body, TAG_SIZE), type_tag);
    }
    body
}

/// Reads the tag of an object.
pub fn jlmlir_typeof(memory: &Memory, obj: Address) -> (r: u64)
    ensures
        r == word_at(memory@, wrap(obj - TAG_SIZE)),
{
    memory.load_u64(offset_back(obj, TAG_SIZE))
}

/// Reads a field of an object.
pub fn jlmlir_getfield_raw(memory: &Memory, obj: Address, offset: u64) -> (r: u64)
    ensures
        r == word_at(memory@, wrap(obj + offset)),
{
    memory.load_u64(offset_by(obj, offset))
}

/// Writes a field of an object.
pub fn jlmlir_setfield_raw(memory: &mut Memory, obj: Address, offset: u64, value: u64)
    ensures
        final(memory)@ == with_word(old(memory)@, wrap(obj + offset), value),
{
    memory.store_u64(offset_by(obj, offset), value);
}

/// An allocated object has the tag that it was given.
pub proof fn lemma_allocated_object_is_tagged(m: Map<u64, u8>, alloc_start: u64, type_tag: u64)
    requires
        body_of(alloc_start) != 0,
    ensures
        ({
            let tag_addr = wrap(body_of(alloc_start) - TAG_SIZE);
            &&& tag_addr == alloc_start
            &&& word_at(with_word(m, tag_addr, type_tag), tag_addr) == type_tag
        }),
{
    lemma_wrap_twice(alloc_start + TAG_SIZE, -TAG_SIZE);
    lemma_word_after_store(m, alloc_start, type_tag);
}

/// A field holds what was written to it.
pub proof fn lemma_field_holds_what_was_set(m: Map<u64, u8>, obj: u64, offset: u64, value: u64)
    ensures
        word_at(with_word(m, wrap(obj + offset), value), wrap(obj + offset)) == value,
{
    lemma_word_after_store(m, wrap(obj + offset), value);
}

/// What the barrier before a write tells the collector.
#[derive(Clone, Copy, PartialEq, Eq, Structural, Debug)]
pub struct FieldWrite {
    pub src: ObjectReference,
    pub slot: SimpleSlot,
    pub target: Option<ObjectReference>,
}

/// What the barrier before a write tells; nothing if there is no object.
pub open spec fn field_write(src: u64, slot_addr: u64, new_target: u64) -> Option<FieldWrite> {
    if src == 0 {
        None
    } else {
        Some(
            FieldWrite {
                src: ObjectReference { raw: src },
                slot: SimpleSlot { address: slot_addr },
                target: ObjectReference::of_address(new_target),
            },
        )
    }
}

/// The barrier before a write to a field.
pub fn jlmlir_write_barrier_pre(src: Address, slot_addr: Address, new_target: Address) -> (r:
    Option<FieldWrite>)
    ensures
        r == field_write(src, slot_addr, new_target),
{
    match ObjectReference::from_raw_address(src) {
        None => None,
        Some(src_obj) => Some(
            FieldWrite {
                src: src_obj,
                slot: SimpleSlot::from_address(slot_addr),
                target: ObjectReference::from_raw_address(new_target),
            },
        ),
    }
}

/// One thing that a write with a barrier does.
#[derive(Clone, Copy, PartialEq, Eq, Structural, Debug)]
pub enum WriteStep {
    /// Tell the collector.
    Barrier(FieldWrite),
    /// Write the word.
    Store { address: Address, value: u64 },
}

/// A write with a barrier, step by step: the collector is told before the word is written.
pub fn jlmlir_setfield_barrier(obj: Address, offset: u64, value: u64) -> (r: Vec<WriteStep>)
    ensures
        r@ == (match field_write(obj, wrap(obj + offset), value) {
            None => Seq::<WriteStep>::empty(),
            Some(w) => seq![WriteStep::Barrier(w)],
        }).push(WriteStep::Store { address: wrap(obj + offset), value }),
{
    let slot_addr: u64 = offset_by(obj, offset);
    let mut steps: Vec<WriteStep> = Vec::new();
    if let Some(w) = jlmlir_write_barrier_pre(obj, slot_addr, value) {
        steps.push(WriteStep::Barrier(w));
        assert(steps@ =~= seq![WriteStep::Barrier(w)]);
    }
    steps.push(WriteStep::Store { address: slot_addr, value });
    steps
}

/// Where the bits are that say whether a field was logged. Zero if the active plan logs no fields,
/// or if the bits are not kept on the side.
pub fn jlmlir_field_unlog_bit_base_address(plan: PlanSelector, side_offset: Option<u64>) -> (r: u64)
    ensures
        r == (match side_offset {
            Some(offset) if plan == PlanSelector::LXR => offset,
            _ => 0,
        }),
{
    match side_offset {
        Some(offset) => if plan == PlanSelector::LXR {
            offset
        } else {
            0
        },
        None => 0,
    }
}

/// How many address bits one of these bits stands for. Zero if they are not kept on the side.
pub fn jlmlir_field_unlog_bit_log_region(log_bytes_in_region: Option<u64>) -> (r: u64)
    ensures
        r == log_bytes_in_region.unwrap_or(0),
{
    match log_bytes_in_region {
        Some(log) => log,
        None => 0,
    }
}

} // verus!
