//! The decisions behind the calls that the runtime makes into the collector.

use crate::heap::{AddressRange, Heap, HeapView, ObjectReference};
use crate::memory::{lemma_word_after_store, offset_back, wrap, Address};
use crate::slots::{simple, JuliaMemorySlice, JuliaVMSlot, SimpleSlot};
use crate::traversal::in_immix_or_los;
use std::collections::HashMap;
use vstd::prelude::*;

verus! {

/// The size that was stored for a buffer, two headers in front of it.
pub open spec fn stored_size(h: HeapView, obj: u64) -> u64 {
    h.word(wrap(obj - 2 * h.config.header_size))
}

/// Stores the size of a buffer in front of it.
pub fn store_obj_size(heap: &mut Heap, obj: ObjectReference, size: u64)
    ensures
        final(heap)@ == old(heap)@.with_word(wrap(obj.raw - 16), size),
{
    let addr_size: u64 = offset_back(obj.to_raw_address(), 16);
    heap.store_u64(addr_size, size);
}

/// Stores the size of a buffer in front of it, on behalf of the runtime.
pub fn mmtk_store_obj_size_c(heap: &mut Heap, obj: ObjectReference, size: u64)
    ensures
        final(heap)@ == old(heap)@.with_word(wrap(obj.raw - 16), size),
{
    let addr_size: u64 = offset_back(obj.to_raw_address(), 16);
    heap.store_u64(addr_size, size);
}

/// Reads the size that was stored for a buffer.
pub fn mmtk_get_obj_size(heap: &Heap, obj: ObjectReference) -> (r: u64)
    ensures
        r == stored_size(heap@, obj.raw),
{
    let header: u64 = heap.config.header_size;
    let addr_size: u64 = offset_back(offset_back(obj.to_raw_address(), header), header);
    heap.load_u64(addr_size)
}

/// How the collector works.
#[derive(Clone, Copy, PartialEq, Eq, Structural, Debug)]
pub enum PlanSelector {
    NoGC,
    MarkSweep,
    Immix,
    StickyImmix,
    LXR,
}

/// The plans that a build asks for; the first one in this order counts.
#[derive(Clone, Copy, PartialEq, Eq, Structural, Debug)]
pub struct PlanFeatures {
    pub nogc: bool,
    pub marksweep: bool,
    pub immix: bool,
    pub stickyimmix: bool,
    pub lxr: bool,
}

/// When the collector starts a collection by itself.
#[derive(Clone, Copy, PartialEq, Eq, Structural, Debug)]
pub enum GCTriggerSelector {
    /// By the heuristics of the runtime.
    Delegated,
    /// By a heap size between a minimum and a maximum.
    DynamicHeapSize(u64, u64),
    /// By a fixed heap size.
    FixedHeapSize(u64),
}

/// What the collector is told before it starts.
#[derive(Clone, Copy, PartialEq, Eq, Structural, Debug)]
pub struct GCOptions {
    /// The plan, if the build asks for one.
    pub plan: Option<PlanSelector>,
    pub gc_trigger: GCTriggerSelector,
    /// Whether weak references are left out.
    pub no_reference_types: bool,
    /// The number of collector threads, if the runtime asks for one.
    pub threads: Option<u64>,
    /// The size of an object header.
    pub header_size: u64,
    /// The type tag that marks a buffer.
    pub buffer_tag: u64,
}

/// The plan that a build asks for.
pub open spec fn forced_plan(f: PlanFeatures) -> Option<PlanSelector> {
    if f.nogc {
        Some(PlanSelector::NoGC)
    } else if f.marksweep {
        Some(PlanSelector::MarkSweep)
    } else if f.immix {
        Some(PlanSelector::Immix)
    } else if f.stickyimmix {
        Some(PlanSelector::StickyImmix)
    } else if f.lxr {
        Some(PlanSelector::LXR)
    } else {
        None
    }
}

/// The trigger for a minimum and a maximum heap size, where zero means that none was given.
pub open spec fn trigger_for(min_heap_size: u64, max_heap_size: u64) -> GCTriggerSelector {
    if min_heap_size == 0 && max_heap_size == 0 {
        GCTriggerSelector::Delegated
    } else if min_heap_size != 0 {
        GCTriggerSelector::DynamicHeapSize(min_heap_size, max_heap_size)
    } else {
        GCTriggerSelector::FixedHeapSize(max_heap_size)
    }
}

/// Whether the collector has been set up, which happens once.
#[derive(Clone, Copy, PartialEq, Eq, Structural, Debug)]
pub struct CollectorSetup {
    pub initialized: bool,
}

impl CollectorSetup {
    /// A collector that has not been set up.
    pub fn new() -> (r: CollectorSetup)
        ensures
            !r.initialized,
    {
        CollectorSetup { initialized: false }
    }
}

/// Settles what the collector is told before it starts. A collector is set up once.
pub fn mmtk_gc_init(
    setup: &mut CollectorSetup,
    min_heap_size: u64,
    max_heap_size: u64,
    n_gcthreads: u64,
    header_size: u64,
    buffer_tag: u64,
    features: PlanFeatures,
) -> (r: GCOptions)
    requires
        !old(setup).initialized,
    ensures
        final(setup).initialized,
        r.plan == forced_plan(features),
        r.gc_trigger == trigger_for(min_heap_size, max_heap_size),
        !r.no_reference_types,
        r.threads == (if n_gcthreads > 0 {
            Some(n_gcthreads)
        } else {
            None
        }),
        r.header_size == header_size,
        r.buffer_tag == buffer_tag,
{
    let plan = if features.nogc {
        Some(PlanSelector::NoGC)
    } else if features.marksweep {
        Some(PlanSelector::MarkSweep)
    } else if features.immix {
        Some(PlanSelector::Immix)
    } else if features.stickyimmix {
        Some(PlanSelector::StickyImmix)
    } else if features.lxr {
        Some(PlanSelector::LXR)
    } else {
        None
    };
    let gc_trigger = if min_heap_size == 0 && max_heap_size == 0 {
        GCTriggerSelector::Delegated
    } else if min_heap_size != 0 {
        GCTriggerSelector::DynamicHeapSize(min_heap_size, max_heap_size)
    } else {
        GCTriggerSelector::FixedHeapSize(max_heap_size)
    };
    let threads: Option<u64> = if n_gcthreads > 0 {
        Some(n_gcthreads)
    } else {
        None
    };
    setup.initialized = true;
    GCOptions { plan, gc_trigger, no_reference_types: false, threads, header_size, buffer_tag }
}

/// The range that barriers look after: three spaces side by side, for movable, immortal and large
/// objects.
pub fn heap_range(start: Address, extent: u64) -> (r: AddressRange)
    requires
        start + 3 * extent <= u64::MAX,
    ensures
        r.start == start,
        r.end == start + 3 * extent,
{
    AddressRange { start, end: start + 3 * extent }
}

/// In the range that barriers look after, slots are reported in the first and the third space and
/// nowhere else.
pub proof fn lemma_reported_spaces(start: u64, extent: u64, a: u64)
    requires
        start > 0,
        start + 3 * extent <= u64::MAX,
    ensures
        in_immix_or_los(start, (start + 3 * extent) as u64, a) == ({
            ||| start <= a < start + extent
            ||| start + 2 * extent <= a < start + 3 * extent
        }),
{
}

/// The allocators of the collector that inlined allocation relies on.
#[derive(Clone, Copy, PartialEq, Eq, Structural, Debug)]
pub enum AllocatorSelector {
    BumpPointer(u8),
    LargeObject(u8),
    Malloc(u8),
    Immix(u8),
    MarkCompact(u8),
    FreeList(u8),
    Unassigned,
}

/// The alignment that the runtime counts on.
pub const MIN_ALIGNMENT: u64 = 4;

/// Tests what the allocation that is inlined into compiled code takes for granted: objects come
/// from the first space of movable objects, immortal ones from the first bump allocator, and the
/// alignment is that of the runtime.
pub fn fastpath_is_sound(
    default_allocator: AllocatorSelector,
    immortal_allocator: AllocatorSelector,
    min_alignment: u64,
) -> (r: bool)
    ensures
        r == ({
            &&& default_allocator == AllocatorSelector::Immix(0)
            &&& immortal_allocator == AllocatorSelector::BumpPointer(0)
            &&& min_alignment == MIN_ALIGNMENT
        }),
{
    default_allocator == AllocatorSelector::Immix(0) && immortal_allocator
        == AllocatorSelector::BumpPointer(0) && min_alignment == MIN_ALIGNMENT
}

/// Tests whether a size can be allocated: it is a multiple of the least alignment.
pub fn is_alloc_size_aligned(size: u64) -> (r: bool)
    ensures
        r == (size % MIN_ALIGNMENT == 0),
{
    size % MIN_ALIGNMENT == 0
}

/// The mutators that are bound to the collector: for each the box that it was created in, which
/// has to live as long as the mutator.
pub struct Mutators {
    pub boxes: HashMap<u64, u64>,
}

impl View for Mutators {
    type V = Map<u64, u64>;

    open spec fn view(&self) -> Map<u64, u64> {
        self.boxes@
    }
}

impl Mutators {
    /// No mutators.
    pub fn new() -> (r: Mutators)
        ensures
            r@ == Map::<u64, u64>::empty(),
    {
        Mutators { boxes: HashMap::new() }
    }

    /// Keeps the box of a mutator.
    pub fn mmtk_post_bind_mutator(&mut self, mutator: Address, original_box_mutator: Address)
        ensures
            final(self)@ == old(self)@.insert(mutator, original_box_mutator),
    {
        broadcast use vstd::std_specs::hash::group_hash_axioms;

        self.boxes.insert(mutator, original_box_mutator);
    }

    /// Hands out the box of a bound mutator that has ended, for release.
    pub fn mmtk_destroy_mutator(&mut self, mutator: Address) -> (r: Address)
        requires
            old(self)@.contains_key(mutator),
        ensures
            r == old(self)@[mutator],
            final(self)@ == old(self)@.remove(mutator),
    {
        broadcast use vstd::std_specs::hash::group_hash_axioms;

        let r: Option<u64> = self.boxes.remove(&mutator);
        assert(self@ =~= old(self)@.remove(mutator));
        r.unwrap()
    }
}

/// A mutator that is bound and then ends gives back its box, and the other mutators stay.
pub proof fn lemma_destroy_undoes_bind(m: Map<u64, u64>, mutator: u64, original: u64)
    requires
        !m.contains_key(mutator),
    ensures
        m.insert(mutator, original)[mutator] == original,
        m.insert(mutator, original).remove(mutator) == m,
{
    assert(m.insert(mutator, original).remove(mutator) =~= m);
}

/// What the runtime asks for when it asks for a collection.
#[derive(Clone, Copy, PartialEq, Eq, Structural, Debug)]
pub enum CollectionRequest {
    /// Collection is switched off.
    Ignored,
    /// Collect if the collector sees fit.
    Auto,
    /// Collect everything now.
    Full,
    /// Collect now, but not everything.
    Incremental,
}

/// The number after a number, by the rules of a counter that wraps around.
pub open spec fn counted(n: i64) -> i64 {
    if n == i64::MAX {
        i64::MIN
    } else {
        (n + 1) as i64
    }
}

/// The collections that the runtime has asked for, and whether it has switched collection off.
pub struct UserCollections {
    pub user_triggered: i64,
    pub disabled: bool,
}

impl UserCollections {
    /// Takes a request for a collection. A request counts unless collection is switched off.
    pub fn mmtk_handle_user_collection_request(&mut self, collection: u8) -> (r: CollectionRequest)
        requires
            collection <= 2 || old(self).disabled,
        ensures
            final(self).disabled == old(self).disabled,
            final(self).user_triggered == (if old(self).disabled {
                old(self).user_triggered
            } else {
                counted(old(self).user_triggered)
            }),
            r == (if old(self).disabled {
                CollectionRequest::Ignored
            } else if collection == 0 {
                CollectionRequest::Auto
            } else if collection == 1 {
                CollectionRequest::Full
            } else {
                CollectionRequest::Incremental
            }),
    {
        if self.disabled {
            return CollectionRequest::Ignored;
        }
        self.user_triggered = self.user_triggered.wrapping_add(1);
        match collection {
            0 => CollectionRequest::Auto,
            1 => CollectionRequest::Full,
            _ => CollectionRequest::Incremental,
        }
    }
}

/// The runs of slots for a copy of references from one object to another.
pub fn mmtk_memory_region_copy(
    src_obj: ObjectReference,
    src_addr: Address,
    dst_obj: ObjectReference,
    dst_addr: Address,
    count: u64,
) -> (r: (JuliaMemorySlice, JuliaMemorySlice))
    ensures
        r.0 == (JuliaMemorySlice { owner: src_obj, start: src_addr, count }),
        r.1 == (JuliaMemorySlice { owner: dst_obj, start: dst_addr, count }),
{
    (
        JuliaMemorySlice { owner: src_obj, start: src_addr, count },
        JuliaMemorySlice { owner: dst_obj, start: dst_addr, count },
    )
}

/// What a barrier tells the collector about a write.
#[derive(Clone, Copy, PartialEq, Eq, Structural, Debug)]
pub enum BarrierCall {
    /// A reference was written.
    WritePost { src: ObjectReference, slot: JuliaVMSlot, target: Option<ObjectReference> },
    /// Some reference of the object may be written.
    ProbableWrite { src: ObjectReference },
    /// A reference is about to be written.
    WritePre { src: ObjectReference, slot: JuliaVMSlot, target: Option<ObjectReference> },
    /// A reference was exchanged for another.
    Exchanged {
        src: ObjectReference,
        slot: JuliaVMSlot,
        old_value: Option<ObjectReference>,
        new_value: Option<ObjectReference>,
    },
    /// An object has lost a reference to it.
    Decrement(ObjectReference),
    /// A word outside the heap is about to lose one reference and to get another.
    NonHeapWrite { old_value: Option<ObjectReference>, new_slot: JuliaVMSlot },
}

/// The barrier after a write to an unknown place in an object.
pub fn mmtk_object_reference_write_post(
    src: ObjectReference,
    target: Option<ObjectReference>,
) -> (r: BarrierCall)
    ensures
        r == (BarrierCall::WritePost { src, slot: simple(0), target }),
{
    BarrierCall::WritePost {
        src,
        slot: JuliaVMSlot::Simple(SimpleSlot::from_address(0)),
        target,
    }
}

/// The slow path of a barrier after a write. The place is not known, so that every reference of
/// the object counts as written.
pub fn mmtk_object_reference_write_slow(
    src: ObjectReference,
    _target: Option<ObjectReference>,
) -> (r: BarrierCall)
    ensures
        r == (BarrierCall::ProbableWrite { src }),
{
    BarrierCall::ProbableWrite { src }
}

/// The barrier before a write to a slot.
pub fn mmtk_object_reference_write_pre(
    src: ObjectReference,
    slot: Address,
    target: Option<ObjectReference>,
) -> (r: BarrierCall)
    ensures
        r == (BarrierCall::WritePre { src, slot: simple(slot), target }),
{
    BarrierCall::WritePre {
        src,
        slot: JuliaVMSlot::Simple(SimpleSlot::from_address(slot)),
        target,
    }
}

/// The barrier that logs a field. The barrier before the write does all of its work.
pub fn mmtk_object_reference_write_field(
    src: ObjectReference,
    slot: Address,
    target: Option<ObjectReference>,
) -> (r: BarrierCall)
    ensures
        r == (BarrierCall::WritePre { src, slot: simple(slot), target }),
{
    mmtk_object_reference_write_pre(src, slot, target)
}

/// The barrier after an exchange that has succeeded. The slot holds the new value by then, so that
/// the old one is handed over.
pub fn mmtk_object_reference_write_post_cmpswap(
    src: ObjectReference,
    slot: Address,
    old_val: Address,
    new_val: Address,
) -> (r: BarrierCall)
    ensures
        r == (BarrierCall::Exchanged {
            src,
            slot: simple(slot),
            old_value: ObjectReference::of_address(old_val),
            new_value: ObjectReference::of_address(new_val),
        }),
{
    BarrierCall::Exchanged {
        src,
        slot: JuliaVMSlot::Simple(SimpleSlot::from_address(slot)),
        old_value: ObjectReference::from_raw_address(old_val),
        new_value: ObjectReference::from_raw_address(new_val),
    }
}

/// The barrier before a write to a word outside the heap. The new value is captured, so that the
/// word is not read again when the collector gets to it. Nothing is told if there was no value and
/// there will be none.
pub fn mmtk_object_reference_write_pre_nonheap(
    _src: ObjectReference,
    old_val: Address,
    new_val: Address,
) -> (r: Option<BarrierCall>)
    ensures
        r == nonheap_call(old_val, new_val),
{
    let old_value = ObjectReference::from_raw_address(old_val);
    if new_val == 0 {
        match old_value {
            None => None,
            Some(o) => Some(BarrierCall::Decrement(o)),
        }
    } else {
        let new_slot = JuliaVMSlot::Direct(ObjectReference { raw: new_val });
        Some(BarrierCall::NonHeapWrite { old_value, new_slot })
    }
}

/// The references that a barrier call takes away, counted for an object.
pub open spec fn decrements(call: Option<BarrierCall>, o: ObjectReference) -> int {
    match call {
        Some(BarrierCall::Decrement(x)) if x == o => 1,
        Some(BarrierCall::NonHeapWrite { old_value, .. }) if old_value == Some(o) => 1,
        _ => 0,
    }
}

/// The references that a barrier call adds, counted for an object.
pub open spec fn increments(call: Option<BarrierCall>, o: ObjectReference) -> int {
    match call {
        Some(
            BarrierCall::NonHeapWrite { new_slot, .. },
        ) if new_slot == JuliaVMSlot::Direct(o) => 1,
        _ => 0,
    }
}

/// What the barrier before a write to a word outside the heap tells: the value that is lost and a
/// captured value that is won; nothing if there was no value and there will be none.
pub open spec fn nonheap_call(old_val: u64, new_val: u64) -> Option<BarrierCall> {
    if new_val != 0 {
        Some(
            BarrierCall::NonHeapWrite {
                old_value: ObjectReference::of_address(old_val),
                new_slot: JuliaVMSlot::Direct(ObjectReference { raw: new_val }),
            },
        )
    } else if old_val != 0 {
        Some(BarrierCall::Decrement(ObjectReference { raw: old_val }))
    } else {
        None
    }
}

/// A write to a word outside the heap takes one reference from the old value and gives one to the
/// new value, and touches no other object.
pub proof fn lemma_nonheap_write_is_balanced(old_val: u64, new_val: u64, o: ObjectReference)
    requires
        o.wf(),
    ensures
        decrements(nonheap_call(old_val, new_val), o) == (if o.raw == old_val {
            1int
        } else {
            0
        }),
        increments(nonheap_call(old_val, new_val), o) == (if o.raw == new_val {
            1int
        } else {
            0
        }),
{
}

/// The barrier that the active plan uses.
#[derive(Clone, Copy, PartialEq, Eq, Structural, Debug)]
pub enum BarrierSelector {
    NoBarrier,
    ObjectBarrier,
    FieldBarrier,
    Other,
}

/// Names the barrier that the active plan uses.
pub fn mmtk_active_barrier(barrier: BarrierSelector) -> (r: &'static str)
    ensures
        r@ == (match barrier {
            BarrierSelector::NoBarrier => "NoBarrier"@,
            BarrierSelector::ObjectBarrier => "ObjectBarrier"@,
            BarrierSelector::FieldBarrier => "FieldBarrier"@,
            BarrierSelector::Other => "Unknown"@,
        }),
{
    match barrier {
        BarrierSelector::NoBarrier => "NoBarrier",
        BarrierSelector::ObjectBarrier => "ObjectBarrier",
        BarrierSelector::FieldBarrier => "FieldBarrier",
        BarrierSelector::Other => "Unknown",
    }
}

/// Takes a reference from an object that went out of use. Only the plan that counts references
/// hears of it.
pub fn jl_gc_mmtk_dec_buf_add(plan: PlanSelector, obj: ObjectReference) -> (r: Option<BarrierCall>)
    ensures
        r == (if plan == PlanSelector::LXR {
            Some(BarrierCall::Decrement(obj))
        } else {
            None
        }),
{
    if plan == PlanSelector::LXR {
        Some(BarrierCall::Decrement(obj))
    } else {
        None
    }
}

/// Tests whether the collector has mapped an address.
pub fn mmtk_is_mapped_address(heap: &Heap, address: Address) -> (r: bool)
    ensures
        r == heap@.is_mapped(address),
{
    heap.is_mapped(address)
}

/// Tests whether an address is managed by the collector.
pub fn mmtk_object_is_managed_by_mmtk(heap: &Heap, addr: Address) -> (r: bool)
    ensures
        r == heap@.is_mapped(addr),
{
    mmtk_is_mapped_address(heap, addr)
}

/// What becomes of a request about the pin of an object.
pub enum PinRequest {
    /// Nothing moves, or the collector does not manage the object: the answer is no.
    Refused,
    /// The collector answers.
    Asked(ObjectReference),
}

/// Decides whether a request to pin an object, to unpin it or to tell whether it is pinned goes to
/// the collector.
pub fn pin_request(heap: &Heap, object: ObjectReference, non_moving: bool) -> (r: PinRequest)
    ensures
        r == (if non_moving || !heap@.is_mapped(object.raw) {
            PinRequest::Refused
        } else {
            PinRequest::Asked(object)
        }),
{
    if !non_moving && mmtk_object_is_managed_by_mmtk(heap, object.to_raw_address()) {
        PinRequest::Asked(object)
    } else {
        PinRequest::Refused
    }
}

/// With headers of eight bytes, the size that is read for a buffer is the size that was stored.
pub proof fn lemma_size_read_is_size_stored(h: HeapView, obj: u64, size: u64)
    requires
        h.config.header_size == 8,
    ensures
        stored_size(h.with_word(wrap(obj - 16), size), obj) == size,
{
    lemma_word_after_store(h.memory, wrap(obj - 16), size);
}

} // verus!
