//! What the runtime can count on when it calls: which plan and trigger it gets, what its requests
//! come to, and what barriers tell the collector.

use crate::api::{
    counted, decrements, fastpath_is_sound, forced_plan, heap_range, increments,
    is_alloc_size_aligned, jl_gc_mmtk_dec_buf_add, mmtk_active_barrier, mmtk_memory_region_copy,
    mmtk_object_reference_write_field, mmtk_object_reference_write_post,
    mmtk_object_reference_write_post_cmpswap, mmtk_object_reference_write_pre,
    mmtk_object_reference_write_slow, nonheap_call, pin_request, stored_size, trigger_for,
    AllocatorSelector, BarrierCall, BarrierSelector, GCTriggerSelector, PinRequest, PlanFeatures,
    PlanSelector,
};
use crate::heap::{AddressRange, Heap, HeapView, ObjectReference};
use crate::julia_scanning::{judge_probe, Probe};
use crate::layouts::{mmtk_jl_array_ndimwords, mmtk_jl_svecref, mmtk_jl_tparam0};
use crate::memory::{lemma_wrap_twice, wrap};
use crate::slots::{JuliaMemorySlice, JuliaVMSlot};
use vstd::prelude::*;

verus! {

/// A plan is forced if and only if the build asks for some plan; the one that comes first in the
/// order of the list is the one that is forced.
pub proof fn lemma_forced_plan(f: PlanFeatures)
    ensures
        forced_plan(f) is None <==> !f.nogc && !f.marksweep && !f.immix && !f.stickyimmix && !f.lxr,
        forced_plan(f) == Some(PlanSelector::NoGC) <==> f.nogc,
        forced_plan(f) == Some(PlanSelector::MarkSweep) <==> !f.nogc && f.marksweep,
        forced_plan(f) == Some(PlanSelector::Immix) <==> !f.nogc && !f.marksweep && f.immix,
        forced_plan(f) == Some(PlanSelector::StickyImmix) <==> !f.nogc && !f.marksweep && !f.immix
            && f.stickyimmix,
        forced_plan(f) == Some(PlanSelector::LXR) <==> !f.nogc && !f.marksweep && !f.immix
            && !f.stickyimmix && f.lxr,
{
}

/// The runtime decides when to collect if it names no heap size; a least size makes the heap grow
/// between both sizes, and a largest size alone fixes it.
pub proof fn lemma_trigger(min: u64, max: u64)
    ensures
        trigger_for(min, max) is Delegated <==> min == 0 && max == 0,
        trigger_for(min, max) is DynamicHeapSize <==> min != 0,
        trigger_for(min, max) is FixedHeapSize <==> min == 0 && max != 0,
        trigger_for(min, max) matches GCTriggerSelector::DynamicHeapSize(lo, hi) ==> lo == min && hi
            == max,
        trigger_for(min, max) matches GCTriggerSelector::FixedHeapSize(size) ==> size == max,
{
}

/// The count of requests goes up by one and starts again from the bottom behind the top.
pub proof fn lemma_count_goes_up(n: i64)
    ensures
        n < i64::MAX ==> counted(n) == n + 1,
        n == i64::MAX ==> counted(n) == i64::MIN,
{
}

/// The size of a buffer is kept two headers in front of it.
pub proof fn lemma_kept_size(h: HeapView, obj: u64)
    requires
        obj >= 2 * h.config.header_size,
    ensures
        stored_size(h, obj) == h.word((obj - 2 * h.config.header_size) as u64),
{
    assert(wrap(obj - 2 * h.config.header_size) == obj - 2 * h.config.header_size);
}

/// A write to a word outside the heap is told if and only if a reference is lost or won. A captured
/// value stands for the one that is won, so that the word is not read again.
pub proof fn lemma_told_nonheap_writes(old_val: u64, new_val: u64)
    ensures
        nonheap_call(old_val, new_val) is None <==> old_val == 0 && new_val == 0,
        nonheap_call(old_val, new_val) matches Some(call) ==> {
            &&& call is Decrement <==> new_val == 0
            &&& call is NonHeapWrite <==> new_val != 0
            &&& call matches BarrierCall::Decrement(o) ==> o.raw == old_val
            &&& call matches BarrierCall::NonHeapWrite { old_value, new_slot } ==> {
                &&& old_value is Some <==> old_val != 0
                &&& old_value matches Some(o) ==> o.raw == old_val
                &&& new_slot matches JuliaVMSlot::Direct(o) && o.raw == new_val
            }
        },
{
}

/// An address can be read unless the attempt to write from it failed; a word that got through has
/// to be taken out of the pipe again.
pub proof fn lemma_probe(written: i64, r: Probe)
    requires
        call_ensures(judge_probe, (written,), r),
    ensures
        r is Unreadable <==> written == -1,
        r is ReadableAndDrain <==> written == 8,
{
}

/// An array of one or two dimensions needs no extra words for them, any other one less than it has
/// dimensions past the first.
pub proof fn lemma_dimension_words(ndims: u32, r: usize)
    requires
        call_ensures(mmtk_jl_array_ndimwords, (ndims,), r),
    ensures
        ndims <= 2 ==> r == 0,
        ndims > 2 ==> r + 2 == ndims,
{
}

/// The range that barriers look after holds three spaces of one extent and nothing else.
pub proof fn lemma_three_spaces(start: u64, extent: u64, a: u64, r: AddressRange)
    requires
        call_ensures(heap_range, (start, extent), r),
        start + 3 * extent <= u64::MAX,
    ensures
        r.has(a) <==> {
            ||| start <= a < start + extent
            ||| start + extent <= a < start + 2 * extent
            ||| start + 2 * extent <= a < start + 3 * extent
        },
{
}

/// Inlined allocation is sound only over the first space of movable objects, the first bump
/// allocator and an alignment of four bytes.
pub proof fn lemma_sound_fastpath(
    default_allocator: AllocatorSelector,
    immortal_allocator: AllocatorSelector,
    min_alignment: u64,
    r: bool,
)
    requires
        call_ensures(fastpath_is_sound, (default_allocator, immortal_allocator, min_alignment), r),
    ensures
        r ==> (default_allocator matches AllocatorSelector::Immix(n) && n == 0),
        r ==> (immortal_allocator matches AllocatorSelector::BumpPointer(n) && n == 0),
        r ==> min_alignment == 4,
        default_allocator == AllocatorSelector::Immix(0) && immortal_allocator
            == AllocatorSelector::BumpPointer(0) && min_alignment == 4 ==> r,
{
}

/// A size can be allocated if and only if it is a number of whole fours: the sizes that can be are
/// those that lie four bytes apart from zero on.
pub proof fn lemma_allocated_sizes(fours: u64, rest: u64, r: bool)
    requires
        4 * fours + rest <= u64::MAX,
        rest < 4,
        call_ensures(is_alloc_size_aligned, ((4 * fours + rest) as u64,), r),
    ensures
        r <==> rest == 0,
{
}

/// A copy of references reads a run of its source and writes a run of its target: as many words,
/// from the addresses that were given.
pub proof fn lemma_region_copy(
    src_obj: ObjectReference,
    src: u64,
    dst_obj: ObjectReference,
    dst: u64,
    count: u64,
    i: int,
    r: (JuliaMemorySlice, JuliaMemorySlice),
)
    requires
        call_ensures(mmtk_memory_region_copy, (src_obj, src, dst_obj, dst, count), r),
        0 <= i < count,
        src + 8 * count <= u64::MAX,
        dst + 8 * count <= u64::MAX,
    ensures
        r.0.owner == src_obj && r.1.owner == dst_obj,
        r.0.slots().len() == count && r.1.slots().len() == count,
        r.0.slots()[i].address() == src + 8 * i,
        r.1.slots()[i].address() == dst + 8 * i,
{
}

/// The barrier that logs a field tells the collector what the barrier before the write tells: the
/// object, the slot and the new reference.
pub proof fn lemma_field_barrier(
    src: ObjectReference,
    slot: u64,
    target: Option<ObjectReference>,
    pre: BarrierCall,
    field: BarrierCall,
)
    requires
        call_ensures(mmtk_object_reference_write_pre, (src, slot, target), pre),
        call_ensures(mmtk_object_reference_write_field, (src, slot, target), field),
    ensures
        pre == field,
        pre matches BarrierCall::WritePre { src: s, slot: at, target: t } && s == src
            && at.address() == slot && at is Simple && t == target,
{
}

/// The barrier after a write tells of the object and the reference, and of no place; its slow path
/// takes every reference of the object for written.
pub proof fn lemma_barriers_after_a_write(
    src: ObjectReference,
    target: Option<ObjectReference>,
    post: BarrierCall,
    slow: BarrierCall,
)
    requires
        call_ensures(mmtk_object_reference_write_post, (src, target), post),
        call_ensures(mmtk_object_reference_write_slow, (src, target), slow),
    ensures
        post matches BarrierCall::WritePost { src: s, slot: at, target: t } && s == src
            && at.address() == 0 && t == target,
        slow matches BarrierCall::ProbableWrite { src: s } && s == src,
{
}

/// The barrier after an exchange tells of the value that was there and of the one that is there
/// now.
pub proof fn lemma_exchange_barrier(
    src: ObjectReference,
    slot: u64,
    old_val: u64,
    new_val: u64,
    r: BarrierCall,
)
    requires
        call_ensures(
            mmtk_object_reference_write_post_cmpswap,
            (src, slot, old_val, new_val),
            r,
        ),
    ensures
        r matches BarrierCall::Exchanged { src: s, slot: at, old_value, new_value } && {
            &&& s == src && at.address() == slot && at is Simple
            &&& old_value is Some <==> old_val != 0
            &&& old_value matches Some(o) ==> o.raw == old_val
            &&& new_value is Some <==> new_val != 0
            &&& new_value matches Some(o) ==> o.raw == new_val
        },
{
}

/// An object that went out of use loses a reference under the plan that counts references, and
/// under no other; no other object does.
pub proof fn lemma_dropped_reference(
    plan: PlanSelector,
    obj: ObjectReference,
    o: ObjectReference,
    r: Option<BarrierCall>,
)
    requires
        call_ensures(jl_gc_mmtk_dec_buf_add, (plan, obj), r),
    ensures
        decrements(r, o) == (if plan == PlanSelector::LXR && o == obj {
            1int
        } else {
            0
        }),
        increments(r, o) == 0,
{
}

/// A request about a pin reaches the collector if and only if objects move and the collector
/// manages this one.
pub proof fn lemma_pin_requests(
    heap: &Heap,
    object: ObjectReference,
    non_moving: bool,
    r: PinRequest,
)
    requires
        call_ensures(pin_request, (heap, object, non_moving), r),
    ensures
        r is Asked <==> !non_moving && heap@.is_mapped(object.raw),
        r matches PinRequest::Asked(o) ==> o == object,
{
}

/// Different barriers have different names.
pub proof fn lemma_barrier_names(a: BarrierSelector, b: BarrierSelector, x: &str, y: &str)
    requires
        call_ensures(mmtk_active_barrier, (a,), x),
        call_ensures(mmtk_active_barrier, (b,), y),
    ensures
        x@ == y@ <==> a == b,
{
    reveal_strlit("NoBarrier");
    reveal_strlit("ObjectBarrier");
    reveal_strlit("FieldBarrier");
    reveal_strlit("Unknown");
    assert("NoBarrier"@.len() == 9);
    assert("ObjectBarrier"@.len() == 13);
    assert("FieldBarrier"@.len() == 12);
    assert("Unknown"@.len() == 7);
}

/// The elements of a simple vector are read behind its fixed part, by their distance in bytes; the
/// first parameter of a type is the first element of its vector of parameters.
pub proof fn lemma_vector_reads(heap: &Heap, v: u64, i: u64, vt: u64, r: u64, p: u64)
    requires
        call_ensures(mmtk_jl_svecref, (heap, v, i), r),
        call_ensures(mmtk_jl_tparam0, (heap, vt), p),
    ensures
        r == heap@.word(wrap(v + heap@.config.abi.svec_size + i)),
        ({
            let params = heap@.word(wrap(vt + heap@.config.abi.datatype_parameters));
            p == heap@.word(wrap(params + heap@.config.abi.svec_size))
        }),
{
    lemma_wrap_twice(v + heap@.config.abi.svec_size, i as int);
}

} // verus!
