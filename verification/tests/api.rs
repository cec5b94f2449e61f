use mmtk_julia::api::{
    fastpath_is_sound, heap_range, is_alloc_size_aligned, jl_gc_mmtk_dec_buf_add,
    mmtk_active_barrier, mmtk_gc_init, mmtk_memory_region_copy, mmtk_object_reference_write_field,
    mmtk_object_reference_write_post, mmtk_object_reference_write_post_cmpswap,
    mmtk_object_reference_write_pre, mmtk_object_reference_write_pre_nonheap,
    mmtk_object_reference_write_slow, AllocatorSelector, BarrierCall, BarrierSelector,
    CollectionRequest, CollectorSetup, GCTriggerSelector, Mutators, PlanFeatures, PlanSelector, UserCollections,
};
use mmtk_julia::heap::ObjectReference;
use mmtk_julia::slots::{JuliaMemorySlice, JuliaVMSlot, SimpleSlot};

const NO_PLAN: PlanFeatures =
    PlanFeatures { nogc: false, marksweep: false, immix: false, stickyimmix: false, lxr: false };

fn object(raw: u64) -> ObjectReference {
    ObjectReference { raw }
}

fn simple_at(address: u64) -> JuliaVMSlot {
    JuliaVMSlot::Simple(SimpleSlot { address })
}

#[test]
fn the_first_plan_of_a_build_counts() {
    let plan = |f: PlanFeatures| mmtk_gc_init(&mut CollectorSetup::new(), 0, 0, 0, 8, 0, f).plan;
    assert_eq!(plan(NO_PLAN), None);
    let mut f = NO_PLAN;
    f.lxr = true;
    assert_eq!(plan(f), Some(PlanSelector::LXR));
    f.stickyimmix = true;
    assert_eq!(plan(f), Some(PlanSelector::StickyImmix));
    f.immix = true;
    assert_eq!(plan(f), Some(PlanSelector::Immix));
    f.marksweep = true;
    assert_eq!(plan(f), Some(PlanSelector::MarkSweep));
    f.nogc = true;
    assert_eq!(plan(f), Some(PlanSelector::NoGC));
}

#[test]
fn heap_sizes_choose_the_trigger() {
    let trigger = |min: u64, max: u64| {
        mmtk_gc_init(&mut CollectorSetup::new(), min, max, 0, 8, 0, NO_PLAN).gc_trigger
    };
    assert_eq!(trigger(0, 0), GCTriggerSelector::Delegated);
    assert_eq!(trigger(10, 20), GCTriggerSelector::DynamicHeapSize(10, 20));
    assert_eq!(trigger(10, 0), GCTriggerSelector::DynamicHeapSize(10, 0));
    assert_eq!(trigger(0, 20), GCTriggerSelector::FixedHeapSize(20));
    let options = mmtk_gc_init(&mut CollectorSetup::new(), 0, 0, 4, 8, 0x4eadc000, NO_PLAN);
    assert_eq!(options.threads, Some(4));
    assert_eq!(options.header_size, 8);
    assert_eq!(options.buffer_tag, 0x4eadc000);
    assert!(!options.no_reference_types);
    assert_eq!(
        mmtk_gc_init(&mut CollectorSetup::new(), 0, 0, 0, 8, 0, NO_PLAN).threads,
        None
    );
}

#[test]
fn a_collector_is_set_up_once() {
    let mut setup = CollectorSetup::new();
    assert!(!setup.initialized);
    mmtk_gc_init(&mut setup, 0, 0, 0, 8, 0, NO_PLAN);
    assert!(setup.initialized);
}

#[test]
fn the_heap_is_three_spaces_long() {
    let range = heap_range(0x1000, 0x100);
    assert_eq!(range.start, 0x1000);
    assert_eq!(range.end, 0x1300);
}

#[test]
fn inlined_allocation_is_checked() {
    let default = AllocatorSelector::Immix(0);
    let immortal = AllocatorSelector::BumpPointer(0);
    assert!(fastpath_is_sound(default, immortal, 4));
    assert!(!fastpath_is_sound(AllocatorSelector::Immix(1), immortal, 4));
    assert!(!fastpath_is_sound(default, AllocatorSelector::Unassigned, 4));
    assert!(!fastpath_is_sound(default, immortal, 8));
    assert!(is_alloc_size_aligned(12));
    assert!(!is_alloc_size_aligned(10));
}

#[test]
fn mutators_keep_their_boxes_until_they_end() {
    let mut mutators = Mutators::new();
    mutators.mmtk_post_bind_mutator(0x10, 0x100);
    mutators.mmtk_post_bind_mutator(0x20, 0x200);
    assert_eq!(mutators.mmtk_destroy_mutator(0x10), 0x100);
    assert_eq!(mutators.boxes.get(&0x10), None);
    assert_eq!(mutators.boxes.get(&0x20), Some(&0x200));
}

#[test]
fn requests_for_collections_count_unless_switched_off() {
    let mut requests = UserCollections { user_triggered: 0, disabled: false };
    assert_eq!(requests.mmtk_handle_user_collection_request(0), CollectionRequest::Auto);
    assert_eq!(requests.mmtk_handle_user_collection_request(1), CollectionRequest::Full);
    assert_eq!(requests.mmtk_handle_user_collection_request(2), CollectionRequest::Incremental);
    assert_eq!(requests.user_triggered, 3);
    requests.disabled = true;
    assert_eq!(requests.mmtk_handle_user_collection_request(1), CollectionRequest::Ignored);
    assert_eq!(requests.mmtk_handle_user_collection_request(9), CollectionRequest::Ignored);
    assert_eq!(requests.user_triggered, 3);
}

#[test]
fn region_copies_name_two_runs() {
    let (src, dst) = mmtk_memory_region_copy(object(1), 0x10, object(2), 0x20, 3);
    assert_eq!(src, JuliaMemorySlice { owner: object(1), start: 0x10, count: 3 });
    assert_eq!(dst, JuliaMemorySlice { owner: object(2), start: 0x20, count: 3 });
}

#[test]
fn barriers_tell_the_collector() {
    let src = object(1);
    let target = Some(object(2));
    assert_eq!(
        mmtk_object_reference_write_post(src, target),
        BarrierCall::WritePost { src, slot: simple_at(0), target }
    );
    assert_eq!(
        mmtk_object_reference_write_slow(src, target),
        BarrierCall::ProbableWrite { src }
    );
    let pre = BarrierCall::WritePre { src, slot: simple_at(0x30), target };
    assert_eq!(mmtk_object_reference_write_pre(src, 0x30, target), pre);
    assert_eq!(mmtk_object_reference_write_field(src, 0x30, target), pre);
    assert_eq!(
        mmtk_object_reference_write_post_cmpswap(src, 0x30, 0, 2),
        BarrierCall::Exchanged { src, slot: simple_at(0x30), old_value: None, new_value: target }
    );
}

#[test]
fn writes_outside_the_heap_are_balanced() {
    let src = object(1);
    assert_eq!(mmtk_object_reference_write_pre_nonheap(src, 0, 0), None);
    assert_eq!(
        mmtk_object_reference_write_pre_nonheap(src, 7, 0),
        Some(BarrierCall::Decrement(object(7)))
    );
    assert_eq!(
        mmtk_object_reference_write_pre_nonheap(src, 7, 9),
        Some(BarrierCall::NonHeapWrite {
            old_value: Some(object(7)),
            new_slot: JuliaVMSlot::Direct(object(9))
        })
    );
    assert_eq!(
        mmtk_object_reference_write_pre_nonheap(src, 0, 9),
        Some(BarrierCall::NonHeapWrite {
            old_value: None,
            new_slot: JuliaVMSlot::Direct(object(9))
        })
    );
}

#[test]
fn only_counting_plans_hear_of_decrements() {
    assert_eq!(
        jl_gc_mmtk_dec_buf_add(PlanSelector::LXR, object(7)),
        Some(BarrierCall::Decrement(object(7)))
    );
    assert_eq!(jl_gc_mmtk_dec_buf_add(PlanSelector::Immix, object(7)), None);
}

#[test]
fn barriers_have_names() {
    assert_eq!(mmtk_active_barrier(BarrierSelector::NoBarrier), "NoBarrier");
    assert_eq!(mmtk_active_barrier(BarrierSelector::ObjectBarrier), "ObjectBarrier");
    assert_eq!(mmtk_active_barrier(BarrierSelector::FieldBarrier), "FieldBarrier");
    assert_eq!(mmtk_active_barrier(BarrierSelector::Other), "Unknown");
}
