use mmtk_julia::api::{GCTriggerSelector, PlanSelector};
use mmtk_julia::heap::ObjectReference;
use mmtk_julia::julia_mlir::model::{JuliaMlirObjectModel, JuliaMlirScanning};
use mmtk_julia::julia_mlir::mutator::{
    allocated_body, checked_gc_init, jlmlir_alloc, jlmlir_alloc_typed, jlmlir_field_unlog_bit_base_address,
    jlmlir_field_unlog_bit_log_region, jlmlir_gc_init, jlmlir_getfield_raw,
    jlmlir_setfield_barrier, jlmlir_setfield_raw, jlmlir_typeof, jlmlir_write_barrier_pre,
    AllocRequest, CalledTwice, FieldWrite, MlirFeatures, WriteStep,
};
use mmtk_julia::julia_mlir::roots::{GlobalRoots, RootStack};
use mmtk_julia::julia_mlir::safepoint::{
    DummyFinalizable, JuliaMlirActivePlan, JuliaMlirCollection, JuliaMlirReferenceGlue,
    SafepointAction,
};
use mmtk_julia::julia_scanning::ObjectKind;
use mmtk_julia::memory::Memory;
use mmtk_julia::object_model::CopyRequest;
use mmtk_julia::slots::SimpleSlot;

const DESC: u64 = 0x9000;
const BODY: u64 = 0x1008;

fn object(raw: u64) -> ObjectReference {
    ObjectReference { raw }
}

fn slot(address: u64) -> SimpleSlot {
    SimpleSlot { address }
}

/// An object at `BODY` with a type descriptor at `DESC`.
fn described(instance_size: u64, nfields: u64, flags: u64, bitmap: u64, element: u64) -> Memory {
    let mut m = Memory::new();
    m.store_u64(BODY - 8, DESC);
    m.store_u64(DESC + 8, instance_size);
    m.store_u64(DESC + 16, nfields);
    m.store_u64(DESC + 32, flags);
    m.store_u64(DESC + 48, bitmap);
    m.store_u64(DESC + 56, element);
    m
}

#[test]
fn sizes_follow_the_type_descriptor() {
    let size = |m: &Memory| JuliaMlirObjectModel::get_current_size(m, object(BODY));
    assert_eq!(size(&Memory::new()), 16);
    assert_eq!(size(&described(24, 3, 0, 0, 0)), 32);
    assert_eq!(size(&described(25, 3, 0, 0, 0)), 48);
    let mut memory = described(0, 0, 0x10, 0, 4);
    memory.store_u64(BODY, 5);
    assert_eq!(size(&memory), 48);
    let mut array = described(0, 0, 0x8, 0, 8);
    array.store_u64(BODY, 1);
    array.store_u64(BODY + 8, 3);
    assert_eq!(size(&array), 64);
    assert_eq!(JuliaMlirObjectModel::get_size_when_copied(&array, object(BODY)), 64);
    array.store_u64(BODY + 8, u64::MAX);
    assert_eq!(JuliaMlirObjectModel::checked_size(&array, object(BODY)), None);
    assert_eq!(JuliaMlirObjectModel::checked_size(&memory, object(BODY)), Some(48));
}

#[test]
fn kinds_follow_the_type_descriptor() {
    let kind = |m: &Memory| JuliaMlirScanning::get_obj_kind(m, object(BODY));
    assert_eq!(kind(&Memory::new()), ObjectKind::Scalar);
    assert_eq!(kind(&described(8, 1, 0, 1, 8)), ObjectKind::Scalar);
    assert_eq!(kind(&described(8, 1, 0x10, 1, 8)), ObjectKind::ObjArray(8));
    assert_eq!(kind(&described(8, 1, 0x10, 2, 8)), ObjectKind::ValArray);
    assert_eq!(kind(&described(8, 1, 0x8, 3, 16)), ObjectKind::ObjArray(16));
    let values = described(8, 1, 0x8, 0, 8);
    assert!(JuliaMlirScanning::is_val_array(&values, object(BODY)));
    assert!(!JuliaMlirScanning::is_obj_array(&values, object(BODY)));
}

#[test]
fn only_marked_fields_are_reported() {
    let slots = |m: &Memory| JuliaMlirScanning::scan_object(m, object(BODY));
    assert_eq!(slots(&described(24, 3, 0, 0b101, 0)), vec![slot(BODY), slot(BODY + 16)]);
    assert_eq!(slots(&described(16, 2, 0, 0b101, 0)), vec![slot(BODY)]);
    assert_eq!(slots(&described(24, 3, 0, 0, 0)), vec![]);
    assert_eq!(slots(&described(24, 3, 1, 0b101, 0)), vec![]);
    assert_eq!(slots(&Memory::new()), vec![]);
    assert_eq!(slots(&described(800, 100, 0, 1 << 63, 0)), vec![slot(BODY + 63 * 8)]);
}

#[test]
fn elements_are_reported_if_they_are_references() {
    let slots = |m: &Memory| JuliaMlirScanning::scan_object_with_klass(m, object(BODY), DESC);
    let mut memory = described(0, 0, 0x10, 1, 8);
    memory.store_u64(BODY, 2);
    assert_eq!(slots(&memory), vec![slot(BODY + 8), slot(BODY + 16)]);
    memory.store_u64(DESC + 48, 0);
    assert_eq!(slots(&memory), vec![]);
    let mut array = described(0, 0, 0x8, 1, 8);
    array.store_u64(BODY, 2);
    array.store_u64(BODY + 8, 4);
    assert_eq!(slots(&array), vec![slot(BODY + 16), slot(BODY + 24), slot(BODY + 32)]);
    array.store_u64(DESC + 48, 2);
    assert_eq!(slots(&array), vec![slot(BODY + 16)]);
}

#[test]
fn copies_keep_the_object() {
    let mut m = described(16, 2, 0, 1, 0);
    m.store_u64(BODY, 5);
    m.store_u64(BODY + 8, 6);
    let request = JuliaMlirObjectModel::copy_request(&m, object(BODY));
    assert_eq!(request, CopyRequest { bytes: 32, align: 16, offset: 8 });
    let copy = JuliaMlirObjectModel::copy(&mut m, object(BODY), 0x2000);
    assert_eq!(copy, object(0x2008));
    assert_eq!(m.load_u64(0x2008), 5);
    assert_eq!(m.load_u64(0x2010), 6);
    assert_eq!(JuliaMlirObjectModel::get_class_pointer(&m, copy), DESC);
    assert_eq!(JuliaMlirObjectModel::get_current_size(&m, copy), 32);
    assert_eq!(JuliaMlirObjectModel::ref_to_object_start(copy), 0x2000);
    assert_eq!(JuliaMlirObjectModel::ref_to_header(copy), 0x2008);
    assert_eq!(JuliaMlirObjectModel::get_align_when_copied(copy), 16);
    assert_eq!(JuliaMlirObjectModel::get_align_offset_when_copied(copy), 0);
    assert_eq!(JuliaMlirObjectModel::dump_object_s(copy), "<standalone object>");
}

#[test]
fn stacks_of_references_are_roots() {
    let mut m = Memory::new();
    let mut stack = RootStack { base: 0, top_addr: 0 };
    assert_eq!(JuliaMlirScanning::scan_multiple_thread_root(&m, &stack).len(), 0);
    stack.jlmlir_gc_set_root_stack(0x4000, 0x5000);
    assert_eq!(JuliaMlirScanning::scan_roots_in_mutator_thread(&m, &stack).len(), 0);
    m.store_u64(0x5000, 0x4018);
    m.store_u64(0x4000, 0x111);
    m.store_u64(0x4010, 0x333);
    assert_eq!(
        JuliaMlirScanning::scan_roots_in_mutator_thread(&m, &stack),
        vec![vec![object(0x111), object(0x333)]]
    );
    assert_eq!(
        JuliaMlirScanning::scan_multiple_thread_root(&m, &stack),
        vec![vec![slot(0x4000), slot(0x4008), slot(0x4010)]]
    );
}

#[test]
fn deep_stacks_fill_several_packets() {
    let mut m = Memory::new();
    let stack = RootStack { base: 0x10_0000, top_addr: 0x5000 };
    m.store_u64(0x5000, 0x10_0000 + 8 * 5000);
    let packets = JuliaMlirScanning::scan_multiple_thread_root(&m, &stack);
    assert_eq!(packets.len(), 2);
    assert_eq!(packets[0].len(), 4096);
    assert_eq!(packets[1].len(), 904);
    assert_eq!(packets[1][903], slot(0x10_0000 + 8 * 4999));
}

#[test]
fn registered_slots_are_roots() {
    let mut m = Memory::new();
    let mut globals = GlobalRoots { base: 0, count: 0 };
    globals.jlmlir_gc_add_global_root(&mut m, 0x7000);
    assert_eq!(globals.count, 1);
    assert_eq!(JuliaMlirScanning::scan_vm_specific_roots(&m, &globals).len(), 0);
    globals.jlmlir_gc_init_global_roots(0x6000, 16);
    globals.jlmlir_gc_add_global_root(&mut m, 0x7000);
    globals.jlmlir_gc_add_global_root(&mut m, 0x7008);
    globals.jlmlir_gc_add_global_root(&mut m, 0x7010);
    assert_eq!(m.load_u64(0x6008), 0x7008);
    m.store_u64(0x7000, 0x111);
    m.store_u64(0x7010, 0x333);
    assert_eq!(
        JuliaMlirScanning::scan_vm_specific_roots(&m, &globals),
        vec![vec![object(0x111), object(0x333)]]
    );
}

#[test]
fn objects_are_allocated_with_a_tag() {
    assert_eq!(jlmlir_alloc(0), AllocRequest { bytes: 16, align: 16, offset: 0 });
    assert_eq!(jlmlir_alloc(8).bytes, 16);
    assert_eq!(jlmlir_alloc(9).bytes, 32);
    assert_eq!(allocated_body(0), 0);
    assert_eq!(allocated_body(0x1000), 0x1008);
    let mut m = Memory::new();
    assert_eq!(jlmlir_alloc_typed(&mut m, 0, DESC), 0);
    let body = jlmlir_alloc_typed(&mut m, 0x1000, DESC);
    assert_eq!(body, 0x1008);
    assert_eq!(jlmlir_typeof(&m, body), DESC);
    jlmlir_setfield_raw(&mut m, body, 16, 42);
    assert_eq!(jlmlir_getfield_raw(&m, body, 16), 42);
    assert_eq!(jlmlir_getfield_raw(&m, body, 8), 0);
}

#[test]
fn writes_are_told_before_they_happen() {
    let told = FieldWrite { src: object(0x1008), slot: slot(0x1018), target: Some(object(7)) };
    assert_eq!(jlmlir_write_barrier_pre(0x1008, 0x1018, 7), Some(told));
    assert_eq!(jlmlir_write_barrier_pre(0, 0x1018, 7), None);
    let cleared = jlmlir_write_barrier_pre(0x1008, 0x1018, 0);
    assert_eq!(cleared, Some(FieldWrite { target: None, ..told }));
    assert_eq!(
        jlmlir_setfield_barrier(0x1008, 16, 7),
        vec![WriteStep::Barrier(told), WriteStep::Store { address: 0x1018, value: 7 }]
    );
    assert_eq!(
        jlmlir_setfield_barrier(0, 16, 7),
        vec![WriteStep::Store { address: 16, value: 7 }]
    );
}

#[test]
fn builds_choose_a_plan() {
    let plan = |immix: bool, immix_moving: bool, lxr: bool| {
        let features = MlirFeatures { immix, immix_moving, lxr };
        jlmlir_gc_init(&mut JuliaMlirCollection::new(), 1000, features).plan
    };
    assert_eq!(plan(false, false, false), PlanSelector::NoGC);
    assert_eq!(plan(true, false, false), PlanSelector::Immix);
    assert_eq!(plan(false, true, false), PlanSelector::Immix);
    assert_eq!(plan(true, false, true), PlanSelector::LXR);
    let features = MlirFeatures { immix: false, immix_moving: false, lxr: false };
    let mut shared = JuliaMlirCollection::new();
    let options = jlmlir_gc_init(&mut shared, 1000, features);
    assert!(shared.initialized);
    assert_eq!(shared.instance, Some(options));
    assert_eq!(options.gc_trigger, GCTriggerSelector::FixedHeapSize(1000));
    assert_eq!(options.threads, 1);
}

#[test]
fn a_second_set_up_is_refused() {
    let features = MlirFeatures { immix: true, immix_moving: false, lxr: false };
    let other = MlirFeatures { immix: false, immix_moving: false, lxr: true };
    let mut shared = JuliaMlirCollection::new();
    let options = checked_gc_init(&mut shared, 1000, features);
    assert!(options.is_ok());
    shared.enter_safepoint_page(0x3000);
    let running = shared;
    assert!(running.initialized);
    assert_eq!(running.instance, options.ok());
    assert_eq!(running.jlmlir_safepoint_page(), 0x3000);
    assert_eq!(checked_gc_init(&mut shared, 1000, features), Err(CalledTwice));
    assert_eq!(checked_gc_init(&mut shared, 0, other), Err(CalledTwice));
    assert_eq!(shared, running);
}

#[test]
fn log_bits_are_there_for_one_plan() {
    assert_eq!(jlmlir_field_unlog_bit_base_address(PlanSelector::LXR, Some(0x5000)), 0x5000);
    assert_eq!(jlmlir_field_unlog_bit_base_address(PlanSelector::LXR, None), 0);
    assert_eq!(jlmlir_field_unlog_bit_base_address(PlanSelector::Immix, Some(0x5000)), 0);
    assert_eq!(jlmlir_field_unlog_bit_log_region(Some(3)), 3);
    assert_eq!(jlmlir_field_unlog_bit_log_region(None), 0);
}

#[test]
fn a_collection_counts_once_and_leaves_no_trace() {
    let mut shared = JuliaMlirCollection::new();
    shared.jlmlir_bind_mutator(0x77);
    let before = shared;
    assert_eq!(shared.jlmlir_gc_safepoint(), SafepointAction::Continue);
    assert!(!shared.stop_all_mutators());
    assert_eq!(shared.stopped_mutator(), None);
    assert_eq!(shared.jlmlir_gc_safepoint(), SafepointAction::FlushAndBlock(Some(0x77)));
    shared.block_for_gc();
    assert!(!shared.poll_gc_done());
    assert_eq!(shared.stopped_mutator(), Some(Some(0x77)));
    assert!(!shared.resume_mutators());
    assert!(!shared.poll_gc_done());
    shared.release_mutator();
    assert!(shared.poll_gc_done());
    assert_eq!(shared.jlmlir_gc_count(), 1);
    assert_eq!(shared, JuliaMlirCollection { gc_count: 1, ..before });
}

#[test]
fn the_safepoint_page_is_armed_if_there_is_one() {
    let mut shared = JuliaMlirCollection { safepoint_page: 0x3000, ..JuliaMlirCollection::new() };
    assert_eq!(shared.jlmlir_safepoint_page(), 0x3000);
    assert!(shared.stop_all_mutators());
    assert_eq!(shared.safepoint_gc_block(), SafepointAction::FlushAndBlock(None));
    shared.block_for_gc();
    assert_eq!(shared.stopped_mutator(), Some(None));
    assert!(shared.resume_mutators());
    assert!(JuliaMlirCollection::is_collection_enabled());
    assert_eq!(JuliaMlirCollection::vm_live_bytes(), 0);
}

#[test]
fn there_is_one_mutator() {
    let mut shared = JuliaMlirCollection::new();
    assert_eq!(JuliaMlirActivePlan::mutators(&shared), vec![]);
    shared.jlmlir_bind_mutator(0x77);
    assert_eq!(JuliaMlirActivePlan::mutators(&shared), vec![0x77]);
    assert_eq!(JuliaMlirActivePlan::number_of_mutators(), 1);
    assert!(JuliaMlirActivePlan::is_mutator());
    let mut queue = vec![object(1)];
    assert_eq!(JuliaMlirActivePlan::vm_trace_object(&mut queue, object(2)), object(2));
    assert_eq!(queue, vec![object(1), object(2)]);
    assert_eq!(JuliaMlirReferenceGlue::get_referent(object(1)), None);
    let mut finalizable = DummyFinalizable(object(1));
    finalizable.set_reference(object(2));
    assert_eq!(finalizable.get_reference(), object(2));
}
