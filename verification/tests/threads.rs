use mmtk_julia::api::{
    mmtk_is_mapped_address, mmtk_object_is_managed_by_mmtk, pin_request, PinRequest,
};
use mmtk_julia::gcstack::{
    gc_ptr_tag, get_stack_addr, is_stack_scannable, mmtk_scan_gcstack, read_stack,
};
use mmtk_julia::heap::{AddressRange, Heap, JuliaConfig, ObjectReference};
use mmtk_julia::julia_scanning::ObjectKind;
use mmtk_julia::julia_types::{BitField, JuliaAbi, KnownTypes, SmallTags};
use mmtk_julia::layouts::{
    mmtk_jl_bt_entry_jlvalue, mmtk_jl_bt_entry_jlvalue_slot, mmtk_jl_bt_entry_size,
    mmtk_jl_bt_is_native, mmtk_jl_bt_num_jlvals, mmtk_jl_bt_num_uintvals,
};
use mmtk_julia::scanning::{
    is_thread_scannable, list_thread_roots, list_thread_tasks, live_slots, process_object,
    root_packets, scan_ptls_roots, SweepVMSpecific, VMScanning,
};
use mmtk_julia::slots::{JuliaVMSlot, OffsetSlot, SimpleSlot, TypeTagSlot};
use mmtk_julia::traversal::{Scanner, UnsupportedLayout};

const SYM: u64 = 0x2000_1000;
const MODULE: u64 = 0x2000_2000;
const NAME: u64 = 0x2000_3000;
const MEM_NAME: u64 = 0x2000_4000;
const ARRAY_NAME: u64 = 0x2000_5000;
const REF_NAME: u64 = 0x2000_6000;
const TYPE: u64 = 0x2000_7000;
const LAYOUT: u64 = 0x2000_8000;
const OBJ: u64 = 0x1000_1010;

fn bits(offset: u64, shift: u16, mask: u16) -> BitField {
    BitField { offset, shift, mask }
}

fn abi() -> JuliaAbi {
    JuliaAbi {
        svec_size: 8,
        svec_length: 0,
        datatype_size: 64,
        datatype_name: 0,
        datatype_super: 8,
        datatype_parameters: 16,
        datatype_layout: 40,
        datatype_smalltag: bits(56, 0, 0xff),
        datatype_zeroinit: bits(58, 2, 1),
        typename_name: 0,
        typename_module: 8,
        typename_wrapper: 32,
        typename_typeofwrapper: 40,
        typename_names: 16,
        typename_cache: 48,
        typename_linearcache: 56,
        typename_partial: 64,
        layout_header_size: 20,
        layout_size: 0,
        layout_nfields: 4,
        layout_npointers: 8,
        layout_first_ptr: 12,
        layout_fielddesc_type: bits(18, 1, 3),
        layout_arrayelem_isboxed: bits(18, 3, 1),
        layout_arrayelem_isunion: bits(18, 4, 1),
        module_size: 200,
        module_bindings: 8,
        module_bindingkeyset: 16,
        module_parent: 24,
        module_usings_backedges: 32,
        module_scanned_methods: 40,
        module_usings: 48,
        arraylist_len: 0,
        arraylist_items: 16,
        arraylist_space: 24,
        task_size: 300,
        task_gcstack: 8,
        task_excstack: 16,
        task_ptls: 24,
        task_tid: 32,
        task_stkbuf: 40,
        task_copy_stack: 48,
        task_copy_stack_mask: 0x7fff_ffff,
        array_ptr_or_offset: 0,
        array_mem: 8,
        array_dimsize: 16,
        genericmemory_size: 16,
        genericmemory_length: 0,
        genericmemory_ptr: 8,
        symbol_size: 24,
        gcframe_nroots: 0,
        gcframe_prev: 8,
        tls_root_task: 8,
        tls_live_tasks_len: 16,
        tls_live_tasks_items: 24,
        tls_current_task: 32,
        tls_next_task: 40,
        tls_previous_task: 48,
        tls_previous_exception: 56,
        tls_bt_size: 64,
        tls_bt_data: 72,
    }
}

fn tags() -> SmallTags {
    SmallTags {
        datatype: 2,
        unionall: 3,
        uniontype: 4,
        vararg: 5,
        tvar: 6,
        symbol: 7,
        module: 8,
        simplevector: 9,
        string: 10,
        task: 11,
        max_tags: 64,
    }
}

fn config() -> JuliaConfig {
    JuliaConfig {
        abi: abi(),
        tags: tags(),
        types: KnownTypes {
            datatype_type_addr: 0,
            symbol_type: 0x2000_9000,
            weakref_type: 0x2000_a000,
            task_type: 0x2000_b000,
            array_typename: ARRAY_NAME,
            genericmemory_typename: MEM_NAME,
            genericmemoryref_typename: REF_NAME,
        },
        header_size: 8,
        buff_tag: 0x4eadc000,
        heap_start: 0x1000_0000,
        heap_end: 0x4000_0000,
    }
}

fn put16(h: &mut Heap, a: u64, v: u16) {
    h.memory.store_u8(a, v as u8);
    h.memory.store_u8(a + 1, (v >> 8) as u8);
}

fn put32(h: &mut Heap, a: u64, v: u32) {
    put16(h, a, v as u16);
    put16(h, a + 2, (v >> 16) as u16);
}

fn put_name(h: &mut Heap, at: u64) {
    h.store_u64(at, SYM);
    h.store_u64(at + 8, MODULE);
}

fn put_type(h: &mut Heap, at: u64, name: u64, layout: u64) {
    h.store_u64(at - 8, 2 * 16);
    h.store_u64(at, name);
    h.store_u64(at + 8, 0);
    h.store_u64(at + 40, layout);
    h.store_u64(at + 48, 0);
}

fn put_layout(h: &mut Heap, at: u64, size: u32, npointers: u32, first_ptr: u32, flags: u16) {
    put32(h, at, size);
    put32(h, at + 4, 0);
    put32(h, at + 8, npointers);
    put32(h, at + 12, first_ptr);
    put16(h, at + 16, 8);
    put16(h, at + 18, flags);
}

fn heap() -> Heap {
    let mut h = Heap::new(config());
    h.mapped.push(AddressRange { start: 0x1000_0000, end: 0x4000_0000 });
    h.spaces.push(AddressRange { start: 0x1000_0000, end: 0x4000_0000 });
    h.store_u64(SYM - 8, 7 * 16);
    let mut i: u64 = 0;
    for b in [b'F', b'o', b'o', 0u8] {
        h.memory.store_u8(SYM + 24 + i, b);
        i += 1;
    }
    h.store_u64(MODULE - 8, 8 * 16);
    put_name(&mut h, NAME);
    put_name(&mut h, MEM_NAME);
    put_name(&mut h, ARRAY_NAME);
    put_name(&mut h, REF_NAME);
    h
}

const PTLS: u64 = 0x7000_0000;
const TASK: u64 = 0x7000_1000;
const FRAME: u64 = 0x7000_2000;

fn simple_at(address: u64) -> JuliaVMSlot {
    JuliaVMSlot::Simple(SimpleSlot { address })
}

/// A thread whose current task has one frame of the given number of roots.
fn thread_with_frame(nroots: u64) -> Heap {
    let mut h = heap();
    h.store_u64(PTLS + 32, TASK);
    h.store_u64(TASK + 8, FRAME);
    h.store_u64(FRAME, nroots);
    h.store_u64(FRAME + 8, 0);
    h
}

#[test]
fn frames_of_slots_hand_on_what_their_roots_point_to() {
    let mut h = thread_with_frame((2 << 2) | 1);
    h.store_u64(FRAME + 16, 0x1000_2000);
    h.store_u64(FRAME + 24, 0x1000_2008);
    let mut scanner = Scanner::new(1);
    assert!(is_stack_scannable(&h, TASK, false, 1));
    assert_eq!(mmtk_scan_gcstack(&h, TASK, &mut scanner, false), Ok(()));
    assert_eq!(scanner.slots, vec![simple_at(0x1000_2000), simple_at(0x1000_2008)]);
}

#[test]
fn frames_of_values_hand_on_their_roots() {
    // The stack lies outside the heap; its roots are reported all the same.
    let mut h = thread_with_frame(6 << 2);
    let frame: u64 = FRAME;
    h.store_u64(frame + 16, 0x1000_2000);
    h.store_u64(frame + 24, 0x1000_3003);
    h.store_u64(frame + 32, 0x1000_3010);
    h.store_u64(frame + 40, 0x1000_3021);
    h.store_u64(frame + 48, 0x1000_3030);
    h.store_u64(frame + 56, 0x1000_2010);
    let mut scanner = Scanner::new(1);
    assert_eq!(mmtk_scan_gcstack(&h, TASK, &mut scanner, false), Ok(()));
    assert_eq!(
        scanner.slots,
        vec![
            simple_at(frame + 16),
            JuliaVMSlot::Offset(OffsetSlot { slot_addr: frame + 40, offset: 1 }),
            simple_at(frame + 56)
        ]
    );
    assert!(gc_ptr_tag(5, 1));
    assert!(!gc_ptr_tag(4, 3));
}

#[test]
fn frame_slots_are_reported_wherever_they_lie() {
    let mut h = thread_with_frame((3 << 2) | 1);
    // One slot outside the heap, none, and one among the immortal objects.
    h.store_u64(FRAME + 16, 0x7000_9000);
    h.store_u64(FRAME + 24, 0);
    h.store_u64(FRAME + 32, 0x2000_9000);
    let mut scanner = Scanner::new(1);
    assert_eq!(mmtk_scan_gcstack(&h, TASK, &mut scanner, false), Ok(()));
    assert_eq!(scanner.slots, vec![simple_at(0x7000_9000), simple_at(0x2000_9000)]);
    assert!(scanner.visited.is_empty());
}

#[test]
fn chains_of_plain_frames_report_all_their_roots() {
    let mut h = thread_with_frame(2 << 2);
    let outer: u64 = 0x7000_3000;
    h.store_u64(FRAME + 8, outer);
    h.store_u64(FRAME + 16, 0x1000_2000);
    h.store_u64(FRAME + 24, 0);
    h.store_u64(outer, 1 << 2);
    h.store_u64(outer + 8, 0);
    h.store_u64(outer + 16, 0x3000_2000);
    let mut scanner = Scanner::new(1);
    assert_eq!(mmtk_scan_gcstack(&h, TASK, &mut scanner, false), Ok(()));
    assert_eq!(
        scanner.slots,
        vec![simple_at(FRAME + 16), simple_at(FRAME + 24), simple_at(outer + 16)]
    );
    // Only slots that hold a reference become roots.
    assert_eq!(
        VMScanning::scan_multiple_thread_root(&h, &vec![PTLS], &mut Scanner::new(1), false),
        Ok(vec![vec![simple_at(FRAME + 16), simple_at(outer + 16), simple_at(PTLS + 32)]])
    );
}

#[test]
fn frames_are_followed_to_the_end_of_the_chain() {
    let mut h = thread_with_frame((1 << 2) | 1);
    let outer: u64 = 0x7000_3000;
    h.store_u64(FRAME + 8, outer);
    h.store_u64(FRAME + 16, 0x1000_2000);
    h.store_u64(outer, (1 << 2) | 1);
    h.store_u64(outer + 8, 0);
    h.store_u64(outer + 16, 0x1000_5000);
    assert!(!is_stack_scannable(&h, TASK, false, 1));
    assert!(is_stack_scannable(&h, TASK, false, 2));
    let mut scanner = Scanner::new(1);
    assert_eq!(mmtk_scan_gcstack(&h, TASK, &mut scanner, false), Ok(()));
    assert_eq!(scanner.slots, vec![simple_at(0x1000_2000), simple_at(0x1000_5000)]);
    h.store_u64(outer + 8, FRAME);
    assert!(!is_stack_scannable(&h, TASK, false, 1000));
    assert!(!is_thread_scannable(&h, PTLS, false, 1000));
}

#[test]
fn copied_stacks_are_read_from_their_buffer() {
    let mut h = heap();
    // The stack from 0x8000_0000 up to 0x8000_1000 was copied to 0x9000_0000.
    h.stack_bases.insert(3, 0x8000_1000);
    put16(&mut h, TASK + 32, 3);
    h.store_u64(TASK + 40, 0x9000_0000);
    put32(&mut h, TASK + 48, 0x1000);
    h.store_u64(TASK + 24, 0);
    h.store_u64(TASK + 8, 0x8000_0100);
    h.store_u64(0x8000_0100, 0);
    h.store_u64(0x9000_0100, (1 << 2) | 1);
    h.store_u64(0x9000_0108, 0);
    h.store_u64(0x9000_0110, 0x1000_2000);
    let mut scanner = Scanner::new(1);
    assert!(is_stack_scannable(&h, TASK, true, 1));
    assert_eq!(mmtk_scan_gcstack(&h, TASK, &mut scanner, true), Ok(()));
    assert_eq!(scanner.slots, vec![simple_at(0x1000_2000)]);
    assert_eq!(get_stack_addr(0x8000_0100, 0x1000_0000, 0x8000_0000, 0x8000_1000), 0x9000_0100);
    assert_eq!(get_stack_addr(0x8000_1000, 0x1000_0000, 0x8000_0000, 0x8000_1000), 0x8000_1000);
    assert_eq!(read_stack(&h, 0x8000_0110, 0x1000_0000, 0x8000_0000, 0x8000_1000), 0x1000_2000);
    assert_eq!(read_stack(&h, 0x8000_0200, 0x1000_0000, 0x8000_0000, 0x8000_1000), 0);
    put16(&mut h, TASK + 32, 0xffff);
    assert!(!is_stack_scannable(&h, TASK, true, 1));
}

#[test]
fn exceptions_are_handed_on() {
    let mut h = heap();
    h.store_u64(TASK + 16, 1);
    h.exception_slots.insert(TASK, vec![0x1000_2000, 0x1000_2008]);
    let mut scanner = Scanner::new(1);
    assert_eq!(mmtk_scan_gcstack(&h, TASK, &mut scanner, false), Ok(()));
    assert_eq!(scanner.slots, vec![simple_at(0x1000_2000), simple_at(0x1000_2008)]);
}

#[test]
fn threads_report_stacks_before_fields() {
    let mut h = thread_with_frame((2 << 2) | 1);
    h.store_u64(FRAME + 16, 0x1000_2000);
    h.store_u64(FRAME + 24, 0x1000_2008);
    // Only the first of the two slots holds a reference.
    h.store_u64(0x1000_2000, 0x1000_6000);
    h.store_u64(PTLS + 56, 0x1000_7000);
    assert!(is_thread_scannable(&h, PTLS, false, 10));
    let mut scanner = Scanner::new(1);
    scanner.slots.push(simple_at(1));
    let packets = VMScanning::scan_roots_in_mutator_thread(&h, PTLS, &mut scanner, false);
    assert_eq!(
        packets,
        Ok(vec![vec![simple_at(0x1000_2000), simple_at(PTLS + 32), simple_at(PTLS + 56)]])
    );
    assert_eq!(scanner.slots, vec![simple_at(1)]);
}

#[test]
fn threads_report_all_their_tasks() {
    let mut h = heap();
    h.store_u64(PTLS + 8, 0x7100_0000);
    h.store_u64(PTLS + 32, 0x7200_0000);
    h.store_u64(PTLS + 40, 0x7300_0000);
    h.store_u64(PTLS + 48, 0x7400_0000);
    h.store_u64(PTLS + 16, 2);
    h.store_u64(PTLS + 24, 0x7500_0000);
    h.store_u64(0x7500_0008, TASK);
    h.store_u64(TASK + 16, 1);
    h.exception_slots.insert(TASK, vec![0x1000_2000]);
    assert_eq!(
        list_thread_tasks(&h, PTLS),
        vec![0x7100_0000, 0, TASK, 0x7200_0000, 0x7300_0000, 0x7400_0000]
    );
    let mut scanner = Scanner::new(1);
    let mut roots = Vec::new();
    assert_eq!(scan_ptls_roots(&h, PTLS, &mut roots, &mut scanner, false), Ok(()));
    assert_eq!(scanner.slots, vec![simple_at(0x1000_2000)]);
    assert_eq!(
        roots,
        vec![
            simple_at(PTLS + 8),
            simple_at(PTLS + 32),
            simple_at(PTLS + 40),
            simple_at(PTLS + 48)
        ]
    );
}

#[test]
fn backtraces_hold_references() {
    let mut h = heap();
    let bt: u64 = 0x7600_0000;
    h.store_u64(PTLS + 64, 6);
    h.store_u64(PTLS + 72, bt);
    h.store_u64(bt, 0x1234);
    h.store_u64(bt + 8, 0xffff_ffff_ffff_ffff);
    h.store_u64(bt + 16, 2 | (1 << 3));
    h.store_u64(bt + 24, 0x1000_2000);
    h.store_u64(bt + 32, 0x1000_2008);
    assert_eq!(
        list_thread_roots(&h, PTLS),
        vec![simple_at(bt + 24), simple_at(bt + 32)]
    );
    assert!(mmtk_jl_bt_is_native(&h, bt));
    assert_eq!(mmtk_jl_bt_entry_size(&h, bt), 1);
    assert_eq!(mmtk_jl_bt_entry_size(&h, bt + 8), 5);
    assert_eq!(mmtk_jl_bt_num_jlvals(&h, bt + 8), 2);
    assert_eq!(mmtk_jl_bt_num_uintvals(&h, bt + 8), 1);
    assert_eq!(mmtk_jl_bt_entry_jlvalue_slot(bt + 8, 1), bt + 32);
    assert_eq!(mmtk_jl_bt_entry_jlvalue(&h, bt + 8, 0).to_raw_address(), 0x1000_2000);
}

#[test]
fn several_threads_share_the_packets() {
    let mut h = heap();
    let other: u64 = 0x7700_0000;
    h.store_u64(PTLS + 56, 1);
    h.store_u64(other + 56, 1);
    let mut scanner = Scanner::new(1);
    let packets =
        VMScanning::scan_multiple_thread_root(&h, &vec![PTLS, other], &mut scanner, false);
    assert_eq!(packets, Ok(vec![vec![simple_at(PTLS + 56), simple_at(other + 56)]]));
    let none = VMScanning::scan_multiple_thread_root(&h, &vec![], &mut scanner, false);
    assert_eq!(none, Ok(vec![]));
}

#[test]
fn unsupported_layouts_end_the_scan_of_threads() {
    let mut h = thread_with_frame(0);
    // The task holds an exception: an immortal object with a layout of an unknown class.
    put_layout(&mut h, LAYOUT, 24, 2, 0, 3 << 1);
    put_type(&mut h, TYPE, NAME, LAYOUT);
    let obj: u64 = 0x2002_0000;
    h.store_u64(obj - 8, TYPE);
    h.store_u64(TASK + 16, 1);
    h.exception_slots.insert(TASK, vec![obj]);
    let mut scanner = Scanner::new(1);
    let packets = VMScanning::scan_multiple_thread_root(&h, &vec![PTLS], &mut scanner, false);
    assert_eq!(packets, Err(UnsupportedLayout));
}

#[test]
fn packets_hold_4096_roots() {
    let roots: Vec<u64> = (0..8193).collect();
    let packets = root_packets(&roots);
    assert_eq!(packets.len(), 3);
    assert_eq!(packets[0].len(), 4096);
    assert_eq!(packets[2], vec![8192]);
    let again: Vec<u64> = packets.concat();
    assert_eq!(again, roots);
}

#[test]
fn empty_slots_are_left_out() {
    let mut h = heap();
    h.store_u64(0x1000_2008, 7);
    let slots = vec![simple_at(0x1000_2000), simple_at(0x1000_2008)];
    assert_eq!(live_slots(&h, &slots), vec![simple_at(0x1000_2008)]);
}

#[test]
fn sweeping_is_noted() {
    let mut work = SweepVMSpecific::new();
    assert!(!work.swept);
    assert!(!SweepVMSpecific::default().swept);
    work.finish();
    assert!(work.swept);
}

#[test]
fn objects_are_scanned_through_the_scanner_of_the_runtime() {
    let mut h = heap();
    put_layout(&mut h, LAYOUT, 8, 1, 0, 1 << 3);
    put_type(&mut h, TYPE, MEM_NAME, LAYOUT);
    h.store_u64(OBJ - 8, TYPE);
    h.store_u64(OBJ, 1);
    h.store_u64(OBJ + 8, 0x1000_2000);
    let o = ObjectReference { raw: OBJ };
    let expected = vec![
        JuliaVMSlot::TypeTag(TypeTagSlot { address: OBJ - 8 }),
        simple_at(0x1000_2000),
    ];
    let mut scanner = Scanner::new(1);
    assert_eq!(VMScanning::scan_object(&h, o, &mut scanner), Ok(()));
    assert_eq!(scanner.slots, expected);
    let mut scanner = Scanner::new(1);
    assert_eq!(process_object(&h, o, &mut scanner), Ok(()));
    assert_eq!(scanner.slots, expected);
    let mut scanner = Scanner::new(1);
    assert_eq!(VMScanning::scan_object_with_klass(&h, o, &mut scanner, TYPE), Ok(()));
    assert_eq!(scanner.slots, expected);
    assert_eq!(VMScanning::get_obj_kind(&h, o), ObjectKind::ObjArray(1));
    assert!(VMScanning::is_obj_array(&h, o));
    assert!(!VMScanning::is_val_array(&h, o));
    assert_eq!(VMScanning::obj_array_data(&h, o).count, 1);
}

#[test]
fn pins_are_asked_for_where_objects_move() {
    let h = heap();
    let o = ObjectReference { raw: OBJ };
    assert!(matches!(pin_request(&h, o, false), PinRequest::Asked(x) if x == o));
    assert!(matches!(pin_request(&h, o, true), PinRequest::Refused));
    let foreign = ObjectReference { raw: 0x5000_0000 };
    assert!(matches!(pin_request(&h, foreign, false), PinRequest::Refused));
    assert!(mmtk_object_is_managed_by_mmtk(&h, OBJ));
    assert!(!mmtk_is_mapped_address(&h, 0x5000_0000));
}
