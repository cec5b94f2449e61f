use mmtk_julia::api::{mmtk_get_obj_size, mmtk_store_obj_size_c, store_obj_size};
use mmtk_julia::datatypes::{
    is_valid_datatype, is_valid_datatype_struct, mmtk_jl_to_typeof, mmtk_jl_to_typeof_resolving,
    mmtk_jl_typetagof, resolve_datatype_ptr, resolve_forwarded_datatype_addr,
    safe_jl_datatype_type,
};
use mmtk_julia::diagnostics::{
    corruption_warning, debug_describe_julia_object, debug_julia_object_tag_is_valid, debug_julia_object_type_name,
    debug_symbol_name, describe_from, symbol_name_bytes, type_name_from,
};
use mmtk_julia::heap::{AddressRange, Heap, JuliaConfig, ObjectReference};
use mmtk_julia::julia_scanning::{
    get_julia_obj_array_data, get_julia_obj_kind, is_address_readable, is_julia_obj_array,
    is_julia_val_array, is_valid_julia_object, judge_probe, process_offset_slot, process_slot,
    scan_genericmemory_with_type, scan_julia_object, scan_julia_object_with_type,
    update_array_ptr_or_offset_if_needed, ObjectKind, Probe,
};
use mmtk_julia::julia_types::{BitField, JuliaAbi, KnownTypes, SmallTags};
use mmtk_julia::layouts::{
    mmtk_jl_array_ndimwords, mmtk_jl_dt_layout_fields, mmtk_jl_dt_layout_ptrs,
    mmtk_jl_fielddesc_size, mmtk_jl_is_uniontype, mmtk_jl_svec_data, mmtk_jl_svec_len,
    mmtk_jl_svecref, mmtk_jl_tparam0,
};
use mmtk_julia::object_model::{
    checked_object_size, find_suspect, find_unsound_tag, get_object_start_ref, get_so_object_size, is_object_in_los, llt_align,
    CopyRequest, VMObjectModel,
};
use mmtk_julia::slots::{
    JuliaMemorySlice, JuliaVMSlot, OffsetSlot, SimpleSlot, TypeTagSlot,
};
use mmtk_julia::traversal::{mmtk_address_is_in_immix_or_los, Scanner, UnsupportedLayout};

const SYM: u64 = 0x2000_1000;
const MODULE: u64 = 0x2000_2000;
const NAME: u64 = 0x2000_3000;
const MEM_NAME: u64 = 0x2000_4000;
const ARRAY_NAME: u64 = 0x2000_5000;
const REF_NAME: u64 = 0x2000_6000;
const TYPE: u64 = 0x2000_7000;
const LAYOUT: u64 = 0x2000_8000;
const OBJ: u64 = 0x1000_1010;

fn bits(offset: u64, shift: u16, mask: u16) -> BitField {
    BitField { offset, shift, mask }
}

fn abi() -> JuliaAbi {
    JuliaAbi {
        svec_size: 8,
        svec_length: 0,
        datatype_size: 64,
        datatype_name: 0,
        datatype_super: 8,
        datatype_parameters: 16,
        datatype_layout: 40,
        datatype_smalltag: bits(56, 0, 0xff),
        datatype_zeroinit: bits(58, 2, 1),
        typename_name: 0,
        typename_module: 8,
        typename_wrapper: 32,
        typename_typeofwrapper: 40,
        typename_names: 16,
        typename_cache: 48,
        typename_linearcache: 56,
        typename_partial: 64,
        layout_header_size: 20,
        layout_size: 0,
        layout_nfields: 4,
        layout_npointers: 8,
        layout_first_ptr: 12,
        layout_fielddesc_type: bits(18, 1, 3),
        layout_arrayelem_isboxed: bits(18, 3, 1),
        layout_arrayelem_isunion: bits(18, 4, 1),
        module_size: 200,
        module_bindings: 8,
        module_bindingkeyset: 16,
        module_parent: 24,
        module_usings_backedges: 32,
        module_scanned_methods: 40,
        module_usings: 48,
        arraylist_len: 0,
        arraylist_items: 16,
        arraylist_space: 24,
        task_size: 300,
        task_gcstack: 8,
        task_excstack: 16,
        task_ptls: 24,
        task_tid: 32,
        task_stkbuf: 40,
        task_copy_stack: 48,
        task_copy_stack_mask: 0x7fff_ffff,
        array_ptr_or_offset: 0,
        array_mem: 8,
        array_dimsize: 16,
        genericmemory_size: 16,
        genericmemory_length: 0,
        genericmemory_ptr: 8,
        symbol_size: 24,
        gcframe_nroots: 0,
        gcframe_prev: 8,
        tls_root_task: 8,
        tls_live_tasks_len: 16,
        tls_live_tasks_items: 24,
        tls_current_task: 32,
        tls_next_task: 40,
        tls_previous_task: 48,
        tls_previous_exception: 56,
        tls_bt_size: 64,
        tls_bt_data: 72,
    }
}

fn tags() -> SmallTags {
    SmallTags {
        datatype: 2,
        unionall: 3,
        uniontype: 4,
        vararg: 5,
        tvar: 6,
        symbol: 7,
        module: 8,
        simplevector: 9,
        string: 10,
        task: 11,
        max_tags: 64,
    }
}

fn config() -> JuliaConfig {
    JuliaConfig {
        abi: abi(),
        tags: tags(),
        types: KnownTypes {
            datatype_type_addr: 0,
            symbol_type: 0x2000_9000,
            weakref_type: 0x2000_a000,
            task_type: 0x2000_b000,
            array_typename: ARRAY_NAME,
            genericmemory_typename: MEM_NAME,
            genericmemoryref_typename: REF_NAME,
        },
        header_size: 8,
        buff_tag: 0x4eadc000,
        heap_start: 0x1000_0000,
        heap_end: 0x4000_0000,
    }
}

fn put16(h: &mut Heap, a: u64, v: u16) {
    h.memory.store_u8(a, v as u8);
    h.memory.store_u8(a + 1, (v >> 8) as u8);
}

fn put32(h: &mut Heap, a: u64, v: u32) {
    put16(h, a, v as u16);
    put16(h, a + 2, (v >> 16) as u16);
}

fn put_name(h: &mut Heap, at: u64) {
    h.store_u64(at, SYM);
    h.store_u64(at + 8, MODULE);
}

fn put_type(h: &mut Heap, at: u64, name: u64, layout: u64) {
    h.store_u64(at - 8, 2 * 16);
    h.store_u64(at, name);
    h.store_u64(at + 8, 0);
    h.store_u64(at + 40, layout);
    h.store_u64(at + 48, 0);
}

fn put_layout(h: &mut Heap, at: u64, size: u32, npointers: u32, first_ptr: u32, flags: u16) {
    put32(h, at, size);
    put32(h, at + 4, 0);
    put32(h, at + 8, npointers);
    put32(h, at + 12, first_ptr);
    put16(h, at + 16, 8);
    put16(h, at + 18, flags);
}

fn heap() -> Heap {
    let mut h = Heap::new(config());
    h.mapped.push(AddressRange { start: 0x1000_0000, end: 0x4000_0000 });
    h.spaces.push(AddressRange { start: 0x1000_0000, end: 0x4000_0000 });
    h.store_u64(SYM - 8, 7 * 16);
    let mut i: u64 = 0;
    for b in [b'F', b'o', b'o', 0u8] {
        h.memory.store_u8(SYM + 24 + i, b);
        i += 1;
    }
    h.store_u64(MODULE - 8, 8 * 16);
    put_name(&mut h, NAME);
    put_name(&mut h, MEM_NAME);
    put_name(&mut h, ARRAY_NAME);
    put_name(&mut h, REF_NAME);
    h
}

fn object(raw: u64) -> ObjectReference {
    ObjectReference { raw }
}

fn simple_at(address: u64) -> JuliaVMSlot {
    JuliaVMSlot::Simple(SimpleSlot { address })
}

fn tag_at(address: u64) -> JuliaVMSlot {
    JuliaVMSlot::TypeTag(TypeTagSlot { address })
}

fn interior_at(slot_addr: u64, offset: u64) -> JuliaVMSlot {
    JuliaVMSlot::Offset(OffsetSlot { slot_addr, offset })
}

fn scanned(h: &Heap, obj: u64) -> Vec<JuliaVMSlot> {
    let mut scanner = Scanner::new(1);
    assert_eq!(scan_julia_object(h, obj, &mut scanner), Ok(()));
    scanner.slots
}

/// A generic memory at `OBJ` with the given length and data pointer.
fn put_memory(h: &mut Heap, length: u64, data: u64) {
    put_type(h, TYPE, MEM_NAME, LAYOUT);
    h.store_u64(OBJ - 8, TYPE);
    h.store_u64(OBJ, length);
    h.store_u64(OBJ + 8, data);
}

#[test]
fn settings_are_checked() {
    let mut h = heap();
    assert!(h.is_well_formed());
    h.config.abi.layout_fielddesc_type.mask = 4;
    assert!(!h.is_well_formed());
    h.config = config();
    h.config.tags.max_tags = 65;
    assert!(!h.config.is_well_formed());
    h.config = config();
    h.config.tags.task = 64;
    assert!(!h.config.is_well_formed());
    h.config = config();
    h.config.heap_end = h.config.heap_start - 8;
    assert!(!h.config.is_well_formed());
    // A bound that is zero is not known yet.
    h.config.heap_end = 0;
    assert!(h.config.is_well_formed());
    assert!(!mmtk_address_is_in_immix_or_los(&h.config, 0x1000_0000));
    h.config = config();
    h.config.heap_start = 0;
    assert!(h.config.is_well_formed());
    assert!(!mmtk_address_is_in_immix_or_los(&h.config, 8));
    h.config = config();
    h.small_typeof.pop();
    assert!(!h.is_well_formed());
}

#[test]
fn type_tags_lose_their_status_bits() {
    let mut h = heap();
    h.store_u64(OBJ - 8, TYPE | 0xb);
    assert_eq!(mmtk_jl_typetagof(&h, OBJ), TYPE);
    assert_eq!(mmtk_jl_typetagof(&h, 0x1fff8), 0);
    // A header on another page that cannot be read counts as empty.
    assert_eq!(mmtk_jl_typetagof(&h, 0x1000_5000), 0);
}

#[test]
fn types_are_checked_by_their_shape() {
    let mut h = heap();
    put_type(&mut h, TYPE, NAME, 0);
    assert!(is_valid_datatype(&h, TYPE));
    assert!(is_valid_datatype(&h, 7 * 16));
    assert!(!is_valid_datatype(&h, 0x10000));
    assert!(!is_valid_datatype(&h, TYPE + 4));
    let mut low_layout = heap();
    put_type(&mut low_layout, TYPE, NAME, 8);
    assert!(!is_valid_datatype(&low_layout, TYPE));
    let mut no_module = heap();
    put_type(&mut no_module, TYPE, NAME, 0);
    no_module.store_u64(MODULE - 8, 7 * 16);
    assert!(!is_valid_datatype_struct(&no_module, TYPE));
    let mut untagged = heap();
    put_type(&mut untagged, TYPE, NAME, 0);
    untagged.store_u64(TYPE - 8, 0);
    assert!(is_valid_datatype_struct(&untagged, TYPE));
    assert!(!is_valid_datatype(&untagged, TYPE));
}

#[test]
fn moved_types_are_followed_to_the_live_copy() {
    let mut h = heap();
    let moved: u64 = 0x2000_c000;
    let target: u64 = 0x2000_d000;
    put_type(&mut h, target, NAME, 0);
    h.store_u64(moved - 8, target);
    assert_eq!(resolve_forwarded_datatype_addr(&h, moved), moved);
    h.forwarded.insert(moved | 8);
    assert_eq!(resolve_forwarded_datatype_addr(&h, moved), target);
    assert_eq!(resolve_forwarded_datatype_addr(&h, target), target);
    assert_eq!(mmtk_jl_to_typeof(&h, moved), moved);
    assert_eq!(mmtk_jl_to_typeof_resolving(&h, moved), target);
}

#[test]
fn chains_of_moves_are_followed_to_their_end() {
    let mut h = heap();
    let first: u64 = 0x2000_c000;
    let second: u64 = 0x2000_c800;
    let target: u64 = 0x2000_d000;
    put_type(&mut h, target, NAME, 0);
    h.store_u64(first - 8, second | 1);
    h.store_u64(second - 8, target | 2);
    h.forwarded.insert(first | 8);
    h.forwarded.insert(second | 8);
    assert_eq!(resolve_forwarded_datatype_addr(&h, first), target);
    assert_eq!(resolve_forwarded_datatype_addr(&h, second), target);
    // A chain without an end is given up.
    h.store_u64(second - 8, first);
    let end = resolve_forwarded_datatype_addr(&h, first);
    assert!(end == first || end == second);
}

#[test]
fn small_tags_lead_to_the_table_of_types() {
    let mut h = heap();
    h.small_typeof[(9 * 16) / 8] = TYPE;
    assert_eq!(mmtk_jl_to_typeof(&h, 9 * 16), TYPE);
    // Nothing in the table, and no type of types yet.
    assert_eq!(mmtk_jl_to_typeof(&h, 10 * 16), 0);
    h.config.types.datatype_type_addr = 0x2000_e000;
    h.store_u64(0x2000_e000, 0x2000_e100);
    assert_eq!(mmtk_jl_to_typeof(&h, 10 * 16), 0x2000_e100);
    assert_eq!(resolve_datatype_ptr(&h, 0x2000_e000), 0x2000_e100);
    assert_eq!(safe_jl_datatype_type(&h), 0x2000_e100);
}

#[test]
fn simple_vectors_hand_on_their_elements() {
    let mut h = heap();
    h.store_u64(OBJ - 8, 9 * 16);
    h.store_u64(OBJ, 2);
    assert_eq!(scanned(&h, OBJ), vec![simple_at(OBJ + 8), simple_at(OBJ + 16)]);
}

#[test]
fn instances_hand_on_what_their_pointer_table_names() {
    let mut h = heap();
    put_layout(&mut h, LAYOUT, 24, 2, 0, 0);
    h.memory.store_u8(LAYOUT + 20, 0);
    h.memory.store_u8(LAYOUT + 21, 2);
    put_type(&mut h, TYPE, NAME, LAYOUT);
    h.store_u64(OBJ - 8, TYPE | 1);
    assert_eq!(
        scanned(&h, OBJ),
        vec![tag_at(OBJ - 8), simple_at(OBJ), simple_at(OBJ + 16)]
    );
}

#[test]
fn pointer_tables_have_entries_of_three_widths() {
    let mut h = heap();
    put_type(&mut h, TYPE, NAME, LAYOUT);
    h.store_u64(OBJ - 8, TYPE);
    put_layout(&mut h, LAYOUT, 24, 1, 0, 1 << 1);
    put16(&mut h, LAYOUT + 20, 300);
    assert_eq!(scanned(&h, OBJ), vec![tag_at(OBJ - 8), simple_at(OBJ + 2400)]);
    put_layout(&mut h, LAYOUT, 24, 1, 0, 2 << 1);
    put32(&mut h, LAYOUT + 20, 70000);
    assert_eq!(scanned(&h, OBJ), vec![tag_at(OBJ - 8), simple_at(OBJ + 560000)]);
}

#[test]
fn pointer_tables_start_behind_the_field_descriptors() {
    let mut h = heap();
    put_layout(&mut h, LAYOUT, 24, 1, 0, 0);
    put32(&mut h, LAYOUT + 4, 3);
    assert_eq!(mmtk_jl_dt_layout_fields(&h, LAYOUT), LAYOUT + 20);
    assert_eq!(mmtk_jl_dt_layout_ptrs(&h, LAYOUT), LAYOUT + 26);
    assert_eq!(mmtk_jl_fielddesc_size(0), 2);
    assert_eq!(mmtk_jl_fielddesc_size(1), 4);
    assert_eq!(mmtk_jl_fielddesc_size(2), 8);
}

#[test]
fn foreign_layouts_end_the_scan() {
    let mut h = heap();
    put_layout(&mut h, LAYOUT, 24, 2, 0, 3 << 1);
    put_type(&mut h, TYPE, NAME, LAYOUT);
    h.store_u64(OBJ - 8, TYPE);
    let mut scanner = Scanner::new(1);
    assert_eq!(scan_julia_object(&h, OBJ, &mut scanner), Err(UnsupportedLayout));
    assert_eq!(scanner.slots, vec![tag_at(OBJ - 8)]);
}

#[test]
fn objects_of_unknown_type_report_only_their_tag() {
    let mut h = heap();
    h.store_u64(OBJ - 8, 0x2000_f000);
    assert_eq!(scanned(&h, OBJ), vec![tag_at(OBJ - 8)]);
    h.store_u64(OBJ - 8, h.config.buff_tag);
    assert_eq!(scanned(&h, OBJ), vec![tag_at(OBJ - 8)]);
    h.store_u64(OBJ - 8, 10 * 16);
    assert_eq!(scanned(&h, OBJ), vec![]);
}

#[test]
fn boxed_memories_hand_on_every_element() {
    let mut h = heap();
    put_layout(&mut h, LAYOUT, 8, 1, 0, 1 << 3);
    put_memory(&mut h, 3, 0x1000_2000);
    assert_eq!(
        scanned(&h, OBJ),
        vec![
            tag_at(OBJ - 8),
            simple_at(0x1000_2000),
            simple_at(0x1000_2008),
            simple_at(0x1000_2010)
        ]
    );
    let data = get_julia_obj_array_data(&h, object(OBJ));
    assert_eq!(data, JuliaMemorySlice { owner: object(OBJ), start: 0x1000_2000, count: 3 });
    assert_eq!(data.get(2), simple_at(0x1000_2010));
    assert_eq!(get_julia_obj_kind(&h, object(OBJ)), ObjectKind::ObjArray(3));
    assert!(is_julia_obj_array(&h, object(OBJ)));
    assert!(!is_julia_val_array(&h, object(OBJ)));
}

#[test]
fn empty_boxed_memories_are_arrays_of_nothing() {
    let mut h = heap();
    put_layout(&mut h, LAYOUT, 8, 1, 0, 1 << 3);
    put_memory(&mut h, 0, 0x1000_2000);
    assert_eq!(get_julia_obj_kind(&h, object(OBJ)), ObjectKind::ObjArray(0));
    assert!(is_julia_obj_array(&h, object(OBJ)));
    assert_eq!(get_julia_obj_array_data(&h, object(OBJ)).count, 0);
}

#[test]
fn objects_with_an_unsound_tag_are_noticed() {
    let mut h = heap();
    h.store_u64(OBJ - 8, 0x2000_f000);
    assert_eq!(find_unsound_tag(&h, object(OBJ)), Some(0x2000_f000));
    assert_eq!(get_so_object_size(&h, object(OBJ)), 16);
    assert_eq!(find_suspect(&h, 0x2000_f000, true), Some(object(0x2000_f008)));
    assert_eq!(find_suspect(&h, 0x2000_f000, false), None);
    assert_eq!(find_suspect(&h, 0x5000_0000, true), None);
    assert_eq!(
        corruption_warning(0x2000_f000, 3),
        "GC warning (probable corruption ignored) - !jl_is_datatype = true, vt = 536932352, \
         type_tag = 0, forwarding_status = 3"
    );
    h.store_u64(OBJ - 8, h.config.buff_tag);
    assert_eq!(find_unsound_tag(&h, object(OBJ)), None);
    put_type(&mut h, TYPE, NAME, 0);
    h.store_u64(OBJ - 8, TYPE);
    assert_eq!(find_unsound_tag(&h, object(OBJ)), None);
}

#[test]
fn memories_owned_elsewhere_hand_on_their_owner() {
    let mut h = heap();
    put_layout(&mut h, LAYOUT, 8, 1, 0, 1 << 3);
    put_memory(&mut h, 3, 0x1000_2000);
    h.memory_kinds.insert(OBJ, 3);
    h.owner_fields.insert(OBJ, 0x1000_3000);
    assert_eq!(scanned(&h, OBJ), vec![tag_at(OBJ - 8), simple_at(0x1000_3000)]);
}

#[test]
fn memories_of_structs_hand_on_the_pointers_of_each_element() {
    let mut h = heap();
    put_layout(&mut h, LAYOUT, 24, 1, 2, 0);
    put_memory(&mut h, 2, 0x1000_2000);
    assert_eq!(
        scanned(&h, OBJ),
        vec![tag_at(OBJ - 8), simple_at(0x1000_2010), simple_at(0x1000_2028)]
    );
    put_layout(&mut h, LAYOUT, 24, 2, 0, 0);
    h.memory.store_u8(LAYOUT + 20, 0);
    h.memory.store_u8(LAYOUT + 21, 1);
    assert_eq!(
        scanned(&h, OBJ),
        vec![
            tag_at(OBJ - 8),
            simple_at(0x1000_2000),
            simple_at(0x1000_2008),
            simple_at(0x1000_2018),
            simple_at(0x1000_2020)
        ]
    );
}

#[test]
fn memories_of_numbers_hand_on_nothing() {
    let mut h = heap();
    put_layout(&mut h, LAYOUT, 8, 0, 0xffff_ffff, 0);
    put_memory(&mut h, 3, 0x1000_2000);
    assert_eq!(scanned(&h, OBJ), vec![tag_at(OBJ - 8)]);
    assert!(is_julia_val_array(&h, object(OBJ)));
    assert!(!is_julia_obj_array(&h, object(OBJ)));
    assert_eq!(get_julia_obj_kind(&h, object(OBJ)), ObjectKind::Scalar);
}

#[test]
fn memories_of_a_known_type_are_scanned_by_it() {
    let mut h = heap();
    put_layout(&mut h, LAYOUT, 8, 1, 0, 1 << 3);
    put_memory(&mut h, 2, 0x1000_2000);
    let elements = vec![simple_at(0x1000_2000), simple_at(0x1000_2008)];
    let mut scanner = Scanner::new(1);
    assert_eq!(scan_genericmemory_with_type(&h, OBJ, &mut scanner, TYPE), Ok(()));
    assert_eq!(scanner.slots, elements);
    let mut scanner = Scanner::new(1);
    assert_eq!(scan_julia_object_with_type(&h, OBJ, &mut scanner, TYPE), Ok(()));
    assert_eq!(scanner.slots, vec![tag_at(OBJ - 8), elements[0], elements[1]]);
    let mut scanner = Scanner::new(1);
    assert_eq!(scan_julia_object_with_type(&h, OBJ, &mut scanner, 0), Ok(()));
    assert_eq!(scanner.slots, vec![tag_at(OBJ - 8), elements[0], elements[1]]);
}

#[test]
fn other_objects_of_a_known_type_report_their_tag_again() {
    let mut h = heap();
    put_layout(&mut h, LAYOUT, 16, 1, 0, 0);
    h.memory.store_u8(LAYOUT + 20, 0);
    put_type(&mut h, TYPE, NAME, LAYOUT);
    h.store_u64(OBJ - 8, TYPE);
    let plain = scanned(&h, OBJ);
    let mut scanner = Scanner::new(1);
    assert_eq!(scan_julia_object_with_type(&h, OBJ, &mut scanner, TYPE), Ok(()));
    assert_eq!(scanner.slots[0], tag_at(OBJ - 8));
    assert_eq!(scanner.slots[1..], plain[..]);
}

#[test]
fn arrays_report_their_data_pointer_as_interior() {
    let mut h = heap();
    put_type(&mut h, TYPE, ARRAY_NAME, 0);
    h.store_u64(OBJ - 8, TYPE);
    h.store_u64(OBJ, 0x1000_2010);
    h.store_u64(OBJ + 8, 0x1000_2000);
    assert_eq!(
        scanned(&h, OBJ),
        vec![tag_at(OBJ - 8), simple_at(OBJ), interior_at(OBJ + 8, 16)]
    );
    h.store_u64(OBJ, 0x5000_0000);
    assert_eq!(scanned(&h, OBJ), vec![tag_at(OBJ - 8), simple_at(OBJ)]);
}

#[test]
fn modules_hand_on_their_fields_and_the_modules_they_use() {
    let mut h = heap();
    h.store_u64(OBJ - 8, 8 * 16);
    h.store_u64(OBJ + 48, 2);
    h.store_u64(OBJ + 64, 0x1000_2000);
    assert_eq!(
        scanned(&h, OBJ),
        vec![
            simple_at(OBJ + 8),
            simple_at(OBJ + 16),
            simple_at(OBJ + 24),
            simple_at(OBJ + 32),
            simple_at(OBJ + 40),
            interior_at(OBJ + 64, 72),
            simple_at(0x1000_2000)
        ]
    );
}

#[test]
fn tasks_are_scanned_by_the_layout_of_tasks() {
    let mut h = heap();
    h.store_u64(h.config.types.task_type + 40, LAYOUT);
    put_layout(&mut h, LAYOUT, 300, 1, 0, 0);
    h.memory.store_u8(LAYOUT + 20, 4);
    h.store_u64(OBJ - 8, 11 * 16);
    assert_eq!(scanned(&h, OBJ), vec![simple_at(OBJ + 32)]);
}

#[test]
fn types_hand_on_their_names() {
    let mut h = heap();
    let name: u64 = 0x1000_3000;
    let name_type: u64 = 0x2001_0000;
    put_type(&mut h, name_type, NAME, 0);
    h.store_u64(name - 8, name_type);
    put_name(&mut h, name);
    h.store_u64(name + 16, 0x1000_4000);
    h.store_u64(0x1000_4000, 1);
    h.store_u64(name + 80, 0);
    h.store_u64(OBJ - 8, 2 * 16);
    h.store_u64(OBJ, name);
    assert_eq!(
        scanned(&h, OBJ),
        vec![
            simple_at(name),
            simple_at(name + 8),
            simple_at(name + 32),
            simple_at(name + 40),
            simple_at(0x1000_4008)
        ]
    );
}

#[test]
fn slots_are_reported_or_scanned_by_their_space() {
    let mut h = heap();
    let config = h.config;
    assert!(mmtk_address_is_in_immix_or_los(&config, 0x1000_0000));
    assert!(mmtk_address_is_in_immix_or_los(&config, 0x1fff_ffff));
    assert!(!mmtk_address_is_in_immix_or_los(&config, 0x2000_0000));
    assert!(mmtk_address_is_in_immix_or_los(&config, 0x3000_0000));
    assert!(!mmtk_address_is_in_immix_or_los(&config, 0x4000_0000));
    // An immortal simple vector is scanned in place, once in a collection.
    let svec: u64 = 0x2000_c000;
    h.store_u64(svec - 8, 9 * 16);
    h.store_u64(svec, 1);
    h.store_u64(0x2000_c000 + 8, 0);
    let mut scanner = Scanner::new(1);
    assert_eq!(process_slot(&h, &mut scanner, 0x1000_2000), Ok(()));
    assert_eq!(process_slot(&h, &mut scanner, svec), Ok(()));
    assert_eq!(process_slot(&h, &mut scanner, svec), Ok(()));
    assert_eq!(process_slot(&h, &mut scanner, svec + 4), Ok(()));
    assert_eq!(process_slot(&h, &mut scanner, 0x5000_0000), Ok(()));
    assert_eq!(process_slot(&h, &mut scanner, 0), Ok(()));
    assert_eq!(scanner.slots, vec![simple_at(0x1000_2000)]);
    assert!(scanner.visited.contains(&svec));
    assert!(scanner.visited.contains(&(svec + 8)));
    assert_eq!(scanner.visited.len(), 2);
}

#[test]
fn a_new_collection_forgets_the_visited_objects() {
    let mut h = heap();
    let svec: u64 = 0x2000_c000;
    h.store_u64(svec - 8, 9 * 16);
    h.store_u64(svec, 0);
    let mut scanner = Scanner::new(1);
    assert_eq!(process_slot(&h, &mut scanner, svec), Ok(()));
    assert_eq!(process_slot(&h, &mut scanner, 0x2000_d000), Ok(()));
    assert_eq!(scanner.visited.len(), 2);
    scanner.gc_epoch = 2;
    assert_eq!(process_slot(&h, &mut scanner, svec), Ok(()));
    assert_eq!(scanner.local_epoch, 2);
    assert_eq!(scanner.visited.len(), 1);
}

#[test]
fn interior_pointers_are_reported_where_they_can_be_read() {
    let mut h = heap();
    let mut scanner = Scanner::new(1);
    process_offset_slot(&h, &mut scanner, 0, 1);
    process_offset_slot(&h, &mut scanner, 0x5000_0000, 1);
    assert_eq!(scanner.slots, vec![]);
    h.store_u64(0x5000_0000, 1);
    process_offset_slot(&h, &mut scanner, 0x5000_0000, 1);
    process_offset_slot(&h, &mut scanner, 0x1000_2000, 2);
    assert_eq!(scanner.slots, vec![interior_at(0x5000_0000, 1), interior_at(0x1000_2000, 2)]);
}

#[test]
fn probes_are_judged_by_what_was_written() {
    assert_eq!(judge_probe(-1), Probe::Unreadable);
    assert_eq!(judge_probe(8), Probe::ReadableAndDrain);
    assert_eq!(judge_probe(3), Probe::Readable);
    let h = heap();
    assert!(is_address_readable(&h, SYM - 8));
    assert!(!is_address_readable(&h, 0x5000_0000));
    // The last bytes in front of memory that is not there do not make up a word.
    assert!(!is_address_readable(&h, MODULE - 4));
}

#[test]
fn objects_are_checked_before_use() {
    let mut h = heap();
    assert!(!is_valid_julia_object(&h, object(OBJ)));
    h.store_u64(OBJ - 8, h.config.buff_tag);
    assert!(is_valid_julia_object(&h, object(OBJ)));
    h.store_u64(OBJ - 8, 9 * 16);
    assert!(!is_valid_julia_object(&h, object(OBJ)));
    put_type(&mut h, TYPE, NAME, 0);
    h.small_typeof[18] = TYPE;
    assert!(is_valid_julia_object(&h, object(OBJ)));
    h.store_u64(OBJ - 8, TYPE);
    assert!(is_valid_julia_object(&h, object(OBJ)));
    h.store_u64(OBJ - 8, 0x5000_0000);
    assert!(!is_valid_julia_object(&h, object(OBJ)));
    h.store_u64(OBJ - 4, 9 * 16);
    assert!(!is_valid_julia_object(&h, object(OBJ + 4)));
}

#[test]
fn slots_hold_what_was_stored() {
    let mut h = heap();
    let slots = [
        simple_at(0x1000_2000),
        interior_at(0x1000_2010, 24),
        tag_at(0x1000_2020),
    ];
    h.store_u64(0x1000_2020, 0x2000_0000 | 5);
    for slot in slots {
        slot.store(&mut h, object(0x1000_3000));
        assert_eq!(slot.load(&h), Some(object(0x1000_3000)));
    }
    assert_eq!(h.load_u64(0x1000_2000), 0x1000_3000);
    assert_eq!(h.load_u64(0x1000_2010), 0x1000_3018);
    assert_eq!(h.load_u64(0x1000_2020), 0x1000_3005);
    let captured = JuliaVMSlot::Direct(object(0x77));
    captured.store(&mut h, object(0x88));
    assert_eq!(captured.load(&h), Some(object(0x77)));
    assert_eq!(captured.to_address(), 0);
    assert_eq!(simple_at(0x5000_0000).load(&h), None);
    assert_eq!(tag_at(0x5000_0000).load(&h), None);
}

#[test]
fn moving_a_memory_moves_the_data_pointer_of_its_array() {
    let mut h = heap();
    put_type(&mut h, TYPE, ARRAY_NAME, 0);
    h.store_u64(OBJ - 8, TYPE);
    h.store_u64(OBJ, 0x1000_2018);
    h.store_u64(OBJ + 8, 0x1000_2000);
    simple_at(OBJ + 8).store(&mut h, object(0x1000_9000));
    assert_eq!(h.load_u64(OBJ), 0x1000_9018);
    assert_eq!(h.load_u64(OBJ + 8), 0x1000_9000);
    // Data that is not inline stays where it is.
    h.memory_kinds.insert(0x1000_9000, 1);
    simple_at(OBJ + 8).store(&mut h, object(0x1000_a000));
    assert_eq!(h.load_u64(OBJ), 0x1000_9018);
    // Neither does a pointer to the header of the memory move.
    h.store_u64(OBJ, 0x1000_a008);
    update_array_ptr_or_offset_if_needed(&mut h, OBJ + 8, object(0x1000_b000));
    assert_eq!(h.load_u64(OBJ), 0x1000_a008);
}

#[test]
fn sizes_go_by_the_kind_of_the_object() {
    let mut h = heap();
    let size = |h: &Heap| get_so_object_size(h, object(OBJ));
    h.store_u64(OBJ - 8, 2 * 16);
    assert_eq!(size(&h), 80);
    h.store_u64(OBJ - 8, 3 * 16);
    assert_eq!(size(&h), 32);
    h.store_u64(OBJ - 8, 4 * 16);
    assert_eq!(size(&h), 32);
    h.store_u64(OBJ - 8, 6 * 16);
    assert_eq!(size(&h), 32);
    h.store_u64(OBJ - 8, 5 * 16);
    assert_eq!(size(&h), 48);
    h.store_u64(OBJ - 8, 9 * 16);
    h.store_u64(OBJ, 5);
    assert_eq!(size(&h), 64);
    h.store_u64(OBJ - 8, 8 * 16);
    assert_eq!(size(&h), 208);
    h.store_u64(OBJ - 8, 11 * 16);
    assert_eq!(size(&h), 320);
    h.store_u64(OBJ - 8, 10 * 16);
    assert_eq!(size(&h), 24);
    h.store_u64(OBJ - 8, 12 * 16);
    assert_eq!(size(&h), 16);
    put_layout(&mut h, LAYOUT, 40, 0, 0, 0);
    h.store_u64(TYPE + 40, LAYOUT);
    h.small_typeof[24] = TYPE;
    assert_eq!(size(&h), 48);
}

#[test]
fn sizes_of_instances_go_by_their_type() {
    let mut h = heap();
    let size = |h: &Heap| get_so_object_size(h, object(OBJ));
    h.store_u64(OBJ - 8, 0x2000_f000);
    assert_eq!(size(&h), 16);
    put_type(&mut h, TYPE, NAME, 0);
    h.store_u64(OBJ - 8, TYPE);
    assert_eq!(size(&h), 16);
    put_layout(&mut h, LAYOUT, 40, 0, 0, 0);
    put_type(&mut h, TYPE, NAME, LAYOUT);
    assert_eq!(size(&h), 48);
    h.store_u64(OBJ - 8, h.config.buff_tag);
    store_obj_size(&mut h, object(OBJ), 1234);
    assert_eq!(mmtk_get_obj_size(&h, object(OBJ)), 1234);
    assert_eq!(size(&h), 1234);
    mmtk_store_obj_size_c(&mut h, object(OBJ), 4321);
    assert_eq!(size(&h), 4321);
}

#[test]
fn sizes_of_memories_have_room_for_inline_data() {
    let mut h = heap();
    put_layout(&mut h, LAYOUT, 12, 0, 0xffff_ffff, 0);
    put_memory(&mut h, 5, 0x1000_2000);
    assert_eq!(get_so_object_size(&h, object(OBJ)), 96);
    put_layout(&mut h, LAYOUT, 12, 0, 0xffff_ffff, 1 << 4);
    h.store_u64(OBJ, 10);
    assert_eq!(get_so_object_size(&h, object(OBJ)), 160);
    h.memory_kinds.insert(OBJ, 1);
    assert_eq!(get_so_object_size(&h, object(OBJ)), 32);
    assert_eq!(checked_object_size(&h, object(OBJ)), Some(32));
    h.memory_kinds.insert(OBJ, 0);
    h.store_u64(OBJ, 0xffff_ffff_ffff_ffff);
    assert_eq!(checked_object_size(&h, object(OBJ)), None);
}

#[test]
fn sizes_are_rounded_up() {
    assert_eq!(llt_align(0, 16), 0);
    assert_eq!(llt_align(1, 16), 16);
    assert_eq!(llt_align(17, 8), 24);
    assert_eq!(llt_align(512, 16), 512);
}

#[test]
fn objects_start_at_their_headers() {
    let mut h = heap();
    assert_eq!(get_object_start_ref(&h, object(OBJ)), OBJ - 8);
    h.store_u64(OBJ - 8, h.config.buff_tag);
    assert_eq!(get_object_start_ref(&h, object(OBJ)), OBJ - 16);
    let large = object(0x600_0000_1000);
    assert!(is_object_in_los(&large));
    assert!(!is_object_in_los(&object(0x800_0000_0000)));
    assert_eq!(VMObjectModel::ref_to_object_start(&h, large), 0x600_0000_1000 - 48);
    assert_eq!(VMObjectModel::ref_to_header(large), 0x600_0000_1000);
    assert_eq!(VMObjectModel::dump_object_s(large), "<julia object>");
    h.store_u64(OBJ - 8, TYPE | 3);
    assert_eq!(VMObjectModel::get_class_pointer(&h, object(OBJ)), TYPE);
}

#[test]
fn copies_are_asked_for_and_made() {
    let mut h = heap();
    put_layout(&mut h, LAYOUT, 16, 0, 0, 0);
    put_type(&mut h, TYPE, NAME, LAYOUT);
    h.store_u64(OBJ - 8, TYPE | 1);
    h.store_u64(OBJ, 11);
    h.store_u64(OBJ + 8, 22);
    h.store_u64(OBJ + 16, 33);
    let request = VMObjectModel::copy_request(&h, object(OBJ));
    assert_eq!(request, CopyRequest { bytes: 32, align: 16, offset: 8 });
    let copy = VMObjectModel::copy(&mut h, object(OBJ), 0x1000_9008);
    assert_eq!(copy, object(0x1000_9010));
    assert_eq!(h.load_u64(0x1000_9008), TYPE | 1);
    assert_eq!(h.load_u64(0x1000_9010), 11);
    assert_eq!(h.load_u64(0x1000_9018), 22);
    assert_eq!(h.load_u64(OBJ), 11);
    assert_eq!(get_so_object_size(&h, copy), 32);
    assert!(!VMObjectModel::needs_inlined_update(&h, object(OBJ)));
    VMObjectModel::wipe_copied(&mut h, OBJ - 8, 32);
    assert_eq!(h.load_u64(OBJ), 0);
    assert_eq!(h.load_u64(OBJ - 8), 0);
}

#[test]
fn copied_memories_need_an_update() {
    let mut h = heap();
    put_layout(&mut h, LAYOUT, 8, 0, 0xffff_ffff, 0);
    put_memory(&mut h, 1, OBJ + 16);
    assert!(VMObjectModel::needs_inlined_update(&h, object(OBJ)));
    h.store_u64(OBJ - 8, 10 * 16);
    assert!(!VMObjectModel::needs_inlined_update(&h, object(OBJ)));
}

#[test]
fn copied_memories_of_a_moved_type_need_an_update() {
    let mut h = heap();
    put_layout(&mut h, LAYOUT, 8, 0, 0xffff_ffff, 0);
    put_memory(&mut h, 1, OBJ + 16);
    let size = get_so_object_size(&h, object(OBJ));
    // The type has left a place where only the way to its live copy is kept.
    let moved: u64 = 0x1000_7000;
    h.store_u64(moved - 8, TYPE | 3);
    h.forwarded.insert(moved | 8);
    h.store_u64(OBJ - 8, moved);
    assert!(!is_valid_datatype(&h, moved));
    assert_eq!(get_so_object_size(&h, object(OBJ)), size);
    assert!(VMObjectModel::needs_inlined_update(&h, object(OBJ)));
}

#[test]
fn union_types_have_their_own_tag() {
    let mut h = heap();
    h.store_u64(OBJ - 8, 4 * 16);
    assert!(mmtk_jl_is_uniontype(&h, OBJ));
    h.store_u64(OBJ - 8, 3 * 16);
    assert!(!mmtk_jl_is_uniontype(&h, OBJ));
}

#[test]
fn arrays_with_many_dimensions_need_more_words() {
    assert_eq!(mmtk_jl_array_ndimwords(1), 0);
    assert_eq!(mmtk_jl_array_ndimwords(2), 0);
    assert_eq!(mmtk_jl_array_ndimwords(5), 3);
}

#[test]
fn vectors_have_lengths_and_data() {
    let mut h = heap();
    h.store_u64(OBJ, 2);
    h.store_u64(OBJ + 8, 77);
    assert_eq!(mmtk_jl_svec_len(&h, OBJ), 2);
    assert_eq!(mmtk_jl_svec_data(&h, OBJ), OBJ + 8);
    assert_eq!(mmtk_jl_svecref(&h, OBJ, 0), 77);
    h.store_u64(TYPE + 16, OBJ);
    assert_eq!(mmtk_jl_tparam0(&h, TYPE), 77);
}

#[test]
fn symbols_have_names() {
    let h = heap();
    assert_eq!(debug_symbol_name(&h, SYM), "Foo");
    assert_eq!(debug_symbol_name(&h, 0), "<null-sym>");
    assert_eq!(symbol_name_bytes(&h, SYM), vec![b'F', b'o', b'o']);
}

#[test]
fn names_that_are_no_text_are_mended() {
    let mut h = heap();
    h.memory.store_u8(SYM + 24, 0xff);
    assert_eq!(debug_symbol_name(&h, SYM), "\u{fffd}oo");
    for i in 0..300 {
        h.memory.store_u8(SYM + 24 + i, b'x');
    }
    assert_eq!(debug_symbol_name(&h, SYM).len(), 256);
}

#[test]
fn type_names_are_found_through_the_tag() {
    let mut h = heap();
    h.store_u64(OBJ - 8, 9 * 16);
    assert_eq!(debug_julia_object_type_name(&h, object(OBJ)), "<smalltag 0x90>");
    h.store_u64(OBJ - 8, TYPE);
    assert_eq!(debug_julia_object_type_name(&h, object(OBJ)), "");
    put_type(&mut h, TYPE, NAME, 0);
    assert_eq!(debug_julia_object_type_name(&h, object(OBJ)), "Foo");
    assert_eq!(type_name_from(&h, object(OBJ), "Bar"), "Bar");
    h.store_u64(TYPE, 0);
    assert_eq!(debug_julia_object_type_name(&h, object(OBJ)), "<null-typename>");
    h.store_u64(OBJ - 8, 0x5000_0000);
    assert_eq!(debug_julia_object_type_name(&h, object(OBJ)), "");
}

#[test]
fn sound_tags_are_small_or_lead_to_types() {
    let mut h = heap();
    h.store_u64(OBJ - 8, 9 * 16);
    assert!(debug_julia_object_tag_is_valid(&h, object(OBJ)));
    h.store_u64(OBJ - 8, TYPE);
    assert!(!debug_julia_object_tag_is_valid(&h, object(OBJ)));
    put_type(&mut h, TYPE, NAME, 0);
    assert!(debug_julia_object_tag_is_valid(&h, object(OBJ)));
    put16(&mut h, TYPE + 56, 9);
    assert!(!debug_julia_object_tag_is_valid(&h, object(OBJ)));
    h.store_u64(OBJ - 8, 0x5000_0000);
    assert!(!debug_julia_object_tag_is_valid(&h, object(OBJ)));
}

#[test]
fn descriptions_name_the_type() {
    let mut h = heap();
    h.store_u64(OBJ - 8, 9 * 16);
    assert_eq!(debug_describe_julia_object(&h, object(OBJ)), "<null-vt obj=0x10001010>");
    put_type(&mut h, TYPE, NAME, 0);
    h.store_u64(OBJ - 8, TYPE);
    assert_eq!(debug_describe_julia_object(&h, object(OBJ)), "Foo vt=0x20007000");
    h.store_u64(TYPE, 0x5000_0000);
    assert_eq!(
        debug_describe_julia_object(&h, object(OBJ)),
        "<invalid-typename> vt=0x20007000"
    );
    assert_eq!(describe_from(&h, object(OBJ), Some("Bar")), "Bar vt=0x20007000");
}

#[test]
fn descriptions_of_memories_show_a_sample() {
    let mut h = heap();
    put_layout(&mut h, LAYOUT, 8, 1, 0, 1 << 3);
    put_memory(&mut h, 2, 0x3fff_fff8);
    h.store_u64(0x3fff_fff8, 0xabc);
    assert_eq!(
        debug_describe_julia_object(&h, object(OBJ)),
        "GenericMemory{<no-params>} vt=0x20007000 how=0 len=2 dataptr=0x3ffffff8 isboxed=1 \
         isunion=0 first_ptr=0 npointers=1 zeroinit=0 data:[ [0]=0xabc [1]=<unmapped> ]"
    );
    // An element type, and no layout.
    let params: u64 = 0x2001_0000;
    let elt: u64 = 0x2001_1000;
    h.store_u64(TYPE + 16, params);
    h.store_u64(TYPE + 40, 0);
    h.store_u64(params, 2);
    h.store_u64(params + 16, elt);
    put_type(&mut h, elt, NAME, 0);
    h.store_u64(OBJ, 0);
    let tail = "} vt=0x20007000 how=0 len=0 dataptr=0x3ffffff8 isboxed=-1 isunion=-1 \
                first_ptr=-1 npointers=-1 zeroinit=0 data:[ ]";
    assert_eq!(
        debug_describe_julia_object(&h, object(OBJ)),
        format!("GenericMemory{{Foo{}", tail)
    );
    h.store_u64(elt - 8, 9 * 16);
    assert_eq!(
        debug_describe_julia_object(&h, object(OBJ)),
        format!("GenericMemory{{<elt-tag=0x90>{}", tail)
    );
    h.store_u64(params + 16, 0);
    assert_eq!(
        debug_describe_julia_object(&h, object(OBJ)),
        format!("GenericMemory{{<null-elt>{}", tail)
    );
    h.store_u64(params, 1);
    assert_eq!(
        debug_describe_julia_object(&h, object(OBJ)),
        format!("GenericMemory{{<svec<2>{}", tail)
    );
}

#[test]
fn long_memories_are_sampled_at_their_start() {
    let mut h = heap();
    put_layout(&mut h, LAYOUT, 8, 0, 0xffff_ffff, 0);
    put_memory(&mut h, 200, 0x1000_8000);
    h.store_u64(0x1000_8000, 0xabc);
    let text = debug_describe_julia_object(&h, object(OBJ));
    assert!(text.contains("data:[ [0]=0xabc [1]=0x0"));
    assert!(text.ends_with(" [18]=0x0 [19]=0x0 ]"));
    put_memory(&mut h, 2, 0x1000_8000);
    let short = debug_describe_julia_object(&h, object(OBJ));
    assert!(short.ends_with("data:[ [0]=0xabc [1]=0x0 ]"));
    put_memory(&mut h, 0, 0x1000_8000);
    assert!(debug_describe_julia_object(&h, object(OBJ)).ends_with("data:[ ]"));
    assert!(text.contains("first_ptr=-1"));
}
