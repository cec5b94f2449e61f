use mmtk_julia::heap::{Heap, JuliaConfig, ObjectReference};
use mmtk_julia::julia_types::{BitField, JuliaAbi, KnownTypes, SmallTags};
use mmtk_julia::slots::{
    JuliaMemorySlice, JuliaMemorySliceSlotIterator, JuliaVMSlot, OffsetSlot, RootsWork,
    RootsWorkBuffer, RootsWorkClosure, SimpleSlot, TypeTagSlot,
};

fn run_of(start: u64, count: u64) -> JuliaMemorySlice {
    JuliaMemorySlice { owner: ObjectReference { raw: 0x1000 }, start, count }
}

fn simple_at(address: u64) -> JuliaVMSlot {
    JuliaVMSlot::Simple(SimpleSlot { address })
}

fn collected(mut slots: JuliaMemorySliceSlotIterator) -> Vec<JuliaVMSlot> {
    let mut all = Vec::new();
    while let Some(slot) = slots.next() {
        all.push(slot);
    }
    all
}

fn blank_heap() -> Heap {
    let flag = BitField { offset: 0, shift: 0, mask: 0 };
    let abi = JuliaAbi {
        svec_size: 0,
        svec_length: 0,
        datatype_size: 0,
        datatype_name: 0,
        datatype_super: 0,
        datatype_parameters: 0,
        datatype_layout: 0,
        datatype_smalltag: flag,
        datatype_zeroinit: flag,
        typename_name: 0,
        typename_module: 0,
        typename_wrapper: 0,
        typename_typeofwrapper: 0,
        typename_names: 0,
        typename_cache: 0,
        typename_linearcache: 0,
        typename_partial: 0,
        layout_header_size: 0,
        layout_size: 0,
        layout_nfields: 0,
        layout_npointers: 0,
        layout_first_ptr: 0,
        layout_fielddesc_type: flag,
        layout_arrayelem_isboxed: flag,
        layout_arrayelem_isunion: flag,
        module_size: 0,
        module_bindings: 0,
        module_bindingkeyset: 0,
        module_parent: 0,
        module_usings_backedges: 0,
        module_scanned_methods: 0,
        module_usings: 0,
        arraylist_len: 0,
        arraylist_items: 0,
        arraylist_space: 0,
        task_size: 0,
        task_gcstack: 0,
        task_excstack: 0,
        task_ptls: 0,
        task_tid: 0,
        task_stkbuf: 0,
        task_copy_stack: 0,
        task_copy_stack_mask: 0,
        array_ptr_or_offset: 0,
        array_mem: 0,
        array_dimsize: 0,
        genericmemory_size: 0,
        genericmemory_length: 0,
        genericmemory_ptr: 0,
        symbol_size: 0,
        gcframe_nroots: 0,
        gcframe_prev: 0,
        tls_root_task: 0,
        tls_live_tasks_len: 0,
        tls_live_tasks_items: 0,
        tls_current_task: 0,
        tls_next_task: 0,
        tls_previous_task: 0,
        tls_previous_exception: 0,
        tls_bt_size: 0,
        tls_bt_data: 0,
    };
    let tags = SmallTags {
        datatype: 0,
        unionall: 1,
        uniontype: 2,
        tvar: 3,
        vararg: 4,
        symbol: 5,
        module: 6,
        simplevector: 7,
        string: 8,
        task: 9,
        max_tags: 64,
    };
    let types = KnownTypes {
        datatype_type_addr: 0,
        symbol_type: 1,
        weakref_type: 2,
        task_type: 3,
        array_typename: 4,
        genericmemory_typename: 5,
        genericmemoryref_typename: 6,
    };
    Heap::new(JuliaConfig {
        abi,
        tags,
        types,
        header_size: 8,
        buff_tag: 0,
        heap_start: 0,
        heap_end: 0,
    })
}

fn numbered(start: u64, count: u64) -> Heap {
    let mut heap = blank_heap();
    for i in 0..count {
        heap.store_u64(start + 8 * i, i + 1);
    }
    heap
}

fn words(heap: &Heap, start: u64, count: u64) -> Vec<u64> {
    (0..count).map(|i| heap.load_u64(start + 8 * i)).collect()
}

#[test]
fn chunks_hold_all_slots_in_order() {
    let run = run_of(0x2000, 5);
    let chunks = run.chunks(2);
    assert_eq!(chunks, vec![run_of(0x2000, 2), run_of(0x2010, 2), run_of(0x2020, 1)]);
    let mut slots = Vec::new();
    for chunk in &chunks {
        slots.append(&mut collected(chunk.iter_slots()));
    }
    assert_eq!(slots, collected(run.iter_slots()));
    assert_eq!(run_of(0x2000, 4).chunks(4), vec![run_of(0x2000, 4)]);
    assert_eq!(run_of(0x2000, 0).chunks(4), vec![]);
}

#[test]
fn iterators_yield_every_slot_once() {
    let run = run_of(0x2000, 3);
    assert_eq!(
        collected(run.iter_slots()),
        vec![simple_at(0x2000), simple_at(0x2008), simple_at(0x2010)]
    );
    assert_eq!(collected(run_of(0x2000, 0).iter_slots()), vec![]);
}

#[test]
fn runs_know_their_extent() {
    let run = run_of(0x2000, 3);
    assert_eq!(run.object(), Some(ObjectReference { raw: 0x1000 }));
    assert_eq!(run.start(), 0x2000);
    assert_eq!(run.len(), 3);
    assert_eq!(run.bytes(), 24);
    assert_eq!(run.get(2), simple_at(0x2010));
    assert_eq!(run_of(0, 0x2000_0000_0000_0001).bytes(), 8);
}

#[test]
fn overlapping_runs_are_copied_whole() {
    let mut up = numbered(0x2000, 6);
    JuliaMemorySlice::copy(&mut up, &run_of(0x2000, 4), &run_of(0x2010, 4));
    assert_eq!(words(&up, 0x2000, 6), vec![1, 2, 1, 2, 3, 4]);
    let mut down = numbered(0x2000, 6);
    JuliaMemorySlice::copy(&mut down, &run_of(0x2010, 4), &run_of(0x2000, 4));
    assert_eq!(words(&down, 0x2000, 6), vec![3, 4, 5, 6, 5, 6]);
    let mut apart = numbered(0x2000, 2);
    JuliaMemorySlice::copy(&mut apart, &run_of(0x2000, 2), &run_of(0x9000, 2));
    assert_eq!(words(&apart, 0x9000, 2), vec![1, 2]);
    assert_eq!(words(&apart, 0x2000, 2), vec![1, 2]);
    let mut behind = numbered(0x2000, 2);
    JuliaMemorySlice::copy(&mut behind, &run_of(0x2000, 2), &run_of(0x2010, 2));
    assert_eq!(words(&behind, 0x2000, 4), vec![1, 2, 1, 2]);
}

#[test]
fn slots_know_their_address() {
    assert_eq!(simple_at(0x10).to_address(), 0x10);
    assert_eq!(JuliaVMSlot::from_address(0x10), simple_at(0x10));
    let interior = JuliaVMSlot::Offset(OffsetSlot::new_with_offset(0x20, 3));
    assert_eq!(interior.to_address(), 0x20);
    assert_eq!(interior.raw_address(), 0x20);
    let tag = JuliaVMSlot::TypeTag(TypeTagSlot { address: 0x30 });
    assert_eq!(tag.raw_address(), 0x30);
    assert!(tag.is_type_tag());
    assert!(!interior.is_type_tag());
    assert_eq!(OffsetSlot::new_no_offset(0x20).offset(), 0);
    assert_eq!(OffsetSlot::new_with_offset(0x20, 3).slot_address(), 0x20);
}

#[test]
fn slots_are_shown_by_their_kind() {
    assert_eq!(simple_at(0x1f0).to_text(), "0x1f0");
    let interior = JuliaVMSlot::Offset(OffsetSlot::new_with_offset(0x20, 120));
    assert_eq!(interior.to_text(), "0x20+120");
    assert_eq!(JuliaVMSlot::Direct(ObjectReference { raw: 0xab }).to_text(), "Direct(0xab)");
    let tag = JuliaVMSlot::TypeTag(TypeTagSlot { address: 0 });
    assert_eq!(tag.to_text(), "TypeTag(0x0)");
}

#[test]
fn reported_buffers_become_work() {
    let mut closure = RootsWorkClosure::from_roots_work_factory(Vec::new());
    let fresh = closure.report_simple_slots(RootsWorkBuffer { buffer: Some(vec![8, 16]), capacity: 4096 }, true);
    assert_eq!(fresh.buffer, Some(vec![]));
    assert_eq!(fresh.capacity, 4096);
    let o = ObjectReference { raw: 0x40 };
    let none = closure.report_nodes(RootsWorkBuffer { buffer: Some(vec![o]), capacity: 4096 }, false);
    assert_eq!(none.buffer, None);
    assert_eq!(none.capacity, 0);
    closure.report_tpinned_nodes(RootsWorkBuffer { buffer: Some(vec![o, o]), capacity: 4096 }, false);
    closure.report_nodes(RootsWorkBuffer::empty(), true);
    closure.report_simple_slots(RootsWorkBuffer::empty(), false);
    closure.report_tpinned_nodes(RootsWorkBuffer::empty(), false);
    assert_eq!(closure.work.len(), 3);
    assert!(matches!(&closure.work[0], RootsWork::Slots(s) if *s == vec![simple_at(8), simple_at(16)]));
    assert!(matches!(&closure.work[1], RootsWork::PinningNodes(n) if *n == vec![o]));
    assert!(matches!(&closure.work[2], RootsWork::TransitivelyPinningNodes(n) if *n == vec![o, o]));
    let new: RootsWorkBuffer<u64> = RootsWorkBuffer::new();
    assert_eq!(new.buffer, Some(vec![]));
}
