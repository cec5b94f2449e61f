//! Scanning of objects and slots, and the classification of objects for chunked scanning.

use crate::datatypes::{
    datatype_of_tag, is_moved_datatype, is_valid_datatype, lemma_unmoved_type_stays, live_datatype,
    mmtk_jl_typetagof, names_datatype, resolve_datatype_ptr, resolve_forwarded_datatype_addr,
    typetag,
};
use crate::heap::{Heap, HeapView, ObjectReference};
use crate::julia_types::{tag_word, MIN_POINTER, SMALL_TAG_LIMIT, TAGGED_VALUE_SIZE};
use crate::layouts::{elements_boxed, first_ptr, read_elements_boxed, read_first_ptr};
use crate::memory::{offset_back, offset_by, wrap, Address};
use crate::object_steps::{
    body_steps, header_steps, is_pointer_tag, list_object_steps, memory_steps, object_steps, push_header,
    push_memory, MEMORY_KIND_OWNED,
};
use crate::slots::{JuliaMemorySlice, JuliaVMSlot, OffsetSlot, TypeTagSlot};
use crate::steps::Step;
use crate::traversal::{outcome, run, ScanView, Scanner, UnsupportedLayout};
use vstd::prelude::*;

verus! {

/// What an attempt to write a word from an address into a pipe says of the address.
#[derive(Clone, Copy, PartialEq, Eq, Structural, Debug)]
pub enum Probe {
    /// The address cannot be read.
    Unreadable,
    /// The address can be read, and the word is in the pipe and has to be taken out again.
    ReadableAndDrain,
    /// The address can be read, and the pipe holds no whole word.
    Readable,
}

/// Judges the result of an attempt to write a word from an address into a pipe: the number of
/// bytes that were written, or minus one.
pub fn judge_probe(written: i64) -> (r: Probe)
    ensures
        r == (if written == -1 {
            Probe::Unreadable
        } else if written == 8 {
            Probe::ReadableAndDrain
        } else {
            Probe::Readable
        }),
{
    if written == -1 {
        Probe::Unreadable
    } else if written == 8 {
        Probe::ReadableAndDrain
    } else {
        Probe::Readable
    }
}

/// Tests whether an address can be read.
pub fn is_address_readable(heap: &Heap, addr: Address) -> (r: bool)
    ensures
        r == heap@.readable(addr),
{
    heap.is_readable(addr)
}

/// Hands on a slot: it is reported if it lies in the main or the large-object space, and
/// otherwise taken for an object that is scanned once in a collection.
pub fn process_slot(heap: &Heap, scanner: &mut Scanner, slot: Address) -> (r: Result<
    (),
    UnsupportedLayout,
>)
    requires
        heap@.wf(),
    ensures
        outcome(r, final(scanner)@, run(heap@, old(scanner)@, seq![Step::Slot(slot)])),
{
    let mut steps: Vec<Step> = Vec::new();
    steps.push(Step::Slot(slot));
    assert(steps@ =~= seq![Step::Slot(slot)]);
    scanner.run_steps(heap, &steps)
}

/// Reports a word that points into an object, unless the word is zero or cannot be read.
pub fn process_offset_slot(heap: &Heap, scanner: &mut Scanner, slot: Address, offset: u64)
    ensures
        final(scanner)@ == (if slot != 0 && (heap@.is_in_spaces(slot) || heap@.readable(slot)) {
            old(scanner)@.reporting(JuliaVMSlot::Offset(OffsetSlot { slot_addr: slot, offset }))
        } else {
            old(scanner)@
        }),
{
    if slot == 0 {
        return;
    }
    if !heap.is_in_spaces(slot) && !heap.is_readable(slot) {
        return;
    }
    scanner.slots.push(JuliaVMSlot::Offset(OffsetSlot::new_with_offset(slot, offset)));
}

/// Scans an object: reports its type tag if that is a pointer, and hands on its references.
pub fn scan_julia_object(heap: &Heap, obj: Address, scanner: &mut Scanner) -> (r: Result<
    (),
    UnsupportedLayout,
>)
    requires
        heap@.wf(),
    ensures
        outcome(r, final(scanner)@, run(heap@, old(scanner)@, object_steps(heap@, obj))),
{
    let steps: Vec<Step> = list_object_steps(heap, obj);
    scanner.run_steps(heap, &steps)
}

/// The steps of a scan that was given the type of the object.
pub open spec fn typed_object_steps(h: HeapView, obj: u64, klass: u64) -> Seq<Step> {
    if klass == 0 {
        object_steps(h, obj)
    } else {
        header_steps(h, obj, klass) + (if h.field(klass, h.config.abi.datatype_name)
            == h.config.types.genericmemory_typename {
            memory_steps(h, obj, klass, false)
        } else {
            object_steps(h, obj)
        })
    }
}

/// Scans an object of a known type. A generic memory is scanned by that type; for any other
/// object only the report of the type tag goes by it.
pub fn scan_julia_object_with_type(
    heap: &Heap,
    obj: Address,
    scanner: &mut Scanner,
    klass: Address,
) -> (r: Result<(), UnsupportedLayout>)
    requires
        heap@.wf(),
    ensures
        outcome(r, final(scanner)@, run(heap@, old(scanner)@, typed_object_steps(heap@, obj, klass))),
{
    if klass == 0 {
        return scan_julia_object(heap, obj, scanner);
    }
    let ghost h = heap@;
    let mut steps: Vec<Step> = Vec::new();
    push_header(heap, &mut steps, obj, klass);
    if heap.load_field(klass, heap.config.abi.datatype_name)
        == heap.config.types.genericmemory_typename {
        push_memory(heap, &mut steps, obj, klass, false);
    } else {
        let mut body: Vec<Step> = list_object_steps(heap, obj);
        steps.append(&mut body);
    }
    assert(steps@ =~= typed_object_steps(h, obj, klass));
    scanner.run_steps(heap, &steps)
}

/// Scans a generic memory of a known type.
pub fn scan_genericmemory_with_type(
    heap: &Heap,
    obj: Address,
    scanner: &mut Scanner,
    vt: Address,
) -> (r: Result<(), UnsupportedLayout>)
    requires
        heap@.wf(),
    ensures
        outcome(r, final(scanner)@, run(heap@, old(scanner)@, memory_steps(heap@, obj, vt, false))),
{
    let mut steps: Vec<Step> = Vec::new();
    push_memory(heap, &mut steps, obj, vt, false);
    assert(steps@ =~= memory_steps(heap@, obj, vt, false));
    scanner.run_steps(heap, &steps)
}

/// What an object is to a scan that splits large arrays.
#[derive(Clone, Copy, PartialEq, Eq, Structural, Debug)]
pub enum ObjectKind {
    Scalar,
    /// An array of references, with its length or element size.
    ObjArray(u32),
    /// An array without references.
    ValArray,
}

/// The layout of the generic memory at `obj`; none if the object is no generic memory with a
/// usable layout.
pub open spec fn memory_layout(h: HeapView, obj: u64) -> Option<u64> {
    let vtag = live_datatype(h, typetag(h, obj));
    let vt = datatype_of_tag(h, vtag);
    let layout = h.field(vt, h.config.abi.datatype_layout);
    if names_datatype(h, vtag) && vt != 0 && h.field(vt, h.config.abi.datatype_name)
        == h.config.types.genericmemory_typename && layout >= MIN_POINTER {
        Some(layout)
    } else {
        None
    }
}

/// Finds the layout of a generic memory.
pub fn find_memory_layout(heap: &Heap, obj: Address) -> (r: Option<Address>)
    requires
        heap@.wf(),
    ensures
        r == memory_layout(heap@, obj),
{
    let vtag: u64 = resolve_forwarded_datatype_addr(heap, mmtk_jl_typetagof(heap, obj));
    if !is_valid_datatype(heap, vtag) {
        return None;
    }
    let vt: u64 = resolve_datatype_ptr(heap, vtag);
    if vt == 0 {
        return None;
    }
    if heap.load_field(vt, heap.config.abi.datatype_name)
        != heap.config.types.genericmemory_typename {
        return None;
    }
    let layout: u64 = heap.load_field(vt, heap.config.abi.datatype_layout);
    if layout < MIN_POINTER {
        return None;
    }
    Some(layout)
}

/// The kind of the object at `obj`: a generic memory with boxed elements is an array of
/// references of its length, counted in 32 bits; anything else is a scalar.
pub open spec fn object_kind(h: HeapView, obj: u64) -> ObjectKind {
    let length = h.field(obj, h.config.abi.genericmemory_length);
    match memory_layout(h, obj) {
        Some(layout) if elements_boxed(h, layout) => ObjectKind::ObjArray(
            (length % 0x1_0000_0000) as u32,
        ),
        _ => ObjectKind::Scalar,
    }
}

/// Classifies an object for chunked scanning.
pub fn get_julia_obj_kind(heap: &Heap, object: ObjectReference) -> (r: ObjectKind)
    requires
        heap@.wf(),
    ensures
        r == object_kind(heap@, object.raw),
{
    let obj: u64 = object.to_raw_address();
    match find_memory_layout(heap, obj) {
        None => ObjectKind::Scalar,
        Some(layout) => {
            let length: u64 = heap.load_field(obj, heap.config.abi.genericmemory_length);
            if read_elements_boxed(heap, layout) {
                ObjectKind::ObjArray((length % 0x1_0000_0000) as u32)
            } else {
                ObjectKind::Scalar
            }
        },
    }
}

/// The references of a generic memory, as a slice that the memory owns.
pub fn get_julia_obj_array_data(heap: &Heap, object: ObjectReference) -> (r: JuliaMemorySlice)
    ensures
        r.owner == object,
        r.start == heap@.field(object.raw, heap@.config.abi.genericmemory_ptr),
        r.count == heap@.field(object.raw, heap@.config.abi.genericmemory_length),
{
    let obj: u64 = object.to_raw_address();
    JuliaMemorySlice {
        owner: object,
        start: heap.load_field(obj, heap.config.abi.genericmemory_ptr),
        count: heap.load_field(obj, heap.config.abi.genericmemory_length),
    }
}

/// Whether the object at `obj` is a generic memory whose elements are references.
pub open spec fn is_obj_array(h: HeapView, obj: u64) -> bool {
    match memory_layout(h, obj) {
        Some(layout) => elements_boxed(h, layout),
        None => false,
    }
}

/// Tests whether an object is a generic memory whose elements are references.
pub fn is_julia_obj_array(heap: &Heap, object: ObjectReference) -> (r: bool)
    requires
        heap@.wf(),
    ensures
        r == is_obj_array(heap@, object.raw),
{
    match find_memory_layout(heap, object.to_raw_address()) {
        None => false,
        Some(layout) => read_elements_boxed(heap, layout),
    }
}

/// Whether the object at `obj` is a generic memory without references.
pub open spec fn is_val_array(h: HeapView, obj: u64) -> bool {
    match memory_layout(h, obj) {
        Some(layout) => !elements_boxed(h, layout) && first_ptr(h, layout) < 0,
        None => false,
    }
}

/// Tests whether an object is a generic memory without references.
pub fn is_julia_val_array(heap: &Heap, object: ObjectReference) -> (r: bool)
    requires
        heap@.wf(),
    ensures
        r == is_val_array(heap@, object.raw),
{
    match find_memory_layout(heap, object.to_raw_address()) {
        None => false,
        Some(layout) => !read_elements_boxed(heap, layout) && read_first_ptr(
            heap,
            layout,
        ).is_none(),
    }
}

/// Whether the object at `obj` can be an object at all: aligned, with a readable header that
/// marks a buffer, holds a small tag of a known type, or points to a mapped type.
pub open spec fn is_object(h: HeapView, obj: u64) -> bool {
    let vtag = typetag(h, obj);
    let small = h.small_typeof[(vtag / 8) as int];
    let live = live_datatype(h, vtag);
    &&& obj % 8 == 0
    &&& h.readable((obj - TAGGED_VALUE_SIZE) as u64)
    &&& if vtag == h.config.buff_tag {
        true
    } else if vtag == 0 {
        false
    } else if vtag < SMALL_TAG_LIMIT {
        small != 0 && names_datatype(h, small)
    } else if live < SMALL_TAG_LIMIT {
        live != 0
    } else {
        h.is_mapped(live) && names_datatype(h, live)
    }
}

/// Checks that an object can be an object at all.
pub fn is_valid_julia_object(heap: &Heap, object: ObjectReference) -> (r: bool)
    requires
        heap@.wf(),
        object.raw >= TAGGED_VALUE_SIZE,
    ensures
        r == is_object(heap@, object.raw),
{
    let obj: u64 = object.to_raw_address();
    if !heap.is_readable(obj - TAGGED_VALUE_SIZE) || obj % 8 != 0 {
        return false;
    }
    let vtag: u64 = mmtk_jl_typetagof(heap, obj);
    if vtag == heap.config.buff_tag {
        return true;
    }
    if vtag != 0 && vtag < SMALL_TAG_LIMIT {
        let dt: u64 = heap.small_typeof[(vtag / 8) as usize];
        if dt == 0 {
            return false;
        }
        return is_valid_datatype(heap, dt);
    }
    if vtag == 0 {
        return false;
    }
    let live: u64 = resolve_forwarded_datatype_addr(heap, vtag);
    if live < SMALL_TAG_LIMIT {
        return live != 0;
    }
    if !heap.is_mapped(live) {
        return false;
    }
    is_valid_datatype(heap, live)
}

/// The new data pointer of an array or memory reference whose backing memory, kept at `slot`,
/// moves to `new_mem`: it keeps its distance from the memory, if it points at inline data of it.
/// None where `slot` is no such place or the pointer does not point there.
pub open spec fn moved_data_pointer(h: HeapView, slot: u64, new_mem: u64) -> Option<u64> {
    let parent = wrap(slot - 8);
    let vt = typetag(h, parent);
    let name = h.field(vt, h.config.abi.datatype_name);
    let old_mem = h.word(slot);
    let old_ptr = h.word(parent);
    if {
        &&& slot % 8 == 0
        &&& h.is_mapped(parent)
        &&& vt >= tag_word(h.config.tags.max_tags)
        &&& names_datatype(h, vt)
        &&& vt != 0
        &&& name == h.config.types.array_typename || name
            == h.config.types.genericmemoryref_typename
        &&& old_mem != 0
        &&& h.memory_kind(old_mem) == 0
        &&& old_ptr != 0
        &&& old_ptr >= old_mem + 16
    } {
        Some(wrap(new_mem + (old_ptr - old_mem)))
    } else {
        None
    }
}

/// The heap in which the data pointer in front of `slot` has moved along with the backing memory
/// that is about to be stored there.
pub open spec fn array_ptr_update(h: HeapView, slot: u64, new_mem: u64) -> HeapView {
    match moved_data_pointer(h, slot, new_mem) {
        Some(p) => h.with_word(wrap(slot - 8), p),
        None => h,
    }
}

/// Moves the data pointer of an array along with its backing memory, which is about to be stored
/// at `slot_addr`.
pub fn update_array_ptr_or_offset_if_needed(
    heap: &mut Heap,
    slot_addr: Address,
    new_mem: ObjectReference,
)
    requires
        old(heap)@.wf(),
    ensures
        final(heap)@ == array_ptr_update(old(heap)@, slot_addr, new_mem.raw),
{
    if slot_addr % 8 != 0 {
        return;
    }
    let parent: u64 = offset_back(slot_addr, 8);
    if !heap.is_mapped(parent) {
        return;
    }
    let vt: u64 = mmtk_jl_typetagof(heap, parent);
    if vt < heap.config.tags.max_tags * 16 || !is_valid_datatype(heap, vt) || vt == 0 {
        return;
    }
    let name: u64 = heap.load_field(vt, heap.config.abi.datatype_name);
    if name != heap.config.types.array_typename && name
        != heap.config.types.genericmemoryref_typename {
        return;
    }
    let old_mem: u64 = heap.load_u64(slot_addr);
    if old_mem == 0 || heap.memory_kind(old_mem) != 0 {
        return;
    }
    let old_ptr: u64 = heap.load_u64(parent);
    if old_ptr == 0 || old_ptr < old_mem || old_ptr - old_mem < 16 {
        return;
    }
    heap.store_u64(parent, offset_by(new_mem.to_raw_address(), old_ptr - old_mem));
}

/// No object is both an array of references and an array without references. The arrays of
/// references are the objects of that kind, and every other object is a scalar.
pub proof fn lemma_array_kinds_agree(h: HeapView, obj: u64)
    ensures
        !(is_obj_array(h, obj) && is_val_array(h, obj)),
        object_kind(h, obj) is ObjArray <==> is_obj_array(h, obj),
        object_kind(h, obj) is Scalar <==> !is_obj_array(h, obj),
{
}

/// A scan in pieces sees what a scan of the whole sees: the addresses that the scan of an array of
/// references hands on are those of its array data, in order.
pub proof fn lemma_array_data_is_what_is_scanned(
    h: HeapView,
    obj: u64,
    vt: u64,
    data: JuliaMemorySlice,
    i: int,
)
    requires
        elements_boxed(h, h.field(vt, h.config.abi.datatype_layout)),
        h.memory_kind(obj) != MEMORY_KIND_OWNED,
        data.start == h.field(obj, h.config.abi.genericmemory_ptr),
        data.count == h.field(obj, h.config.abi.genericmemory_length),
        data.fits(),
    ensures
        memory_steps(h, obj, vt, false).len() == data.slots().len(),
        0 <= i < data.count ==> memory_steps(h, obj, vt, false)[i] == Step::Slot(
            data.slots()[i].address(),
        ),
{
}

/// An array without references hands on nothing, unless another object owns its data.
pub proof fn lemma_val_array_hands_on_nothing(h: HeapView, obj: u64, vt: u64, checked: bool)
    requires
        ({
            let layout = h.field(vt, h.config.abi.datatype_layout);
            !elements_boxed(h, layout) && first_ptr(h, layout) < 0
        }),
        h.memory_kind(obj) != MEMORY_KIND_OWNED,
    ensures
        memory_steps(h, obj, vt, checked) == Seq::<Step>::empty(),
{
}

/// To know the type of a generic memory changes nothing in its scan: the same slots are reported in
/// the same order as by the scan that reads the type from the header. That holds of a type that has
/// not moved and is no mere tag; it is the type itself and not the place where the runtime keeps the
/// type of types, and neither that of symbols nor of buffers.
pub proof fn lemma_known_type_scan(h: HeapView, st: ScanView, obj: u64, klass: u64)
    requires
        h.wf(),
        klass == 0 || {
            &&& klass == typetag(h, obj)
            &&& names_datatype(h, klass)
            &&& h.field(klass, h.config.abi.datatype_name) == h.config.types.genericmemory_typename
            &&& h.field(klass, h.config.abi.datatype_layout) >= MIN_POINTER
            &&& !is_moved_datatype(h, klass)
            &&& klass >= MIN_POINTER
            &&& klass != h.config.types.datatype_type_addr
            &&& klass != h.config.types.symbol_type
            &&& klass != h.config.buff_tag
        },
        h.config.types.array_typename != h.config.types.genericmemory_typename,
    ensures
        typed_object_steps(h, obj, klass) == object_steps(h, obj),
        run(h, st, typed_object_steps(h, obj, klass)) == run(h, st, object_steps(h, obj)),
{
    if klass != 0 {
        lemma_unmoved_type_stays(h, klass);
        assert(Seq::<Step>::empty() + memory_steps(h, obj, klass, true) =~= memory_steps(
            h,
            obj,
            klass,
            true,
        ));
        assert(body_steps(h, obj, klass) == memory_steps(h, obj, klass, false));
    }
}

/// To know the type of an object that is no generic memory changes nothing in what its scan reports
/// but this: the type tag is reported once more, first.
pub proof fn lemma_known_type_scan_of_others(h: HeapView, st: ScanView, obj: u64, klass: u64)
    requires
        klass != 0,
        is_pointer_tag(h, klass),
        h.field(klass, h.config.abi.datatype_name) != h.config.types.genericmemory_typename,
    ensures
        run(h, st, typed_object_steps(h, obj, klass)) == run(
            h,
            st.reporting(JuliaVMSlot::TypeTag(TypeTagSlot { address: wrap(obj - TAGGED_VALUE_SIZE) })),
            object_steps(h, obj),
        ),
{
    let steps = typed_object_steps(h, obj, klass);
    assert(steps.drop_first() =~= object_steps(h, obj));
}

} // verus!
