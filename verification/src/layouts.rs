//! Where the parts of runtime objects are: the elements of simple vectors, the pointer tables
//! of layouts, and the entries of backtraces.

use crate::heap::{Heap, HeapView, ObjectReference};
use crate::memory::{lemma_wrap_twice, offset_by, offset_words, wrap, Address};
use vstd::prelude::*;

verus! {

/// The number of extra words that an array needs for its dimensions.
pub fn mmtk_jl_array_ndimwords(ndims: u32) -> (r: usize)
    ensures
        r == (if ndims < 3 {
            0
        } else {
            ndims - 2
        }),
{
    if ndims < 3 {
        return 0;
    }
    (ndims - 2) as usize
}

/// The number of elements of the simple vector at `a`.
pub open spec fn svec_len(h: HeapView, a: u64) -> u64 {
    h.field(a, h.config.abi.svec_length)
}

/// Where the elements of the simple vector at `a` start.
pub open spec fn svec_data(h: HeapView, a: u64) -> u64 {
    wrap(a + h.config.abi.svec_size)
}

/// Reads the number of elements of a simple vector.
pub fn mmtk_jl_svec_len(heap: &Heap, obj: Address) -> (r: u64)
    ensures
        r == svec_len(heap@, obj),
{
    heap.load_field(obj, heap.config.abi.svec_length)
}

/// Finds where the elements of a simple vector start.
pub fn mmtk_jl_svec_data(heap: &Heap, obj: Address) -> (r: Address)
    ensures
        r == svec_data(heap@, obj),
{
    offset_by(obj, heap.config.abi.svec_size)
}

/// Reads the word that lies `i` bytes into the elements of a simple vector.
pub fn mmtk_jl_svecref(heap: &Heap, vt: Address, i: u64) -> (r: Address)
    ensures
        r == heap@.word(wrap(svec_data(heap@, vt) + i)),
{
    heap.load_u64(offset_by(mmtk_jl_svec_data(heap, vt), i))
}

/// Reads the first parameter of a type.
pub fn mmtk_jl_tparam0(heap: &Heap, vt: Address) -> (r: Address)
    ensures
        r == heap@.word(svec_data(heap@, heap@.field(vt, heap@.config.abi.datatype_parameters))),
{
    let parameters: u64 = heap.load_field(vt, heap.config.abi.datatype_parameters);
    mmtk_jl_svecref(heap, parameters, 0)
}

/// The width class of the field descriptors of the layout at `l`.
pub open spec fn fielddesc_type(h: HeapView, l: u64) -> u16 {
    let field = h.config.abi.layout_fielddesc_type;
    field.of(h.half(wrap(l + field.offset)))
}

/// Whether the layout at `l` is that of arrays whose elements are pointers.
pub open spec fn elements_boxed(h: HeapView, l: u64) -> bool {
    let field = h.config.abi.layout_arrayelem_isboxed;
    field.of(h.half(wrap(l + field.offset))) != 0
}

/// Whether the layout at `l` is that of arrays whose elements carry a selector byte each.
pub open spec fn elements_union(h: HeapView, l: u64) -> bool {
    let field = h.config.abi.layout_arrayelem_isunion;
    field.of(h.half(wrap(l + field.offset))) != 0
}

/// The instance size that the layout at `l` gives.
pub open spec fn layout_size(h: HeapView, l: u64) -> u32 {
    h.quad(wrap(l + h.config.abi.layout_size))
}

/// The number of pointers in an instance, by the layout at `l`.
pub open spec fn npointers(h: HeapView, l: u64) -> u32 {
    h.quad(wrap(l + h.config.abi.layout_npointers))
}

/// The number that two's-complement bits stand for.
pub open spec fn signed(bits: u32) -> int {
    if bits < 0x8000_0000 {
        bits as int
    } else {
        bits - 0x1_0000_0000
    }
}

/// The word index of the first pointer of an instance, by the layout at `l`; negative if there
/// is none.
pub open spec fn first_ptr(h: HeapView, l: u64) -> int {
    signed(h.quad(wrap(l + h.config.abi.layout_first_ptr)))
}

/// The size of a field descriptor of a width class.
pub open spec fn fielddesc_size(class: u16) -> int {
    if class == 0 {
        2
    } else if class == 1 {
        4
    } else if class == 2 {
        8
    } else {
        16
    }
}

/// Where the pointer table of the layout at `l` starts: behind its field descriptors.
pub open spec fn layout_ptrs(h: HeapView, l: u64) -> u64 {
    let nfields = h.quad(wrap(l + h.config.abi.layout_nfields));
    wrap(
        l + h.config.abi.layout_header_size + (fielddesc_size(fielddesc_type(h, l)) * nfields)
            % 0x1_0000_0000,
    )
}

/// Reads the width class of the field descriptors of a layout.
pub fn read_fielddesc_type(heap: &Heap, l: Address) -> (r: u16)
    requires
        heap@.wf(),
    ensures
        r == fielddesc_type(heap@, l),
        r <= 3,
{
    let field = heap.config.abi.layout_fielddesc_type;
    let number: u16 = heap.load_u16(offset_by(l, field.offset));
    let r: u16 = field.extract(number);
    proof {
        let shifted = number >> field.shift;
        let mask = field.mask;
        assert(shifted & mask <= mask) by (bit_vector);
    }
    r
}

/// Reads whether the elements of an array type are pointers.
pub fn read_elements_boxed(heap: &Heap, l: Address) -> (r: bool)
    requires
        heap@.wf(),
    ensures
        r == elements_boxed(heap@, l),
{
    let field = heap.config.abi.layout_arrayelem_isboxed;
    field.extract(heap.load_u16(offset_by(l, field.offset))) != 0
}

/// Reads whether the elements of an array type carry a selector byte each.
pub fn read_elements_union(heap: &Heap, l: Address) -> (r: bool)
    requires
        heap@.wf(),
    ensures
        r == elements_union(heap@, l),
{
    let field = heap.config.abi.layout_arrayelem_isunion;
    field.extract(heap.load_u16(offset_by(l, field.offset))) != 0
}

/// Reads the instance size of a layout.
pub fn read_layout_size(heap: &Heap, l: Address) -> (r: u32)
    ensures
        r == layout_size(heap@, l),
{
    heap.load_u32(offset_by(l, heap.config.abi.layout_size))
}

/// Reads the number of pointers of a layout.
pub fn read_npointers(heap: &Heap, l: Address) -> (r: u32)
    ensures
        r == npointers(heap@, l),
{
    heap.load_u32(offset_by(l, heap.config.abi.layout_npointers))
}

/// Reads the word index of the first pointer of a layout; none if it has no pointer.
pub fn read_first_ptr(heap: &Heap, l: Address) -> (r: Option<u32>)
    ensures
        match r {
            Some(i) => first_ptr(heap@, l) == i,
            None => first_ptr(heap@, l) < 0,
        },
{
    let bits: u32 = heap.load_u32(offset_by(l, heap.config.abi.layout_first_ptr));
    if bits < 0x8000_0000 {
        Some(bits)
    } else {
        None
    }
}

/// The size of a field descriptor of a width class.
pub fn mmtk_jl_fielddesc_size(fielddesc_type: u16) -> (r: u32)
    requires
        fielddesc_type <= 3,
    ensures
        r == fielddesc_size(fielddesc_type),
{
    proof {
        assert(2u32 << 0u16 == 2) by (bit_vector);
        assert(2u32 << 1u16 == 4) by (bit_vector);
        assert(2u32 << 2u16 == 8) by (bit_vector);
        assert(2u32 << 3u16 == 16) by (bit_vector);
    }
    2u32 << fielddesc_type
}

/// Finds where the field descriptors of a layout start.
pub fn mmtk_jl_dt_layout_fields(heap: &Heap, l: Address) -> (r: Address)
    ensures
        r == wrap(l + heap@.config.abi.layout_header_size),
{
    offset_by(l, heap.config.abi.layout_header_size)
}

/// Finds where the pointer table of a layout starts.
pub fn mmtk_jl_dt_layout_ptrs(heap: &Heap, l: Address) -> (r: Address)
    requires
        heap@.wf(),
    ensures
        r == layout_ptrs(heap@, l),
{
    let nfields: u32 = heap.load_u32(offset_by(l, heap.config.abi.layout_nfields));
    let size: u32 = mmtk_jl_fielddesc_size(read_fielddesc_type(heap, l));
    let descriptors: u32 = size.wrapping_mul(nfields);
    assert(descriptors == (size * nfields) % 0x1_0000_0000);
    proof {
        lemma_wrap_twice(l + heap@.config.abi.layout_header_size, descriptors as int);
    }
    offset_by(mmtk_jl_dt_layout_fields(heap, l), descriptors as u64)
}

/// The first word of a backtrace entry that is not a native frame.
pub const JL_BT_NON_PTR_ENTRY: u64 = 0xffff_ffff_ffff_ffff;

/// Whether the backtrace entry at `e` is a native frame.
pub open spec fn bt_is_native(h: HeapView, e: u64) -> bool {
    h.word(e) != JL_BT_NON_PTR_ENTRY
}

/// The number of references in the backtrace entry at `e`.
pub open spec fn bt_num_jlvals(h: HeapView, e: u64) -> int {
    h.field(e, 8) as int % 8
}

/// The number of plain numbers in the backtrace entry at `e`.
pub open spec fn bt_num_uintvals(h: HeapView, e: u64) -> int {
    h.field(e, 8) as int / 8 % 8
}

/// The number of words of the backtrace entry at `e`.
pub open spec fn bt_entry_size(h: HeapView, e: u64) -> int {
    if bt_is_native(h, e) {
        1
    } else {
        2 + bt_num_jlvals(h, e) + bt_num_uintvals(h, e)
    }
}

/// Where the `i`-th reference of the backtrace entry at `e` is kept.
pub open spec fn bt_jlvalue_slot(e: u64, i: int) -> u64 {
    wrap(e + 8 * (2 + i))
}

/// Tests whether a backtrace entry is a native frame.
pub fn mmtk_jl_bt_is_native(heap: &Heap, bt_entry: Address) -> (r: bool)
    ensures
        r == bt_is_native(heap@, bt_entry),
{
    heap.load_u64(bt_entry) != JL_BT_NON_PTR_ENTRY
}

/// Reads the number of references in a backtrace entry.
pub fn mmtk_jl_bt_num_jlvals(heap: &Heap, bt_entry: Address) -> (r: u64)
    ensures
        r == bt_num_jlvals(heap@, bt_entry),
        r <= 7,
{
    let entry: u64 = heap.load_field(bt_entry, 8);
    proof {
        assert(entry & 0x7 == entry % 8) by (bit_vector);
    }
    entry & 0x7
}

/// Reads the number of plain numbers in a backtrace entry.
pub fn mmtk_jl_bt_num_uintvals(heap: &Heap, bt_entry: Address) -> (r: u64)
    ensures
        r == bt_num_uintvals(heap@, bt_entry),
        r <= 7,
{
    let entry: u64 = heap.load_field(bt_entry, 8);
    proof {
        assert((entry >> 3) & 0x7 == (entry / 8) % 8) by (bit_vector);
    }
    (entry >> 3) & 0x7
}

/// Computes the number of words of a backtrace entry.
pub fn mmtk_jl_bt_entry_size(heap: &Heap, bt_entry: Address) -> (r: u64)
    ensures
        r == bt_entry_size(heap@, bt_entry),
        1 <= r <= 16,
{
    if mmtk_jl_bt_is_native(heap, bt_entry) {
        1
    } else {
        2 + mmtk_jl_bt_num_jlvals(heap, bt_entry) + mmtk_jl_bt_num_uintvals(heap, bt_entry)
    }
}

/// Reads a reference of a backtrace entry.
pub fn mmtk_jl_bt_entry_jlvalue(heap: &Heap, bt_entry: Address, i: u64) -> (r: ObjectReference)
    requires
        heap@.word(bt_jlvalue_slot(bt_entry, i as int)) != 0,
    ensures
        r.raw == heap@.word(bt_jlvalue_slot(bt_entry, i as int)),
        r.wf(),
{
    ObjectReference { raw: heap.load_u64(mmtk_jl_bt_entry_jlvalue_slot(bt_entry, i)) }
}

/// Finds where a reference of a backtrace entry is kept.
pub fn mmtk_jl_bt_entry_jlvalue_slot(bt_entry: Address, i: u64) -> (r: Address)
    ensures
        r == bt_jlvalue_slot(bt_entry, i as int),
{
    offset_words(offset_by(bt_entry, 16), i)
}

/// Tests whether a type is a union.
pub fn mmtk_jl_is_uniontype(heap: &Heap, t: Address) -> (r: bool)
    requires
        heap@.wf(),
    ensures
        r == crate::datatypes::has_small_tag(heap@, t, heap@.config.tags.uniontype),
{
    crate::datatypes::mmtk_jl_typetagof(heap, t) == heap.config.tags.uniontype * 16
}

} // verus!
