//! Sizes and starts of objects, and how an object is copied.

use crate::api::{mmtk_get_obj_size, stored_size};
use crate::datatypes::{
    datatype_type, is_valid_datatype, live_datatype, live_type_of_tag, mmtk_jl_to_typeof_resolving,
    mmtk_jl_typeof, mmtk_jl_typeof_resolving, mmtk_jl_typetagof, names_datatype,
    resolve_forwarded_datatype_addr, safe_jl_datatype_type, type_of_tag, typetag,
};
use crate::heap::{Heap, HeapView, ObjectReference};
use crate::julia_types::{tag_word, MIN_POINTER, SMALL_TAG_LIMIT};
use crate::layouts::{
    elements_union, layout_size, mmtk_jl_svec_len, read_elements_union, read_layout_size, svec_len,
};
use crate::memory::{
    disjoint, lemma_copy_keeps_source, lemma_word_after_copy, offset_back, offset_by, with_copy, with_zeros, wrap,
    Address,
};
use crate::object_steps::{has_kind_tag, is_kind_tag};
use vstd::prelude::*;

verus! {

/// The first address of the large-object space.
pub const LOS_START: u64 = 0x600_0000_0000;

/// The end of the large-object space.
pub const LOS_END: u64 = 0x800_0000_0000;

/// How far into its allocation a large object starts.
pub const LOS_OBJECT_OFFSET: u64 = 48;

/// The layout of objects of a runtime that is bound to the collector.
pub struct VMObjectModel {}

/// Whether an address lies in the large-object space.
pub open spec fn in_los(a: u64) -> bool {
    LOS_START <= a < LOS_END
}

/// Tests whether an object lies in the large-object space.
pub fn is_object_in_los(object: &ObjectReference) -> (r: bool)
    ensures
        r == in_los(object.raw),
{
    object.to_raw_address() >= LOS_START && object.to_raw_address() < LOS_END
}

/// The smallest multiple of `align` that is not below `n`.
pub open spec fn aligned(n: int, align: int) -> int {
    (n + align - 1) / align * align
}

/// Rounds a size up to a multiple of a power of two.
pub fn llt_align(size: u64, align: u64) -> (r: u64)
    requires
        align >= 1,
        size + align - 1 <= u64::MAX,
    ensures
        r == ((size + align - 1) as u64) & !((align - 1) as u64),
        align & ((align - 1) as u64) == 0 ==> {
            &&& size <= r < size + align
            &&& r & ((align - 1) as u64) == 0
        },
        align == 8 || align == 16 ==> r == aligned(size as int, align as int),
{
    let top: u64 = size + (align - 1);
    let low: u64 = align - 1;
    let r: u64 = top & !low;
    proof {
        assert(align & low == 0 && low == align - 1 && top >= low ==> {
            &&& top & !low <= top
            &&& top - (top & !low) <= low
            &&& (top & !low) & low == 0
        }) by (bit_vector);
        if align == 8 {
            assert(top & !7 == top / 8 * 8) by (bit_vector);
        }
        if align == 16 {
            assert(top & !15 == top / 16 * 16) by (bit_vector);
        }
    }
    r
}

/// The body size of an object whose kind alone decides its size.
pub open spec fn kind_size(h: HeapView, vtag: u64) -> int {
    if vtag == tag_word(h.config.tags.datatype) {
        h.config.abi.datatype_size as int
    } else if vtag == tag_word(h.config.tags.unionall) {
        24
    } else if vtag == tag_word(h.config.tags.uniontype) {
        16
    } else if vtag == tag_word(h.config.tags.tvar) {
        24
    } else {
        32
    }
}

/// The body size that a type gives its instances; nothing if the type has no layout.
pub open spec fn instance_size(h: HeapView, vt: u64) -> int {
    let layout = h.field(vt, h.config.abi.datatype_layout);
    if layout < MIN_POINTER {
        0
    } else {
        layout_size(h, layout) as int
    }
}

/// The size of an object with a small tag, header and padding included. A string is padded to
/// eight bytes, any other object to sixteen.
pub open spec fn small_tag_size(h: HeapView, obj: u64, vtag: u64) -> int {
    let abi = h.config.abi;
    let tags = h.config.tags;
    let header = h.config.header_size as int;
    if vtag == tag_word(tags.simplevector) {
        aligned(svec_len(h, obj) * 8 + abi.svec_size + header, 16)
    } else if vtag == tag_word(tags.module) {
        aligned(abi.module_size + header, 16)
    } else if vtag == tag_word(tags.task) {
        aligned(abi.task_size + header, 16)
    } else if vtag == tag_word(tags.string) {
        aligned(h.word(obj) + 9 + header, 8)
    } else if h.small_typeof[(vtag / 8) as int] == 0 {
        aligned(header, 16)
    } else {
        aligned(instance_size(h, h.small_typeof[(vtag / 8) as int]) + header, 16)
    }
}

/// The bytes of the elements of a generic memory that holds them inline, selector bytes of a
/// union type included.
pub open spec fn inline_data_size(h: HeapView, obj: u64, vt: u64) -> int {
    let layout = h.field(vt, h.config.abi.datatype_layout);
    let length = h.field(obj, h.config.abi.genericmemory_length);
    layout_size(h, layout) * length + (if elements_union(h, layout) {
        length as int
    } else {
        0
    })
}

/// The size of an instance of a type, header and padding included.
pub open spec fn typed_size(h: HeapView, obj: u64, vt: u64) -> int {
    let abi = h.config.abi;
    let header = h.config.header_size as int;
    if vt == 0 {
        512
    } else if h.field(vt, abi.datatype_name) == h.config.types.genericmemory_typename {
        if h.memory_kind(obj) == 0 {
            aligned(
                inline_data_size(h, obj, vt) + aligned(abi.genericmemory_size as int, 16) + header,
                16,
            )
        } else {
            aligned(abi.genericmemory_size + 8 + header, 16)
        }
    } else {
        aligned(instance_size(h, vt) + header, 16)
    }
}

/// The type that a live type pointer stands for.
pub open spec fn type_of_pointer(h: HeapView, vtag: u64) -> u64 {
    if vtag < MIN_POINTER {
        datatype_type(h)
    } else {
        vtag
    }
}

/// The size of an object, header and padding included. A buffer has its size stored in front of
/// it; an object whose tag names no type counts as an empty one.
pub open spec fn object_size(h: HeapView, obj: u64) -> int {
    let vtag = typetag(h, obj);
    let header = h.config.header_size as int;
    if vtag == h.config.buff_tag {
        stored_size(h, obj) as int
    } else if is_kind_tag(h, vtag) {
        aligned(kind_size(h, vtag) + header, 16)
    } else if vtag < tag_word(h.config.tags.max_tags) {
        small_tag_size(h, obj, vtag)
    } else if !names_datatype(h, live_datatype(h, vtag)) {
        aligned(header, 16)
    } else {
        typed_size(h, obj, type_of_pointer(h, live_datatype(h, vtag)))
    }
}

/// The tag of an object that names no type although it has to, with the moves of types followed:
/// a sign that the object is corrupt.
pub open spec fn unsound_tag(h: HeapView, obj: u64) -> Option<u64> {
    let vtag = typetag(h, obj);
    let live = live_datatype(h, vtag);
    if vtag != h.config.buff_tag && !is_kind_tag(h, vtag) && vtag >= tag_word(
        h.config.tags.max_tags,
    ) && !names_datatype(h, live) {
        Some(live)
    } else {
        None
    }
}

/// Finds the tag of an object that names no type although it has to. Such an object is sized as an
/// empty one.
pub fn find_unsound_tag(heap: &Heap, object: ObjectReference) -> (r: Option<Address>)
    requires
        heap@.wf(),
    ensures
        r == unsound_tag(heap@, object.raw),
        r is Some ==> object_size(heap@, object.raw) == aligned(
            heap@.config.header_size as int,
            16,
        ),
{
    let vtag: u64 = mmtk_jl_typetagof(heap, object.to_raw_address());
    if vtag == heap.config.buff_tag || has_kind_tag(heap, vtag) || vtag < heap.config.tags.max_tags
        * 16 {
        return None;
    }
    let live: u64 = resolve_forwarded_datatype_addr(heap, vtag);
    if is_valid_datatype(heap, live) {
        None
    } else {
        Some(live)
    }
}

/// The object whose forwarding status tells more of an unsound tag. Only a thread of the collector
/// can look it up, and only for what the collector manages.
pub open spec fn suspect_of(h: HeapView, tag: u64, on_gc_thread: bool) -> Option<ObjectReference> {
    if on_gc_thread && h.is_mapped(tag) {
        Some(ObjectReference { raw: tag | 8 })
    } else {
        None
    }
}

/// Finds the object whose forwarding status tells more of an unsound tag.
pub fn find_suspect(heap: &Heap, tag: Address, on_gc_thread: bool) -> (r: Option<ObjectReference>)
    ensures
        r == suspect_of(heap@, tag, on_gc_thread),
        r matches Some(object) ==> object.wf(),
{
    if on_gc_thread && heap.is_mapped(tag) {
        assert(tag | 8 != 0) by (bit_vector);
        Some(ObjectReference { raw: tag | 8 })
    } else {
        None
    }
}

/// Rounds a wide size up to a multiple of eight or sixteen.
fn align_wide(n: u128, align: u128) -> (r: u128)
    requires
        align == 8 || align == 16,
        n <= 0xffff_ffff_ffff_ffff_ffff_ffff_0000_0000,
    ensures
        r == aligned(n as int, align as int),
{
    if align == 8 {
        (n + 7) / 8 * 8
    } else {
        (n + 15) / 16 * 16
    }
}

/// Computes the body size that a type gives its instances.
fn get_instance_size(heap: &Heap, vt: Address) -> (r: u128)
    requires
        heap@.wf(),
    ensures
        r == instance_size(heap@, vt),
        r <= u32::MAX,
{
    let layout: u64 = heap.load_field(vt, heap.config.abi.datatype_layout);
    if layout < MIN_POINTER {
        0
    } else {
        read_layout_size(heap, layout) as u128
    }
}

/// Computes the size of an object with a small tag.
fn get_small_tag_size(heap: &Heap, obj: Address, vtag: Address) -> (r: u128)
    requires
        heap@.wf(),
        vtag < tag_word(heap@.config.tags.max_tags),
    ensures
        r == small_tag_size(heap@, obj, vtag),
{
    let abi = heap.config.abi;
    let tags = heap.config.tags;
    let header: u128 = heap.config.header_size as u128;
    if vtag == tags.simplevector * 16 {
        let length: u128 = mmtk_jl_svec_len(heap, obj) as u128;
        let dtsz: u128 = length * 8 + abi.svec_size as u128;
        return align_wide(dtsz + header, 16);
    }
    if vtag == tags.module * 16 {
        return align_wide(abi.module_size as u128 + header, 16);
    }
    if vtag == tags.task * 16 {
        return align_wide(abi.task_size as u128 + header, 16);
    }
    if vtag == tags.string * 16 {
        let length: u128 = heap.load_u64(obj) as u128;
        let dtsz: u128 = length + 8 + 1;
        // Strings are padded to eight bytes only.
        return align_wide(dtsz + header, 8);
    }
    let vt: u64 = heap.small_typeof[(vtag / 8) as usize];
    if vt == 0 {
        return align_wide(header, 16);
    }
    align_wide(get_instance_size(heap, vt) + header, 16)
}

/// Computes the bytes of the elements of a generic memory that holds them inline.
fn get_inline_data_size(heap: &Heap, obj: Address, vt: Address) -> (r: u128)
    requires
        heap@.wf(),
    ensures
        r == inline_data_size(heap@, obj, vt),
        r <= 0xffff_ffff_ffff_ffff_ffff_ffff,
{
    let layout: u64 = heap.load_field(vt, heap.config.abi.datatype_layout);
    let length: u64 = heap.load_field(obj, heap.config.abi.genericmemory_length);
    let element: u32 = read_layout_size(heap, layout);
    assert(0 <= element * length <= 0xffff_ffff * 0xffff_ffff_ffff_ffff) by (nonlinear_arith)
        requires
            0 <= element <= 0xffff_ffff,
            0 <= length <= 0xffff_ffff_ffff_ffff,
    ;
    let sz: u128 = element as u128 * length as u128;
    if read_elements_union(heap, layout) {
        sz + length as u128
    } else {
        sz
    }
}

/// Computes the size of an instance of a type.
fn get_typed_size(heap: &Heap, obj: Address, vt: Address) -> (r: u128)
    requires
        heap@.wf(),
    ensures
        r == typed_size(heap@, obj, vt),
{
    let abi = heap.config.abi;
    let header: u128 = heap.config.header_size as u128;
    if vt == 0 {
        return 512;
    }
    if heap.load_field(vt, abi.datatype_name) == heap.config.types.genericmemory_typename {
        if heap.memory_kind(obj) == 0 {
            let sz: u128 = get_inline_data_size(heap, obj, vt);
            let dtsz: u128 = align_wide(abi.genericmemory_size as u128, 16);
            return align_wide(sz + dtsz + header, 16);
        }
        let dtsz: u128 = abi.genericmemory_size as u128 + 8;
        return align_wide(dtsz + header, 16);
    }
    align_wide(get_instance_size(heap, vt) + header, 16)
}

/// Computes the size of an object without a limit on sizes.
fn get_wide_object_size(heap: &Heap, object: ObjectReference) -> (r: u128)
    requires
        heap@.wf(),
    ensures
        r == object_size(heap@, object.raw),
{
    let obj: u64 = object.to_raw_address();
    let header: u128 = heap.config.header_size as u128;
    let vtag: u64 = mmtk_jl_typetagof(heap, obj);
    let tags = heap.config.tags;
    if vtag == heap.config.buff_tag {
        return mmtk_get_obj_size(heap, object) as u128;
    }
    if has_kind_tag(heap, vtag) {
        let dtsz: u128 = if vtag == tags.datatype * 16 {
            heap.config.abi.datatype_size as u128
        } else if vtag == tags.unionall * 16 {
            24
        } else if vtag == tags.uniontype * 16 {
            16
        } else if vtag == tags.tvar * 16 {
            24
        } else {
            32
        };
        return align_wide(dtsz + header, 16);
    }
    if vtag < tags.max_tags * 16 {
        return get_small_tag_size(heap, obj, vtag);
    }
    // The type may itself have been moved in this collection.
    let live: u64 = resolve_forwarded_datatype_addr(heap, vtag);
    if !is_valid_datatype(heap, live) {
        return align_wide(header, 16);
    }
    let vt: u64 = if live < MIN_POINTER {
        safe_jl_datatype_type(heap)
    } else {
        live
    };
    get_typed_size(heap, obj, vt)
}

/// Computes the size of an object, header and padding included.
pub fn get_so_object_size(heap: &Heap, object: ObjectReference) -> (r: u64)
    requires
        heap@.wf(),
        object_size(heap@, object.raw) <= u64::MAX,
    ensures
        r == object_size(heap@, object.raw),
{
    get_wide_object_size(heap, object) as u64
}

/// Computes the size of an object, unless it does not fit into a word.
pub fn checked_object_size(heap: &Heap, object: ObjectReference) -> (r: Option<u64>)
    requires
        heap@.wf(),
    ensures
        r is Some == (object_size(heap@, object.raw) <= u64::MAX),
        r matches Some(size) ==> size == object_size(heap@, object.raw),
{
    let size: u128 = get_wide_object_size(heap, object);
    if size <= 0xffff_ffff_ffff_ffff {
        Some(size as u64)
    } else {
        None
    }
}

/// Where the allocation of an object outside the large-object space starts: one header in front
/// of the object, two in front of a buffer.
pub open spec fn plain_start(h: HeapView, obj: u64) -> u64 {
    if type_of_tag(h, typetag(h, obj)) == h.config.buff_tag {
        wrap(obj - 2 * h.config.header_size)
    } else {
        wrap(obj - h.config.header_size)
    }
}

/// Finds where the allocation of an object outside the large-object space starts.
pub fn get_object_start_ref(heap: &Heap, object: ObjectReference) -> (r: Address)
    requires
        heap@.wf(),
    ensures
        r == plain_start(heap@, object.raw),
{
    let obj: u64 = object.to_raw_address();
    let header: u64 = heap.config.header_size;
    if mmtk_jl_typeof(heap, obj) == heap.config.buff_tag {
        offset_back(offset_back(obj, header), header)
    } else {
        offset_back(obj, header)
    }
}

/// Where the allocation of an object starts.
pub open spec fn object_start(h: HeapView, obj: u64) -> u64 {
    if in_los(obj) {
        (obj - LOS_OBJECT_OFFSET) as u64
    } else {
        plain_start(h, obj)
    }
}

/// How far into its allocation an object starts.
pub open spec fn header_offset(h: HeapView, obj: u64) -> u64 {
    wrap(obj - object_start(h, obj))
}

/// What to allocate for the copy of an object: so many bytes, such that the address `offset`
/// bytes into them is aligned.
#[derive(Clone, Copy, PartialEq, Eq, Structural, Debug)]
pub struct CopyRequest {
    pub bytes: u64,
    pub align: u64,
    pub offset: u64,
}

/// Whether an object is a generic memory, judged by the live copy of its type.
pub open spec fn is_live_generic_memory(h: HeapView, obj: u64) -> bool {
    let vtag = typetag(h, obj);
    let vt = live_type_of_tag(h, vtag);
    &&& vtag >= tag_word(h.config.tags.max_tags)
    &&& names_datatype(h, live_datatype(h, vtag))
    &&& vt != 0
    &&& h.field(vt, h.config.abi.datatype_name) == h.config.types.genericmemory_typename
}

impl VMObjectModel {
    /// Computes the size of an object.
    pub fn get_current_size(heap: &Heap, object: ObjectReference) -> (r: u64)
        requires
            heap@.wf(),
            object_size(heap@, object.raw) <= u64::MAX,
        ensures
            r == object_size(heap@, object.raw),
    {
        get_so_object_size(heap, object)
    }

    /// Finds where the allocation of an object starts.
    pub fn ref_to_object_start(heap: &Heap, object: ObjectReference) -> (r: Address)
        requires
            heap@.wf(),
        ensures
            r == object_start(heap@, object.raw),
    {
        if is_object_in_los(&object) {
            object.to_raw_address() - LOS_OBJECT_OFFSET
        } else {
            get_object_start_ref(heap, object)
        }
    }

    /// The address that object metadata goes by.
    pub fn ref_to_header(object: ObjectReference) -> (r: Address)
        ensures
            r == object.raw,
    {
        object.to_raw_address()
    }

    /// What an object shows of itself.
    pub fn dump_object_s(_object: ObjectReference) -> (r: String)
        ensures
            r@ == "<julia object>"@,
    {
        String::from_str("<julia object>")
    }

    /// Finds the type of an object, followed to its live copy.
    pub fn get_class_pointer(heap: &Heap, object: ObjectReference) -> (r: Address)
        requires
            heap@.wf(),
        ensures
            r == live_type_of_tag(heap@, typetag(heap@, object.raw)),
    {
        mmtk_jl_typeof_resolving(heap, object.to_raw_address())
    }

    /// Says what to allocate for the copy of an object. Only plain objects and buffers outside
    /// the large-object space are copied.
    pub fn copy_request(heap: &Heap, from: ObjectReference) -> (r: CopyRequest)
        requires
            heap@.wf(),
            object_size(heap@, from.raw) <= u64::MAX,
            header_offset(heap@, from.raw) == 8 || header_offset(heap@, from.raw) == 16,
        ensures
            r.bytes == object_size(heap@, from.raw),
            r.align == 16,
            r.offset == header_offset(heap@, from.raw),
    {
        let bytes: u64 = VMObjectModel::get_current_size(heap, from);
        let from_start: u64 = VMObjectModel::ref_to_object_start(heap, from);
        CopyRequest { bytes, align: 16, offset: offset_back(from.to_raw_address(), from_start) }
    }

    /// Copies an object into the memory that was allocated for it, and finds its new address.
    pub fn copy(heap: &mut Heap, from: ObjectReference, dst: Address) -> (r: ObjectReference)
        requires
            old(heap)@.wf(),
            object_size(old(heap)@, from.raw) <= u64::MAX,
            header_offset(old(heap)@, from.raw) == 8 || header_offset(old(heap)@, from.raw) == 16,
            disjoint(
                object_start(old(heap)@, from.raw),
                object_size(old(heap)@, from.raw),
                dst,
                object_size(old(heap)@, from.raw),
            ),
        ensures
            final(heap)@ == old(heap)@.with_memory(
                with_copy(
                    old(heap)@.memory,
                    object_start(old(heap)@, from.raw),
                    dst,
                    object_size(old(heap)@, from.raw),
                ),
            ),
            r.raw == wrap(dst + header_offset(old(heap)@, from.raw)),
    {
        let request = VMObjectModel::copy_request(heap, from);
        let from_start: u64 = VMObjectModel::ref_to_object_start(heap, from);
        heap.memory.copy_bytes(from_start, dst, request.bytes);
        ObjectReference { raw: offset_by(dst, request.offset) }
    }

    /// Tests whether the runtime has to mend a copied object, which holds a pointer to its own
    /// inline data if it is a generic memory.
    pub fn needs_inlined_update(heap: &Heap, from: ObjectReference) -> (r: bool)
        requires
            heap@.wf(),
        ensures
            r == is_live_generic_memory(heap@, from.raw),
    {
        let vtag: u64 = mmtk_jl_typetagof(heap, from.to_raw_address());
        if vtag < heap.config.tags.max_tags * 16 || !is_valid_datatype(
            heap,
            resolve_forwarded_datatype_addr(heap, vtag),
        ) {
            return false;
        }
        let vt: u64 = mmtk_jl_to_typeof_resolving(heap, vtag);
        vt != 0 && heap.load_field(vt, heap.config.abi.datatype_name)
            == heap.config.types.genericmemory_typename
    }

    /// Wipes what an object that was copied away has left behind.
    pub fn wipe_copied(heap: &mut Heap, from_start: Address, bytes: u64)
        ensures
            final(heap)@ == old(heap)@.with_memory(
                with_zeros(old(heap)@.memory, from_start, bytes as int),
            ),
    {
        heap.memory.zero_bytes(from_start, bytes);
    }
}

/// What is mended as a generic memory is also sized as one, by the same live copy of its type. That
/// holds of every object whose tag is a pointer and not the tag of buffers.
pub proof fn lemma_mended_as_sized(h: HeapView, obj: u64)
    requires
        h.wf(),
        typetag(h, obj) >= SMALL_TAG_LIMIT,
        typetag(h, obj) != h.config.buff_tag,
        is_live_generic_memory(h, obj),
    ensures
        ({
            let vt = live_type_of_tag(h, typetag(h, obj));
            &&& h.field(vt, h.config.abi.datatype_name) == h.config.types.genericmemory_typename
            &&& object_size(h, obj) == typed_size(h, obj, vt)
        }),
{
}

proof fn lemma_aligned(n: int)
    ensures
        aligned(n, 16) % 16 == 0,
        aligned(n, 16) % 8 == 0,
        aligned(n, 16) >= n,
        aligned(n, 8) % 8 == 0,
        aligned(n, 8) >= n,
{
}

/// Whether a size is one that an object can have: a multiple of sixteen that has room for a
/// header.
spec fn is_padded(h: HeapView, size: int) -> bool {
    size % 16 == 0 && size % 8 == 0 && (size >= h.config.header_size || size == 512)
}

proof fn lemma_small_tag_size(h: HeapView, obj: u64, vtag: u64)
    ensures
        vtag != tag_word(h.config.tags.string) ==> is_padded(h, small_tag_size(h, obj, vtag)),
        small_tag_size(h, obj, vtag) % 8 == 0,
        small_tag_size(h, obj, vtag) >= h.config.header_size,
{
    let abi = h.config.abi;
    let header = h.config.header_size as int;
    lemma_aligned(svec_len(h, obj) * 8 + abi.svec_size + header);
    lemma_aligned(abi.module_size + header);
    lemma_aligned(abi.task_size + header);
    lemma_aligned(h.word(obj) + 9 + header);
    lemma_aligned(header);
    lemma_aligned(instance_size(h, h.small_typeof[(vtag / 8) as int]) + header);
}

proof fn lemma_typed_size(h: HeapView, obj: u64, vt: u64)
    ensures
        is_padded(h, typed_size(h, obj, vt)),
{
    let abi = h.config.abi;
    let header = h.config.header_size as int;
    let layout = h.field(vt, abi.datatype_layout);
    let length = h.field(obj, abi.genericmemory_length);
    assert(0 <= layout_size(h, layout) * length) by (nonlinear_arith)
        requires
            0 <= layout_size(h, layout),
            0 <= length,
    ;
    let fixed = aligned(abi.genericmemory_size as int, 16);
    lemma_aligned(abi.genericmemory_size as int);
    lemma_aligned(inline_data_size(h, obj, vt) + fixed + header);
    lemma_aligned(abi.genericmemory_size + 8 + header);
    lemma_aligned(instance_size(h, vt) + header);
}

/// The sizes of objects are multiples of sixteen that have room for the header; only buffers and
/// strings can have others, and a string has a multiple of eight.
pub proof fn lemma_sizes_are_aligned(h: HeapView, obj: u64)
    requires
        typetag(h, obj) != h.config.buff_tag,
    ensures
        object_size(h, obj) % 8 == 0,
        typetag(h, obj) != tag_word(h.config.tags.string) ==> object_size(h, obj) % 16 == 0,
        object_size(h, obj) >= h.config.header_size || object_size(h, obj) == 512,
{
    let vtag = typetag(h, obj);
    let header = h.config.header_size as int;
    lemma_aligned(kind_size(h, vtag) + header);
    lemma_aligned(header);
    lemma_small_tag_size(h, obj, vtag);
    lemma_typed_size(h, obj, type_of_pointer(h, live_datatype(h, vtag)));
}

/// A copied object reads like the object did: every word at a distance into the allocation, its
/// header included, is the same in the copy, and the source is left as it was.
pub proof fn lemma_copy_keeps_words(h: HeapView, start: u64, dst: u64, bytes: int, k: int)
    requires
        0 <= k,
        k + 8 <= bytes <= u64::MAX,
        disjoint(start, bytes, dst, bytes),
    ensures
        ({
            let after = h.with_memory(with_copy(h.memory, start, dst, bytes));
            &&& after.word(wrap(dst + k)) == h.word(wrap(start + k))
            &&& after.word(wrap(start + k)) == h.word(wrap(start + k))
        }),
{
    lemma_word_after_copy(h.memory, start, dst, bytes, k);
    lemma_copy_keeps_source(h.memory, start, dst, bytes, k);
}

} // verus!
