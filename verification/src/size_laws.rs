//! How large objects are and where they start, stated by what has to fit into them.

use crate::datatypes::{datatype_type, live_datatype, names_datatype, type_of_tag, typetag};
use crate::heap::{Heap, HeapView, ObjectReference};
use crate::layouts::{layout_size, svec_len};
use crate::memory::{
    disjoint, lemma_copy_keeps_source, lemma_within_plain, lemma_word_after_copy, lemma_wrap_twice,
    with_copy, with_zeros, wrap,
};
use crate::object_model::{
    aligned, get_so_object_size, header_offset, inline_data_size, instance_size,
    is_live_generic_memory, llt_align, object_size, object_start, suspect_of, typed_size,
    unsound_tag, CopyRequest, VMObjectModel,
};
use crate::scan_laws::{carries, is_instance, is_memory, lemma_tags_apart, settings_apart};
use vstd::prelude::*;

verus! {

/// Whether a size has room for a content and is the least multiple of a unit that does.
pub open spec fn just_holds(size: int, content: int, unit: int) -> bool {
    &&& size % unit == 0
    &&& content <= size < content + unit
}

proof fn lemma_rounding(n: int)
    ensures
        just_holds(aligned(n, 16), n, 16),
        just_holds(aligned(n, 8), n, 8),
{
}

/// A size is pinned down by what it just holds.
pub proof fn lemma_just_one_size(size: int, other: int, content: int, unit: int)
    requires
        unit > 0,
        just_holds(size, content, unit),
        just_holds(other, content, unit),
    ensures
        size == other,
{
    let q = size / unit;
    let p = other / unit;
    vstd::arithmetic::div_mod::lemma_fundamental_div_mod(size, unit);
    vstd::arithmetic::div_mod::lemma_fundamental_div_mod(other, unit);
    assert(q == p) by (nonlinear_arith)
        requires
            size == unit * q,
            other == unit * p,
            size - other < unit,
            other - size < unit,
            unit > 0,
    ;
}

proof fn lemma_instance_of_size(h: HeapView, obj: u64, vt: u64)
    requires
        h.wf(),
        is_instance(h, obj, vt),
    ensures
        object_size(h, obj) == typed_size(h, obj, vt),
{
}

/// Whether the elements of the arrays with a layout carry a selector byte each, read from its bit
/// field.
pub open spec fn recorded_union(h: HeapView, layout: u64) -> bool {
    let f = h.config.abi.layout_arrayelem_isunion;
    (h.half(wrap(layout + f.offset)) >> f.shift) & f.mask != 0
}

/// The bytes that one more element takes in a generic memory that holds its elements itself.
pub open spec fn bytes_per_element(h: HeapView, vt: u64) -> int {
    let layout = h.word(wrap(vt + h.config.abi.datatype_layout));
    h.quad(wrap(layout + h.config.abi.layout_size)) + (if recorded_union(h, layout) {
        1int
    } else {
        0
    })
}

/// A generic memory that holds its elements itself has room for its header, for its fixed part,
/// padded to sixteen bytes, and for its elements, selector bytes included.
pub proof fn lemma_inline_memory_size(h: HeapView, obj: u64, vt: u64, base: int)
    requires
        h.wf(),
        is_memory(h, obj, vt),
        h.memory_kind(obj) == 0,
        just_holds(base, h.config.abi.genericmemory_size as int, 16),
    ensures
        ({
            let n = h.word(wrap(obj + h.config.abi.genericmemory_length));
            just_holds(
                object_size(h, obj),
                bytes_per_element(h, vt) * n + base + h.config.header_size,
                16,
            )
        }),
{
    let n = h.word(wrap(obj + h.config.abi.genericmemory_length));
    let fixed = aligned(h.config.abi.genericmemory_size as int, 16);
    let layout = h.word(wrap(vt + h.config.abi.datatype_layout));
    let size = layout_size(h, layout);
    lemma_instance_of_size(h, obj, vt);
    lemma_rounding(h.config.abi.genericmemory_size as int);
    lemma_just_one_size(fixed, base, h.config.abi.genericmemory_size as int, 16);
    assert((size + 1) * n == size * n + n) by (nonlinear_arith);
    assert((size + 0) * n == size * n) by (nonlinear_arith);
    assert(inline_data_size(h, obj, vt) == bytes_per_element(h, vt) * n);
    lemma_rounding(inline_data_size(h, obj, vt) + fixed + h.config.header_size);
}

/// A generic memory whose elements are somewhere else has room for its header, its fixed part and
/// one more word, however many elements it has and whoever holds them.
pub proof fn lemma_outside_memory_size(h: HeapView, obj: u64, vt: u64)
    requires
        h.wf(),
        is_memory(h, obj, vt),
        h.memory_kind(obj) != 0,
    ensures
        just_holds(
            object_size(h, obj),
            h.config.abi.genericmemory_size + 8 + h.config.header_size,
            16,
        ),
{
    lemma_instance_of_size(h, obj, vt);
    lemma_rounding(h.config.abi.genericmemory_size + 8 + h.config.header_size);
}

/// Generic memories whose elements are somewhere else are all of one size, whatever their lengths
/// and whoever holds the elements.
pub proof fn lemma_outside_memories_alike(h: HeapView, a: u64, b: u64, vt: u64)
    requires
        h.wf(),
        is_memory(h, a, vt),
        is_memory(h, b, vt),
        h.memory_kind(a) != 0,
        h.memory_kind(b) != 0,
    ensures
        object_size(h, a) == object_size(h, b),
{
    lemma_outside_memory_size(h, a, vt);
    lemma_outside_memory_size(h, b, vt);
    lemma_just_one_size(
        object_size(h, a),
        object_size(h, b),
        h.config.abi.genericmemory_size + 8 + h.config.header_size,
        16,
    );
}

/// Of generic memories that hold their elements themselves, one grows over another by the bytes of
/// the elements that it has more, but for the padding.
pub proof fn lemma_memory_growth(h: HeapView, a: u64, b: u64, vt: u64)
    requires
        h.wf(),
        is_memory(h, a, vt),
        is_memory(h, b, vt),
        h.memory_kind(a) == 0,
        h.memory_kind(b) == 0,
    ensures
        ({
            let na = h.word(wrap(a + h.config.abi.genericmemory_length));
            let nb = h.word(wrap(b + h.config.abi.genericmemory_length));
            let growth = bytes_per_element(h, vt) * (nb - na);
            let difference = object_size(h, b) - object_size(h, a);
            &&& difference - 16 < growth < difference + 16
            &&& growth % 16 == 0 ==> difference == growth
        }),
{
    let na = h.word(wrap(a + h.config.abi.genericmemory_length));
    let nb = h.word(wrap(b + h.config.abi.genericmemory_length));
    let per = bytes_per_element(h, vt);
    let base = aligned(h.config.abi.genericmemory_size as int, 16);
    lemma_rounding(h.config.abi.genericmemory_size as int);
    lemma_inline_memory_size(h, a, vt, base);
    lemma_inline_memory_size(h, b, vt, base);
    lemma_growth(
        per,
        na as int,
        nb as int,
        base + h.config.header_size,
        object_size(h, a),
        object_size(h, b),
    );
}

proof fn lemma_growth(per: int, na: int, nb: int, fixed: int, sa: int, sb: int)
    requires
        just_holds(sa, per * na + fixed, 16),
        just_holds(sb, per * nb + fixed, 16),
    ensures
        sb - sa - 16 < per * (nb - na) < sb - sa + 16,
        (per * (nb - na)) % 16 == 0 ==> sb - sa == per * (nb - na),
{
    let growth = per * (nb - na);
    assert(growth == per * nb - per * na) by (nonlinear_arith)
        requires
            growth == per * (nb - na),
    ;
}

/// An instance of any other type has room for its header and for the bytes that the layout of the
/// type records; without a layout it is a mere header.
pub proof fn lemma_instance_object_size(h: HeapView, obj: u64, vt: u64)
    requires
        h.wf(),
        is_instance(h, obj, vt),
        !is_memory(h, obj, vt),
    ensures
        ({
            let layout = h.word(wrap(vt + h.config.abi.datatype_layout));
            let body = h.quad(wrap(layout + h.config.abi.layout_size));
            &&& layout >= 0x20000 ==> just_holds(
                object_size(h, obj),
                body + h.config.header_size,
                16,
            )
            &&& layout < 0x20000 ==> just_holds(
                object_size(h, obj),
                h.config.header_size as int,
                16,
            )
        }),
{
    lemma_instance_of_size(h, obj, vt);
    lemma_rounding(instance_size(h, vt) + h.config.header_size);
}

/// Objects with a small tag have room for their header and for what their tag says that they hold:
/// a simple vector for a word per element behind its fixed part, a module, a task and a type for
/// their structs, the other kinds of types for their fields.
pub proof fn lemma_small_object_size(h: HeapView, obj: u64, tag: u64)
    requires
        settings_apart(h),
        tag < h.config.tags.max_tags,
        carries(h, obj, tag),
    ensures
        ({
            let abi = h.config.abi;
            let t = h.config.tags;
            let size = object_size(h, obj);
            let header = h.config.header_size as int;
            let n = h.word(wrap(obj + abi.svec_length));
            &&& tag == t.simplevector ==> just_holds(size, 8 * n + abi.svec_size + header, 16)
            &&& tag == t.module ==> just_holds(size, abi.module_size + header, 16)
            &&& tag == t.task ==> just_holds(size, abi.task_size + header, 16)
            &&& tag == t.string ==> just_holds(size, h.word(obj) + 8 + 1 + header, 8)
            &&& tag == t.datatype ==> just_holds(size, abi.datatype_size + header, 16)
            &&& tag == t.unionall ==> just_holds(size, 3 * 8 + header, 16)
            &&& tag == t.uniontype ==> just_holds(size, 2 * 8 + header, 16)
            &&& tag == t.tvar ==> just_holds(size, 3 * 8 + header, 16)
            &&& tag == t.vararg ==> just_holds(size, 4 * 8 + header, 16)
        }),
{
    let abi = h.config.abi;
    let header = h.config.header_size as int;
    lemma_tags_apart(h);
    assert(typetag(h, obj) < 1024);
    lemma_rounding(svec_len(h, obj) * 8 + abi.svec_size + header);
    lemma_rounding(abi.module_size + header);
    lemma_rounding(abi.task_size + header);
    lemma_rounding(h.word(obj) + 9 + header);
    lemma_rounding(abi.datatype_size + header);
    lemma_rounding(24 + header);
    lemma_rounding(16 + header);
    lemma_rounding(32 + header);
}

/// Any other object with a small tag has room for its header and for what the layout of the type
/// that the tag stands for records; a tag that stands for no type is that of a mere header.
pub proof fn lemma_small_instance_size(h: HeapView, obj: u64, tag: u64)
    requires
        settings_apart(h),
        tag < h.config.tags.max_tags,
        carries(h, obj, tag),
        ({
            let t = h.config.tags;
            let named = seq![
                t.datatype,
                t.unionall,
                t.uniontype,
                t.tvar,
                t.vararg,
                t.module,
                t.simplevector,
                t.string,
                t.task,
            ];
            forall|i: int| 0 <= i < named.len() ==> tag != #[trigger] named[i]
        }),
    ensures
        ({
            let vt = h.small_typeof[2 * tag];
            let layout = h.word(wrap(vt + h.config.abi.datatype_layout));
            let body = h.quad(wrap(layout + h.config.abi.layout_size));
            let size = object_size(h, obj);
            let header = h.config.header_size as int;
            if vt != 0 && layout >= 0x20000 {
                just_holds(size, body + header, 16)
            } else {
                just_holds(size, header, 16)
            }
        }),
{
    let t = h.config.tags;
    let named = seq![
        t.datatype,
        t.unionall,
        t.uniontype,
        t.tvar,
        t.vararg,
        t.module,
        t.simplevector,
        t.string,
        t.task,
    ];
    assert(tag != named[0] && tag != named[1] && tag != named[2] && tag != named[3]);
    assert(tag != named[4] && tag != named[5] && tag != named[6] && tag != named[7]);
    assert(tag != named[8]);
    let vt = h.small_typeof[2 * tag];
    let header = h.config.header_size as int;
    assert((16 * tag) / 8 == 2 * tag);
    lemma_rounding(header);
    lemma_rounding(instance_size(h, vt) + header);
}

/// The size of a buffer is the number in front of its header.
pub proof fn lemma_buffer_size(h: HeapView, obj: u64)
    requires
        typetag(h, obj) == h.config.buff_tag,
        h.config.header_size == 8,
        obj >= 16,
    ensures
        object_size(h, obj) == h.word((obj - 16) as u64),
{
    assert(wrap(obj - 16) == obj - 16);
}

/// An object whose tag is a pointer that leads to no type is taken for a mere header, and the tag
/// is found to be unsound; no other object is found to be.
pub proof fn lemma_unsound_objects(h: HeapView, obj: u64)
    requires
        h.wf(),
        h.config.buff_tag >= 1024,
        typetag(h, obj) < 1024 ==> typetag(h, obj) < 16 * h.config.tags.max_tags,
    ensures
        ({
            let tag = typetag(h, obj);
            let lost = tag >= 1024 && tag != h.config.buff_tag && !names_datatype(
                h,
                live_datatype(h, tag),
            );
            &&& unsound_tag(h, obj) is Some <==> lost
            &&& lost ==> unsound_tag(h, obj) == Some(live_datatype(h, tag))
            &&& lost ==> just_holds(object_size(h, obj), h.config.header_size as int, 16)
        }),
{
    lemma_rounding(h.config.header_size as int);
}

/// An instance of a type whose chain of moves ends at a mere number is taken for an instance of the
/// type of types; it counts as 512 bytes while there is none.
pub proof fn lemma_lost_type_size(h: HeapView, obj: u64)
    requires
        h.wf(),
        typetag(h, obj) >= 1024,
        typetag(h, obj) != h.config.buff_tag,
        live_datatype(h, typetag(h, obj)) < 1024,
    ensures
        datatype_type(h) == 0 ==> object_size(h, obj) == 512,
        ({
            let vt = datatype_type(h);
            let layout = h.word(wrap(vt + h.config.abi.datatype_layout));
            let body = h.quad(wrap(layout + h.config.abi.layout_size));
            vt != 0 && layout >= 0x20000 && h.word(wrap(vt + h.config.abi.datatype_name))
                != h.config.types.genericmemory_typename ==> just_holds(
                object_size(h, obj),
                body + h.config.header_size,
                16,
            )
        }),
{
    lemma_rounding(instance_size(h, datatype_type(h)) + h.config.header_size);
}

/// The object to look at for an unsound tag is the one behind the tag word, found only by a thread
/// of the collector and only in managed memory.
pub proof fn lemma_suspect(h: HeapView, tag: u64, on_gc_thread: bool)
    requires
        tag % 16 == 0,
    ensures
        suspect_of(h, tag, on_gc_thread) is Some <==> on_gc_thread && h.is_mapped(tag),
        suspect_of(h, tag, on_gc_thread) matches Some(o) ==> o.raw == tag + 8,
{
    assert(tag % 16 == 0 ==> tag | 8 == tag + 8) by (bit_vector);
}

/// An object starts one header into its allocation, a buffer two, and an object in the large-object
/// space 48 bytes, whatever it is.
pub proof fn lemma_object_starts(h: HeapView, obj: u64)
    requires
        obj >= 2 * h.config.header_size,
    ensures
        ({
            let large = 0x600_0000_0000 <= obj < 0x800_0000_0000;
            let buffer = type_of_tag(h, typetag(h, obj)) == h.config.buff_tag;
            let start = object_start(h, obj);
            &&& large ==> start + 48 == obj
            &&& !large && buffer ==> start + 2 * h.config.header_size == obj
            &&& !large && !buffer ==> start + h.config.header_size == obj
            &&& start + header_offset(h, obj) == obj
        }),
{
    assert(wrap(obj - 2 * h.config.header_size) == obj - 2 * h.config.header_size);
    assert(wrap(obj - h.config.header_size) == obj - h.config.header_size);
    let start = object_start(h, obj);
    assert(wrap(obj - start) == obj - start);
}

/// A copy is an object like the one that was copied: every word at a distance from the new address,
/// header included, is the word at that distance from the old one. The old one still reads as
/// before.
pub proof fn lemma_copy_reads_alike(h: HeapView, obj: u64, dst: u64, k: int)
    requires
        ({
            let start = object_start(h, obj);
            let size = object_size(h, obj);
            let lead = header_offset(h, obj);
            &&& lead <= size <= u64::MAX
            &&& disjoint(start, size, dst, size)
            &&& -lead <= k
            &&& k + 8 <= size - lead
        }),
    ensures
        ({
            let start = object_start(h, obj);
            let size = object_size(h, obj);
            let copy = wrap(dst + header_offset(h, obj));
            let after = h.with_memory(with_copy(h.memory, start, dst, size));
            &&& after.word(wrap(copy + k)) == h.word(wrap(obj + k))
            &&& after.word(wrap(obj + k)) == h.word(wrap(obj + k))
        }),
{
    let start = object_start(h, obj);
    let size = object_size(h, obj);
    let lead = header_offset(h, obj);
    lemma_word_after_copy(h.memory, start, dst, size, lead + k);
    lemma_copy_keeps_source(h.memory, start, dst, size, lead + k);
    lemma_wrap_twice(dst + lead, k);
    lemma_wrap_twice(obj - start, start + k);
    assert(wrap(start + (lead + k)) == wrap(obj + k));
}

/// The runtime mends the copies of generic memories, of whatever kind, and of nothing else that is
/// an instance of a type.
pub proof fn lemma_mended_objects(h: HeapView, obj: u64, vt: u64)
    requires
        h.wf(),
        is_instance(h, obj, vt),
    ensures
        is_live_generic_memory(h, obj) <==> h.word(wrap(vt + h.config.abi.datatype_name))
            == h.config.types.genericmemory_typename,
{
}

/// What an object that was copied away leaves behind reads as zero, byte by byte, and nothing else
/// changes.
pub proof fn lemma_wiped_bytes(h: HeapView, start: u64, bytes: int, b: u64)
    requires
        0 <= bytes,
        start + bytes <= u64::MAX,
    ensures
        ({
            let after = h.with_memory(with_zeros(h.memory, start, bytes));
            &&& start <= b < start + bytes ==> after.byte(b) == 0
            &&& !(start <= b < start + bytes) ==> after.byte(b) == h.byte(b)
        }),
{
    lemma_within_plain(start, bytes, b);
}

/// The sizes that are computed for generic memories: the same for all that hold their elements
/// elsewhere; for one that holds them itself, what its elements take and what is fixed, padded.
pub proof fn lemma_computed_memory_sizes(
    heap: &Heap,
    object: ObjectReference,
    vt: u64,
    base: int,
    r: u64,
)
    requires
        call_ensures(get_so_object_size, (heap, object), r),
        heap@.wf(),
        is_memory(heap@, object.raw, vt),
        just_holds(base, heap@.config.abi.genericmemory_size as int, 16),
    ensures
        ({
            let abi = heap@.config.abi;
            let header = heap@.config.header_size as int;
            let n = heap@.word(wrap(object.raw + abi.genericmemory_length));
            let kind = heap@.memory_kind(object.raw);
            &&& kind == 0 ==> just_holds(
                r as int,
                bytes_per_element(heap@, vt) * n + base + header,
                16,
            )
            &&& kind == 1 || kind == 2 || kind == 3 ==> just_holds(
                r as int,
                abi.genericmemory_size + 8 + header,
                16,
            )
        }),
{
    if heap@.memory_kind(object.raw) == 0 {
        lemma_inline_memory_size(heap@, object.raw, vt, base);
    } else {
        lemma_outside_memory_size(heap@, object.raw, vt);
    }
}

/// A copy is asked for with the size of the object, at an alignment of sixteen bytes that counts
/// from where the object begins in its allocation.
pub proof fn lemma_copy_request(heap: &Heap, from: ObjectReference, r: CopyRequest)
    requires
        call_ensures(VMObjectModel::copy_request, (heap, from), r),
        from.raw >= 2 * heap@.config.header_size,
        from.raw >= 48,
    ensures
        r.bytes == object_size(heap@, from.raw),
        r.align == 16,
        object_start(heap@, from.raw) + r.offset == from.raw,
{
    lemma_object_starts(heap@, from.raw);
}

/// A size is rounded up to the next multiple of an alignment that is a power of two, and no
/// further.
pub proof fn lemma_rounded_size(size: u64, r8: u64, r16: u64)
    requires
        size + 16 <= u64::MAX,
        call_ensures(llt_align, (size, 8), r8),
        call_ensures(llt_align, (size, 16), r16),
    ensures
        just_holds(r8 as int, size as int, 8),
        just_holds(r16 as int, size as int, 16),
{
    lemma_rounding(size as int);
}

/// No object with a small tag and none whose tag leads to no type is mended as a generic memory.
pub proof fn lemma_never_mended(h: HeapView, obj: u64)
    ensures
        typetag(h, obj) < 16 * h.config.tags.max_tags ==> !is_live_generic_memory(h, obj),
        !names_datatype(h, live_datatype(h, typetag(h, obj))) ==> !is_live_generic_memory(h, obj),
{
}

} // verus!
