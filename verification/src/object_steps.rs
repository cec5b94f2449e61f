//! The steps that the scan of one object takes, by the kind of the object.

use crate::datatypes::{
    datatype_of_tag, followable, is_valid_datatype, live_datatype, mmtk_jl_typetagof,
    names_datatype, resolve_datatype_ptr, resolve_forwarded_datatype_addr, typetag,
};
use crate::heap::{Heap, HeapView};
use crate::julia_types::{tag_word, MIN_POINTER, TAGGED_VALUE_SIZE};
use crate::layouts::{
    elements_boxed, fielddesc_type, first_ptr, layout_ptrs, layout_size, mmtk_jl_dt_layout_ptrs,
    mmtk_jl_svec_data, mmtk_jl_svec_len, npointers, read_elements_boxed, read_fielddesc_type,
    read_first_ptr, read_layout_size, read_npointers, svec_data, svec_len,
};
use crate::memory::{offset_by, offset_words, wrap, Address};
use crate::slots::{JuliaVMSlot, OffsetSlot, TypeTagSlot};
use crate::steps::{
    element_steps, lemma_element_visits, only_special_visits, push_elements, push_span, push_table,
    push_words, span, span_len, table_steps, words, Step,
};
use vstd::prelude::*;

verus! {

/// The steps for a word that points into an object: none where the word is neither in a space
/// of the collector nor readable.
pub open spec fn offset_slot_steps(h: HeapView, slot: u64, offset: u64) -> Seq<Step> {
    if slot != 0 && (h.is_in_spaces(slot) || h.readable(slot)) {
        seq![Step::Visit(JuliaVMSlot::Offset(OffsetSlot { slot_addr: slot, offset }))]
    } else {
        Seq::empty()
    }
}

/// Appends the steps for a word that points into an object.
pub fn push_offset_slot(heap: &Heap, steps: &mut Vec<Step>, slot: Address, offset: u64)
    ensures
        final(steps)@ == old(steps)@ + offset_slot_steps(heap@, slot, offset),
{
    proof {
        assert(old(steps)@ + Seq::<Step>::empty() =~= old(steps)@);
    }
    if slot == 0 {
        return;
    }
    if !heap.is_in_spaces(slot) && !heap.is_readable(slot) {
        return;
    }
    let offset_slot = OffsetSlot::new_with_offset(slot, offset);
    steps.push(Step::Visit(JuliaVMSlot::Offset(offset_slot)));
    assert(steps@ =~= old(steps)@ + offset_slot_steps(heap@, slot, offset));
}

/// The steps for the elements of a simple vector that is reached through a field.
pub open spec fn svec_field_steps(h: HeapView, svec: u64) -> Seq<Step> {
    if followable(h, svec) {
        words(svec_data(h, svec), svec_len(h, svec) as int)
    } else {
        Seq::empty()
    }
}

/// Appends the steps for the elements of a simple vector that is reached through a field.
fn scan_svec_recursively(heap: &Heap, steps: &mut Vec<Step>, svec: Address)
    ensures
        final(steps)@ == old(steps)@ + svec_field_steps(heap@, svec),
{
    proof {
        assert(old(steps)@ + Seq::<Step>::empty() =~= old(steps)@);
    }
    if svec != 0 && svec >= MIN_POINTER && heap.is_readable(svec) {
        let len: u64 = mmtk_jl_svec_len(heap, svec);
        push_words(steps, mmtk_jl_svec_data(heap, svec), len);
    }
}

/// The steps for the elements of an array that is reached through a field.
pub open spec fn array_field_steps(h: HeapView, array: u64) -> Seq<Step> {
    let data = h.field(array, h.config.abi.array_ptr_or_offset);
    let length = h.field(array, h.config.abi.array_dimsize);
    if followable(h, array) && data != 0 && h.readable(data) {
        words(data, length as int)
    } else {
        Seq::empty()
    }
}

/// Appends the steps for the elements of an array that is reached through a field.
fn scan_array_recursively(heap: &Heap, steps: &mut Vec<Step>, array: Address)
    ensures
        final(steps)@ == old(steps)@ + array_field_steps(heap@, array),
{
    proof {
        assert(old(steps)@ + Seq::<Step>::empty() =~= old(steps)@);
    }
    if array != 0 && array >= MIN_POINTER && heap.is_readable(array) {
        let length: u64 = heap.load_field(array, heap.config.abi.array_dimsize);
        let data: u64 = heap.load_field(array, heap.config.abi.array_ptr_or_offset);
        if data != 0 && heap.is_readable(data) {
            push_words(steps, data, length);
        }
    }
}

/// Whether the name of a type can be trusted to be a type name.
pub open spec fn typename_usable(h: HeapView, name: u64) -> bool {
    let tag = typetag(h, name);
    &&& followable(h, name)
    &&& h.is_mapped(name)
    &&& h.readable(wrap(name + 80))
    &&& tag >= MIN_POINTER
    &&& h.readable((tag - TAGGED_VALUE_SIZE) as u64)
    &&& names_datatype(h, tag)
}

/// The fields of a type name that are references.
pub open spec fn typename_field_steps(h: HeapView, name: u64) -> Seq<Step> {
    let abi = h.config.abi;
    seq![
        Step::Slot(wrap(name + abi.typename_name)),
        Step::Slot(wrap(name + abi.typename_module)),
        Step::Slot(wrap(name + abi.typename_wrapper)),
        Step::Slot(wrap(name + abi.typename_typeofwrapper)),
    ]
}

/// The elements of the caches and lists of a type name.
pub open spec fn typename_list_steps(h: HeapView, name: u64) -> Seq<Step> {
    let abi = h.config.abi;
    svec_field_steps(h, h.field(name, abi.typename_names)) + svec_field_steps(
        h,
        h.field(name, abi.typename_cache),
    ) + svec_field_steps(h, h.field(name, abi.typename_linearcache)) + array_field_steps(
        h,
        h.field(name, abi.typename_partial),
    )
}

/// Appends the elements of the caches and lists of a type name.
fn push_typename_lists(heap: &Heap, steps: &mut Vec<Step>, name: Address)
    ensures
        final(steps)@ == old(steps)@ + typename_list_steps(heap@, name),
{
    let abi = heap.config.abi;
    let names: u64 = heap.load_field(name, abi.typename_names);
    scan_svec_recursively(heap, steps, names);
    let cache: u64 = heap.load_field(name, abi.typename_cache);
    scan_svec_recursively(heap, steps, cache);
    let linearcache: u64 = heap.load_field(name, abi.typename_linearcache);
    scan_svec_recursively(heap, steps, linearcache);
    let partial: u64 = heap.load_field(name, abi.typename_partial);
    scan_array_recursively(heap, steps, partial);
    proof {
        lemma_append_four(
            old(steps)@,
            svec_field_steps(heap@, names),
            svec_field_steps(heap@, cache),
            svec_field_steps(heap@, linearcache),
            array_field_steps(heap@, partial),
        );
    }
}

proof fn lemma_append_four(s: Seq<Step>, a: Seq<Step>, b: Seq<Step>, c: Seq<Step>, d: Seq<Step>)
    ensures
        s + a + b + c + d == s + (a + b + c + d),
{
    assert(s + a + b + c + d =~= s + (a + b + c + d));
}

/// The steps that a type contributes through its name: the fields of the name, and the elements
/// of its caches and lists.
pub open spec fn typename_steps(h: HeapView, dt: u64) -> Seq<Step> {
    let name = h.field(dt, h.config.abi.datatype_name);
    if typename_usable(h, name) {
        typename_field_steps(h, name) + typename_list_steps(h, name)
    } else {
        Seq::empty()
    }
}

/// Appends the steps that a type contributes through its name.
fn push_typename(heap: &Heap, steps: &mut Vec<Step>, dt: Address)
    requires
        heap@.wf(),
    ensures
        final(steps)@ == old(steps)@ + typename_steps(heap@, dt),
{
    let abi = heap.config.abi;
    proof {
        assert(old(steps)@ + Seq::<Step>::empty() =~= old(steps)@);
    }
    let name: u64 = heap.load_field(dt, abi.datatype_name);
    if name == 0 || name < MIN_POINTER || !heap.is_mapped(name) || !heap.is_readable(name)
        || !heap.is_readable(offset_by(name, 80)) {
        return;
    }
    let name_tag: u64 = mmtk_jl_typetagof(heap, name);
    if name_tag < MIN_POINTER || !heap.is_readable(name_tag - TAGGED_VALUE_SIZE)
        || !is_valid_datatype(heap, name_tag) {
        return;
    }
    steps.push(Step::Slot(offset_by(name, abi.typename_name)));
    steps.push(Step::Slot(offset_by(name, abi.typename_module)));
    steps.push(Step::Slot(offset_by(name, abi.typename_wrapper)));
    steps.push(Step::Slot(offset_by(name, abi.typename_typeofwrapper)));
    assert(steps@ =~= old(steps)@ + typename_field_steps(heap@, name));
    push_typename_lists(heap, steps, name);
    proof {
        let fields = typename_field_steps(heap@, name);
        let lists = typename_list_steps(heap@, name);
        assert(old(steps)@ + fields + lists =~= old(steps)@ + (fields + lists));
    }
}

/// The steps for a module: its own references, its list of used modules if that lies inside a
/// managed object, and every third word of that list.
pub open spec fn module_steps(h: HeapView, m: u64) -> Seq<Step> {
    let abi = h.config.abi;
    let usings = wrap(m + abi.module_usings);
    let items = h.field(usings, abi.arraylist_items);
    let count = h.field(usings, abi.arraylist_len);
    seq![
        Step::Slot(wrap(m + abi.module_bindings)),
        Step::Slot(wrap(m + abi.module_bindingkeyset)),
        Step::Slot(wrap(m + abi.module_parent)),
        Step::Slot(wrap(m + abi.module_usings_backedges)),
        Step::Slot(wrap(m + abi.module_scanned_methods)),
    ] + (if h.is_mapped(items) {
        offset_slot_steps(
            h,
            wrap(usings + abi.arraylist_items),
            wrap(abi.module_usings + abi.arraylist_space),
        )
    } else {
        Seq::empty()
    }) + (if count > 0 {
        span(items, wrap(items + 8 * count), 24)
    } else {
        Seq::empty()
    })
}

/// Appends the steps for a module.
fn push_module(heap: &Heap, steps: &mut Vec<Step>, m: Address)
    ensures
        final(steps)@ == old(steps)@ + module_steps(heap@, m),
{
    let abi = heap.config.abi;
    let ghost h = heap@;
    steps.push(Step::Slot(offset_by(m, abi.module_bindings)));
    steps.push(Step::Slot(offset_by(m, abi.module_bindingkeyset)));
    steps.push(Step::Slot(offset_by(m, abi.module_parent)));
    steps.push(Step::Slot(offset_by(m, abi.module_usings_backedges)));
    steps.push(Step::Slot(offset_by(m, abi.module_scanned_methods)));
    let ghost s0 = steps@;
    let usings: u64 = offset_by(m, abi.module_usings);
    let items: u64 = heap.load_field(usings, abi.arraylist_items);
    // A short list of used modules is kept inside the module itself, so that its item pointer
    // has to follow the module when it moves.
    if heap.is_mapped(items) {
        let slot: u64 = offset_by(usings, abi.arraylist_items);
        push_offset_slot(heap, steps, slot, offset_by(abi.module_usings, abi.arraylist_space));
    }
    let ghost s1 = steps@;
    let count: u64 = heap.load_field(usings, abi.arraylist_len);
    if count > 0 {
        // An entry is a module and the two ends of a world range; only the module is a reference.
        push_span(steps, items, offset_words(items, count), 24);
    }
    proof {
        let five = seq![
            Step::Slot(wrap(m + abi.module_bindings)),
            Step::Slot(wrap(m + abi.module_bindingkeyset)),
            Step::Slot(wrap(m + abi.module_parent)),
            Step::Slot(wrap(m + abi.module_usings_backedges)),
            Step::Slot(wrap(m + abi.module_scanned_methods)),
        ];
        assert(s0 =~= old(steps)@ + five);
        assert(steps@ =~= old(steps)@ + module_steps(h, m));
    }
}

/// The steps for a task: the pointers that the layout of tasks names.
pub open spec fn task_steps(h: HeapView, obj: u64) -> Seq<Step> {
    let layout = h.field(h.config.types.task_type, h.config.abi.datatype_layout);
    table_steps(h, obj, layout_ptrs(h, layout), npointers(h, layout), 1)
}

/// Appends the steps for a task. Its stack of roots is scanned with the threads, not here.
fn push_task(heap: &Heap, steps: &mut Vec<Step>, obj: Address)
    requires
        heap@.wf(),
    ensures
        final(steps)@ == old(steps)@ + task_steps(heap@, obj),
{
    let layout: u64 = heap.load_field(heap.config.types.task_type, heap.config.abi.datatype_layout);
    let n: u32 = read_npointers(heap, layout);
    push_table(heap, steps, obj, mmtk_jl_dt_layout_ptrs(heap, layout), n, 1);
}

/// The steps for the two words of an array: its first word, and its data pointer if that lies
/// inside managed memory behind the start of the backing memory.
pub open spec fn array_steps(h: HeapView, obj: u64) -> Seq<Step> {
    let data = h.field(obj, h.config.abi.array_ptr_or_offset);
    let memory = h.field(obj, h.config.abi.array_mem);
    seq![Step::Slot(obj)] + (if h.is_mapped(data) && data > memory {
        offset_slot_steps(h, wrap(obj + 8), (data - memory) as u64)
    } else {
        Seq::empty()
    })
}

/// Appends the steps for the two words of an array.
fn push_array(heap: &Heap, steps: &mut Vec<Step>, obj: Address)
    ensures
        final(steps)@ == old(steps)@ + array_steps(heap@, obj),
{
    let ghost h = heap@;
    steps.push(Step::Slot(obj));
    let data: u64 = heap.load_field(obj, heap.config.abi.array_ptr_or_offset);
    if heap.is_mapped(data) {
        let memory: u64 = heap.load_field(obj, heap.config.abi.array_mem);
        if data > memory {
            push_offset_slot(heap, steps, offset_by(obj, 8), data - memory);
        }
    }
    assert(steps@ =~= old(steps)@ + array_steps(h, obj));
}

/// The steps for the elements of a generic memory, by the layout of its type.
pub open spec fn memory_element_steps(h: HeapView, obj: u64, layout: u64) -> Seq<Step> {
    let length = h.field(obj, h.config.abi.genericmemory_length);
    let data = h.field(obj, h.config.abi.genericmemory_ptr);
    if elements_boxed(h, layout) {
        words(data, length as int)
    } else if first_ptr(h, layout) >= 0 {
        let elsize = layout_size(h, layout) / 8;
        let end = wrap(data + 8 * (length * elsize));
        let n = npointers(h, layout);
        let ptrs = layout_ptrs(h, layout);
        let stride = 8 * elsize;
        if n == 1 {
            span(wrap(data + 8 * first_ptr(h, layout)), end, stride)
        } else if fielddesc_type(h, layout) == 0 {
            element_steps(h, data, stride, span_len(data, end, stride), ptrs, n, 1)
        } else if fielddesc_type(h, layout) == 1 {
            element_steps(h, data, stride, span_len(data, end, stride), ptrs, n, 2)
        } else {
            seq![Step::Unsupported]
        }
    } else {
        Seq::empty()
    }
}

/// Appends the steps for the elements of a generic memory.
fn push_memory_elements(heap: &Heap, steps: &mut Vec<Step>, obj: Address, layout: Address)
    requires
        heap@.wf(),
    ensures
        final(steps)@ == old(steps)@ + memory_element_steps(heap@, obj, layout),
{
    proof {
        assert(old(steps)@ + Seq::<Step>::empty() =~= old(steps)@);
        assert(old(steps)@ + seq![Step::Unsupported] =~= old(steps)@.push(Step::Unsupported));
    }
    let length: u64 = heap.load_field(obj, heap.config.abi.genericmemory_length);
    let data: u64 = heap.load_field(obj, heap.config.abi.genericmemory_ptr);
    if read_elements_boxed(heap, layout) {
        push_words(steps, data, length);
        return;
    }
    match read_first_ptr(heap, layout) {
        None => {},
        Some(first) => {
            let n: u32 = read_npointers(heap, layout);
            let elsize: u64 = read_layout_size(heap, layout) as u64 / 8;
            let end: u64 = offset_words(data, length.wrapping_mul(elsize));
            proof {
                lemma_wrapped_product(data, length, elsize);
            }
            let stride: u64 = elsize * 8;
            let class: u16 = read_fielddesc_type(heap, layout);
            if n == 1 {
                push_span(steps, offset_words(data, first as u64), end, stride);
            } else if class == 0 {
                let ptrs: u64 = mmtk_jl_dt_layout_ptrs(heap, layout);
                push_elements(heap, steps, data, end, stride, ptrs, n, 1);
            } else if class == 1 {
                let ptrs: u64 = mmtk_jl_dt_layout_ptrs(heap, layout);
                push_elements(heap, steps, data, end, stride, ptrs, n, 2);
            } else {
                steps.push(Step::Unsupported);
            }
        },
    }
}

proof fn lemma_wrapped_product(data: u64, length: u64, elsize: u64)
    ensures
        wrap(data + 8 * wrap(length * elsize)) == wrap(data + 8 * (length * elsize)),
        vstd::wrapping::u64_specs::wrapping_mul(length, elsize) == wrap(length * elsize),
{
    assert(length * elsize >= 0) by (nonlinear_arith);
    assert(length as nat * elsize as nat == length * elsize);
    let p = length * elsize;
    assert(wrap(data + 8 * wrap(p)) == wrap(data + 8 * p));
}

/// The number by which the runtime marks a generic memory whose data another object owns.
pub const MEMORY_KIND_OWNED: u8 = 3;

/// The steps for a generic memory of the type `vt`: the owner of its data if another object
/// owns it, otherwise its elements. With `checked`, a type without a layout has no elements.
pub open spec fn memory_steps(h: HeapView, obj: u64, vt: u64, checked: bool) -> Seq<Step> {
    let layout = h.field(vt, h.config.abi.datatype_layout);
    if h.memory_kind(obj) == MEMORY_KIND_OWNED {
        seq![Step::Slot(h.owner_field(obj))]
    } else if h.field(obj, h.config.abi.genericmemory_length) == 0 {
        Seq::empty()
    } else if checked && layout < MIN_POINTER {
        Seq::empty()
    } else {
        memory_element_steps(h, obj, layout)
    }
}

/// Appends the steps for a generic memory.
pub fn push_memory(heap: &Heap, steps: &mut Vec<Step>, obj: Address, vt: Address, checked: bool)
    requires
        heap@.wf(),
    ensures
        final(steps)@ == old(steps)@ + memory_steps(heap@, obj, vt, checked),
{
    proof {
        assert(old(steps)@ + Seq::<Step>::empty() =~= old(steps)@);
    }
    if heap.memory_kind(obj) == MEMORY_KIND_OWNED {
        let owner: u64 = heap.owner_field(obj);
        steps.push(Step::Slot(owner));
        assert(steps@ =~= old(steps)@ + seq![Step::Slot(owner)]);
        return;
    }
    if heap.load_field(obj, heap.config.abi.genericmemory_length) == 0 {
        return;
    }
    let layout: u64 = heap.load_field(vt, heap.config.abi.datatype_layout);
    if checked && layout < MIN_POINTER {
        return;
    }
    push_memory_elements(heap, steps, obj, layout);
}

/// The steps for an instance by its layout: the pointers that the pointer table names.
pub open spec fn instance_steps(h: HeapView, obj: u64, layout: u64) -> Seq<Step> {
    let n = npointers(h, layout);
    let ptrs = layout_ptrs(h, layout);
    if layout < MIN_POINTER || n == 0 {
        Seq::empty()
    } else if fielddesc_type(h, layout) == 0 {
        table_steps(h, obj, ptrs, n, 1)
    } else if fielddesc_type(h, layout) == 1 {
        table_steps(h, obj, ptrs, n, 2)
    } else if fielddesc_type(h, layout) == 2 {
        table_steps(h, obj, ptrs, n, 4)
    } else {
        seq![Step::Unsupported]
    }
}

/// Appends the steps for an instance by its layout.
fn push_instance(heap: &Heap, steps: &mut Vec<Step>, obj: Address, layout: Address)
    requires
        heap@.wf(),
    ensures
        final(steps)@ == old(steps)@ + instance_steps(heap@, obj, layout),
{
    proof {
        assert(old(steps)@ + Seq::<Step>::empty() =~= old(steps)@);
        assert(old(steps)@ + seq![Step::Unsupported] =~= old(steps)@.push(Step::Unsupported));
    }
    if layout < MIN_POINTER {
        return;
    }
    let n: u32 = read_npointers(heap, layout);
    if n == 0 {
        return;
    }
    let class: u16 = read_fielddesc_type(heap, layout);
    if class > 2 {
        steps.push(Step::Unsupported);
        return;
    }
    let width: u64 = if class == 0 {
        1
    } else if class == 1 {
        2
    } else {
        4
    };
    push_table(heap, steps, obj, mmtk_jl_dt_layout_ptrs(heap, layout), n, width);
}

/// The steps for an object whose type the tag `vtag` names.
pub open spec fn typed_steps(h: HeapView, obj: u64, vtag: u64) -> Seq<Step> {
    let types = h.config.types;
    let vt = datatype_of_tag(h, vtag);
    let name = h.field(vt, h.config.abi.datatype_name);
    if vt == 0 {
        Seq::empty()
    } else {
        (if name == types.array_typename {
            array_steps(h, obj)
        } else {
            Seq::empty()
        }) + (if name == types.genericmemory_typename {
            memory_steps(h, obj, vt, true)
        } else if vt == types.weakref_type {
            Seq::empty()
        } else {
            instance_steps(h, obj, h.field(vt, h.config.abi.datatype_layout))
        })
    }
}

/// Appends the steps for an object whose type is known.
fn push_typed(heap: &Heap, steps: &mut Vec<Step>, obj: Address, vtag: Address)
    requires
        heap@.wf(),
    ensures
        final(steps)@ == old(steps)@ + typed_steps(heap@, obj, vtag),
{
    let types = heap.config.types;
    let ghost h = heap@;
    proof {
        assert(old(steps)@ + Seq::<Step>::empty() =~= old(steps)@);
    }
    let vt: u64 = resolve_datatype_ptr(heap, vtag);
    if vt == 0 {
        return;
    }
    let name: u64 = heap.load_field(vt, heap.config.abi.datatype_name);
    if name == types.array_typename {
        push_array(heap, steps, obj);
    }
    let ghost s0 = steps@;
    proof {
        assert(s0 + Seq::<Step>::empty() =~= s0);
    }
    if name == types.genericmemory_typename {
        push_memory(heap, steps, obj, vt, true);
    } else if vt != types.weakref_type {
        let layout: u64 = heap.load_field(vt, heap.config.abi.datatype_layout);
        push_instance(heap, steps, obj, layout);
    }
    assert(steps@ =~= old(steps)@ + typed_steps(h, obj, vtag));
}

/// Whether a tag is that of one of the kinds of types.
pub open spec fn is_kind_tag(h: HeapView, vtag: u64) -> bool {
    let tags = h.config.tags;
    ||| vtag == tag_word(tags.datatype)
    ||| vtag == tag_word(tags.unionall)
    ||| vtag == tag_word(tags.uniontype)
    ||| vtag == tag_word(tags.tvar)
    ||| vtag == tag_word(tags.vararg)
}

/// Tests whether a tag is that of one of the kinds of types.
pub fn has_kind_tag(heap: &Heap, vtag: Address) -> (r: bool)
    requires
        heap@.wf(),
    ensures
        r == is_kind_tag(heap@, vtag),
{
    let tags = heap.config.tags;
    vtag == tags.datatype * 16 || vtag == tags.unionall * 16 || vtag == tags.uniontype * 16 || vtag
        == tags.tvar * 16 || vtag == tags.vararg * 16
}

/// Whether a tag is a pointer to a type and not a small tag.
pub open spec fn is_pointer_tag(h: HeapView, vtag: u64) -> bool {
    vtag >= tag_word(h.config.tags.max_tags)
}

/// The report of an object's own type tag, due if the tag is a pointer.
pub open spec fn header_steps(h: HeapView, obj: u64, tag: u64) -> Seq<Step> {
    if is_pointer_tag(h, tag) {
        seq![
            Step::Visit(
                JuliaVMSlot::TypeTag(TypeTagSlot { address: wrap(obj - TAGGED_VALUE_SIZE) }),
            ),
        ]
    } else {
        Seq::empty()
    }
}

/// Appends the report of an object's own type tag.
pub fn push_header(heap: &Heap, steps: &mut Vec<Step>, obj: Address, tag: Address)
    requires
        heap@.wf(),
    ensures
        final(steps)@ == old(steps)@ + header_steps(heap@, obj, tag),
{
    proof {
        assert(old(steps)@ + Seq::<Step>::empty() =~= old(steps)@);
    }
    if tag >= heap.config.tags.max_tags * 16 {
        let address: u64 = crate::memory::offset_back(obj, TAGGED_VALUE_SIZE);
        steps.push(Step::Visit(JuliaVMSlot::TypeTag(TypeTagSlot { address })));
        assert(steps@ =~= old(steps)@ + header_steps(heap@, obj, tag));
    }
}

/// The steps for the body of an object with the tag `vtag`.
pub open spec fn body_steps(h: HeapView, obj: u64, vtag: u64) -> Seq<Step> {
    let tags = h.config.tags;
    if datatype_of_tag(h, vtag) == h.config.types.symbol_type || vtag == h.config.buff_tag {
        // Symbols live forever, and buffers are scanned with the object that holds them.
        Seq::empty()
    } else if is_kind_tag(h, vtag) {
        (if vtag == tag_word(tags.datatype) {
            typename_steps(h, obj)
        } else {
            Seq::empty()
        }) + typed_steps(h, obj, h.small_typeof[(vtag / 8) as int])
    } else if vtag == tag_word(tags.simplevector) {
        words(svec_data(h, obj), svec_len(h, obj) as int)
    } else if vtag == tag_word(tags.module) {
        module_steps(h, obj)
    } else if vtag == tag_word(tags.task) {
        task_steps(h, obj)
    } else if is_pointer_tag(h, vtag) && names_datatype(h, live_datatype(h, vtag)) {
        typed_steps(h, obj, live_datatype(h, vtag))
    } else {
        Seq::empty()
    }
}

/// Appends the steps for the body of an object.
fn push_body(heap: &Heap, steps: &mut Vec<Step>, obj: Address, vtag: Address)
    requires
        heap@.wf(),
    ensures
        final(steps)@ == old(steps)@ + body_steps(heap@, obj, vtag),
{
    let tags = heap.config.tags;
    let ghost h = heap@;
    proof {
        assert(old(steps)@ + Seq::<Step>::empty() =~= old(steps)@);
    }
    if resolve_datatype_ptr(heap, vtag) == heap.config.types.symbol_type || vtag
        == heap.config.buff_tag {
        return;
    }
    if has_kind_tag(heap, vtag) {
        if vtag == tags.datatype * 16 {
            push_typename(heap, steps, obj);
        }
        let ghost s0 = steps@;
        push_typed(heap, steps, obj, heap.small_typeof[(vtag / 8) as usize]);
        assert(steps@ =~= old(steps)@ + body_steps(h, obj, vtag));
    } else if vtag < tags.max_tags * 16 {
        if vtag == tags.simplevector * 16 {
            let length: u64 = mmtk_jl_svec_len(heap, obj);
            push_words(steps, mmtk_jl_svec_data(heap, obj), length);
        } else if vtag == tags.module * 16 {
            push_module(heap, steps, obj);
        } else if vtag == tags.task * 16 {
            push_task(heap, steps, obj);
        }
    } else {
        let live: u64 = resolve_forwarded_datatype_addr(heap, vtag);
        // A tag that names no type belongs to a freed object, which has nothing to report.
        if is_valid_datatype(heap, live) {
            push_typed(heap, steps, obj, live);
        }
    }
}

/// The steps that the scan of the object at `obj` takes.
pub open spec fn object_steps(h: HeapView, obj: u64) -> Seq<Step> {
    header_steps(h, obj, typetag(h, obj)) + body_steps(h, obj, typetag(h, obj))
}

/// Lists the steps that the scan of an object takes.
pub fn list_object_steps(heap: &Heap, obj: Address) -> (r: Vec<Step>)
    requires
        heap@.wf(),
    ensures
        r@ == object_steps(heap@, obj),
{
    let vtag: u64 = mmtk_jl_typetagof(heap, obj);
    let mut steps: Vec<Step> = Vec::new();
    push_header(heap, &mut steps, obj, vtag);
    push_body(heap, &mut steps, obj, vtag);
    assert(steps@ =~= object_steps(heap@, obj));
    steps
}

proof fn lemma_memory_visits(h: HeapView, obj: u64, vt: u64, checked: bool)
    ensures
        only_special_visits(memory_steps(h, obj, vt, checked)),
{
    let layout = h.field(vt, h.config.abi.datatype_layout);
    let length = h.field(obj, h.config.abi.genericmemory_length);
    let data = h.field(obj, h.config.abi.genericmemory_ptr);
    let elsize = layout_size(h, layout) / 8;
    let end = wrap(data + 8 * (length * elsize));
    let n = npointers(h, layout);
    let ptrs = layout_ptrs(h, layout);
    let count = span_len(data, end, 8 * elsize);
    lemma_element_visits(h, data, 8 * elsize, count, ptrs, n, 1);
    lemma_element_visits(h, data, 8 * elsize, count, ptrs, n, 2);
}

proof fn lemma_concat_visits(a: Seq<Step>, b: Seq<Step>)
    requires
        only_special_visits(a),
        only_special_visits(b),
    ensures
        only_special_visits(a + b),
{
}

proof fn lemma_instance_visits(h: HeapView, obj: u64, layout: u64)
    ensures
        only_special_visits(instance_steps(h, obj, layout)),
{
}

proof fn lemma_array_visits(h: HeapView, obj: u64)
    ensures
        only_special_visits(array_steps(h, obj)),
{
}

proof fn lemma_typed_visits(h: HeapView, obj: u64, vtag: u64)
    ensures
        only_special_visits(typed_steps(h, obj, vtag)),
{
    let vt = datatype_of_tag(h, vtag);
    let name = h.field(vt, h.config.abi.datatype_name);
    let first = if name == h.config.types.array_typename {
        array_steps(h, obj)
    } else {
        Seq::empty()
    };
    let second = if name == h.config.types.genericmemory_typename {
        memory_steps(h, obj, vt, true)
    } else if vt == h.config.types.weakref_type {
        Seq::empty()
    } else {
        instance_steps(h, obj, h.field(vt, h.config.abi.datatype_layout))
    };
    lemma_array_visits(h, obj);
    lemma_memory_visits(h, obj, vt, true);
    lemma_instance_visits(h, obj, h.field(vt, h.config.abi.datatype_layout));
    lemma_concat_visits(first, second);
}

proof fn lemma_typename_visits(h: HeapView, dt: u64)
    ensures
        only_special_visits(typename_steps(h, dt)),
{
    let abi = h.config.abi;
    let name = h.field(dt, abi.datatype_name);
    let names = svec_field_steps(h, h.field(name, abi.typename_names));
    let cache = svec_field_steps(h, h.field(name, abi.typename_cache));
    let linearcache = svec_field_steps(h, h.field(name, abi.typename_linearcache));
    let partial = array_field_steps(h, h.field(name, abi.typename_partial));
    lemma_concat_visits(names, cache);
    lemma_concat_visits(names + cache, linearcache);
    lemma_concat_visits(names + cache + linearcache, partial);
    lemma_concat_visits(typename_field_steps(h, name), typename_list_steps(h, name));
}

proof fn lemma_module_visits(h: HeapView, m: u64)
    ensures
        only_special_visits(module_steps(h, m)),
{
}

/// The scan of an object reports outright only its type tag and its interior pointers; every
/// other reference is handed on.
pub proof fn lemma_object_visits(h: HeapView, obj: u64)
    ensures
        only_special_visits(object_steps(h, obj)),
{
    let vtag = typetag(h, obj);
    lemma_body_visits(h, obj, vtag);
    lemma_concat_visits(header_steps(h, obj, vtag), body_steps(h, obj, vtag));
}

proof fn lemma_body_visits(h: HeapView, obj: u64, vtag: u64)
    ensures
        only_special_visits(body_steps(h, obj, vtag)),
{
    let small = h.small_typeof[(vtag / 8) as int];
    if is_kind_tag(h, vtag) {
        lemma_typed_visits(h, obj, small);
        lemma_typename_visits(h, obj);
        lemma_concat_visits(typename_steps(h, obj), typed_steps(h, obj, small));
        lemma_concat_visits(Seq::empty(), typed_steps(h, obj, small));
    } else {
        lemma_typed_visits(h, obj, live_datatype(h, vtag));
        lemma_module_visits(h, obj);
    }
}

} // verus!
