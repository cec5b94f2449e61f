//! What the scan of an object finds, stated word by word: which addresses it hands on, and which it
//! does not.

use crate::datatypes::{datatype_of_tag, datatype_type, live_datatype, names_datatype, typetag};
use crate::heap::{Heap, HeapView, ObjectReference};
use crate::julia_scanning::{
    get_julia_obj_array_data, get_julia_obj_kind, is_julia_obj_array, is_julia_val_array,
    is_obj_array, is_val_array, object_kind, typed_object_steps, ObjectKind,
};
use crate::layouts::{
    fielddesc_size, fielddesc_type, first_ptr, layout_ptrs, layout_size, svec_data, svec_len,
};
use crate::memory::{lemma_wrap_twice, wrap};
use crate::object_steps::{
    array_field_steps, array_steps, body_steps, header_steps, instance_steps, list_object_steps,
    memory_element_steps, memory_steps, module_steps, object_steps, offset_slot_steps,
    svec_field_steps, task_steps, typed_steps, typename_field_steps, typename_list_steps,
    typename_steps,
};
use crate::slots::{JuliaMemorySlice, JuliaVMSlot, OffsetSlot, TypeTagSlot};
use crate::steps::{element_steps, span, span_len, table_steps, words, Step};
use vstd::prelude::*;

verus! {

/// The place of the `k`-th of the words that lie `stride` bytes apart from `base` on.
pub open spec fn place(base: int, stride: int, k: int) -> int {
    base + stride * k
}

/// Whether the settings keep apart what the runtime keeps apart: the small tags, the tag of
/// buffers, the type of types and that of symbols, and the names of the array types.
pub open spec fn settings_apart(h: HeapView) -> bool {
    let t = h.config.tags;
    let kinds = seq![t.datatype, t.unionall, t.uniontype, t.tvar, t.vararg];
    let others = seq![t.symbol, t.module, t.simplevector, t.string, t.task];
    &&& h.wf()
    &&& (kinds + others).no_duplicates()
    &&& h.config.buff_tag >= 1024
    &&& datatype_type(h) != h.config.types.symbol_type
    &&& h.config.types.array_typename != h.config.types.genericmemory_typename
}

/// Whether the object at `obj` is an instance of the type that lives at `vt` now.
pub open spec fn is_instance(h: HeapView, obj: u64, vt: u64) -> bool {
    let tag = typetag(h, obj);
    let types = h.config.types;
    &&& tag >= 0x20000 && tag != h.config.buff_tag
    &&& tag != types.symbol_type && tag != types.datatype_type_addr
    &&& live_datatype(h, tag) == vt
    &&& vt >= 0x20000 && vt != types.datatype_type_addr
    &&& names_datatype(h, vt)
}

/// Whether the object at `obj` carries a small tag.
pub open spec fn carries(h: HeapView, obj: u64, tag: u64) -> bool {
    typetag(h, obj) == 16 * tag
}

/// Whether the scan of an object hands on an address.
pub open spec fn hands_on(h: HeapView, obj: u64, a: u64) -> bool {
    object_steps(h, obj).contains(Step::Slot(a))
}

proof fn lemma_contains_either<T>(s: Seq<T>, t: Seq<T>, x: T)
    ensures
        (s + t).contains(x) <==> s.contains(x) || t.contains(x),
{
    if s.contains(x) {
        let i = choose|i: int| 0 <= i < s.len() && s[i] == x;
        assert((s + t)[i] == x);
    }
    if t.contains(x) {
        let i = choose|i: int| 0 <= i < t.len() && t[i] == x;
        assert((s + t)[s.len() + i] == x);
    }
    if (s + t).contains(x) {
        let i = choose|i: int| 0 <= i < (s + t).len() && (s + t)[i] == x;
        if i < s.len() {
            assert(s[i] == x);
        } else {
            assert(t[i - s.len()] == x);
        }
    }
}

proof fn lemma_before_end(d: int, stride: int, k: int)
    by (nonlinear_arith)
    requires
        d > 0,
        stride > 0,
        k >= 0,
    ensures
        k * stride < d <==> k < (d + stride - 1) / stride,
{
}

/// The addresses of a span are those that lie a number of strides behind its begin and before its
/// end.
proof fn lemma_span_holds(begin: u64, end: u64, stride: int, a: u64)
    requires
        stride > 0,
    ensures
        span(begin, end, stride).contains(Step::Slot(a)) <==> exists|k: int|
            0 <= k && a == #[trigger] place(begin as int, stride, k) && a < end,
{
    let s = span(begin, end, stride);
    if s.contains(Step::Slot(a)) {
        let k = choose|k: int| 0 <= k < s.len() && s[k] == Step::Slot(a);
        lemma_before_end(end - begin, stride, k);
        assert(k * stride >= 0) by (nonlinear_arith)
            requires
                k >= 0,
                stride > 0,
        ;
        assert(k * stride == stride * k) by (nonlinear_arith);
        assert(a == place(begin as int, stride, k));
    }
    if exists|k: int| 0 <= k && a == #[trigger] place(begin as int, stride, k) && a < end {
        let k = choose|k: int|
            0 <= k && a == #[trigger] place(begin as int, stride, k) && a < end;
        assert(stride * k >= 0) by (nonlinear_arith)
            requires
                k >= 0,
                stride > 0,
        ;
        assert(k * stride == stride * k) by (nonlinear_arith);
        lemma_before_end(end - begin, stride, k);
        assert(s[k] == Step::Slot(a));
    }
}

/// The words of a run are those at its places, where the run stays inside the address space.
proof fn lemma_words_hold(begin: u64, n: int, a: u64)
    requires
        0 <= n,
        begin + 8 * n <= u64::MAX,
    ensures
        words(begin, n).contains(Step::Slot(a)) <==> exists|k: int|
            0 <= k < n && a == #[trigger] place(begin as int, 8, k),
        words(begin, n).len() == n,
        forall|k: int|
            0 <= k < n ==> #[trigger] words(begin, n)[k] == Step::Slot((begin + 8 * k) as u64),
{
    let end = (begin + 8 * n) as u64;
    assert(wrap(begin + 8 * n) == end);
    lemma_span_holds(begin, end, 8, a);
    if words(begin, n).contains(Step::Slot(a)) {
        let k = choose|k: int| 0 <= k && a == #[trigger] place(begin as int, 8, k) && a < end;
        assert(k < n);
    }
    if exists|k: int| 0 <= k < n && a == #[trigger] place(begin as int, 8, k) {
        let k = choose|k: int| 0 <= k < n && a == #[trigger] place(begin as int, 8, k);
        assert(a < end);
    }
}

/// An object with a small tag reports no tag of its own.
proof fn lemma_small_tag_steps(h: HeapView, obj: u64, tag: u64)
    requires
        h.wf(),
        tag < h.config.tags.max_tags,
        carries(h, obj, tag),
    ensures
        object_steps(h, obj) == body_steps(h, obj, (16 * tag) as u64),
{
    assert(object_steps(h, obj) =~= body_steps(h, obj, (16 * tag) as u64));
}

/// The tag of an object is reported if and only if it is a pointer and no small tag; it lies in the
/// eight bytes in front of the object.
pub proof fn lemma_tag_report(h: HeapView, obj: u64, slot: TypeTagSlot)
    requires
        h.wf(),
        obj >= 0x20000,
        h.config.tags.max_tags == 64,
    ensures
        header_steps(h, obj, typetag(h, obj)).contains(Step::Visit(JuliaVMSlot::TypeTag(slot)))
            <==> typetag(h, obj) >= 1024 && slot.address + 8 == obj,
{
    let steps = header_steps(h, obj, typetag(h, obj));
    if typetag(h, obj) >= 1024 {
        assert(steps[0] == Step::Visit(
            JuliaVMSlot::TypeTag(TypeTagSlot { address: (obj - 8) as u64 }),
        ));
    }
}

/// The scan of a simple vector hands on each of its elements, in order, and nothing else.
pub proof fn lemma_simple_vector_scan(h: HeapView, obj: u64, a: u64)
    requires
        settings_apart(h),
        carries(h, obj, h.config.tags.simplevector),
        ({
            let n = h.word(wrap(obj + h.config.abi.svec_length));
            obj + h.config.abi.svec_size + 8 * n <= u64::MAX
        }),
    ensures
        ({
            let n = h.word(wrap(obj + h.config.abi.svec_length));
            let first = obj + h.config.abi.svec_size;
            &&& hands_on(h, obj, a) <==> exists|k: int|
                0 <= k < n && a == #[trigger] place(first, 8, k)
            &&& object_steps(h, obj).len() == n
            &&& forall|k: int| 0 <= k < n ==> #[trigger] object_steps(h, obj)[k] == Step::Slot(
                place(first, 8, k) as u64,
            )
        }),
{
    let t = h.config.tags;
    lemma_tags_apart(h);
    lemma_small_tag_steps(h, obj, t.simplevector);
    let n = h.word(wrap(obj + h.config.abi.svec_length));
    let first = (obj + h.config.abi.svec_size) as u64;
    assert(object_steps(h, obj) == words(svec_data(h, obj), svec_len(h, obj) as int));
    lemma_words_hold(first, n as int, a);
}

/// What distinct tags mean, pair by pair.
pub proof fn lemma_tags_apart(h: HeapView)
    requires
        settings_apart(h),
    ensures
        ({
            let t = h.config.tags;
            let all = seq![
                t.datatype,
                t.unionall,
                t.uniontype,
                t.tvar,
                t.vararg,
                t.symbol,
                t.module,
                t.simplevector,
                t.string,
                t.task,
            ];
            &&& all.no_duplicates()
            &&& forall|i: int| 0 <= i < 10 ==> #[trigger] all[i] < 64
            &&& t.module != t.datatype && t.module != t.unionall && t.module != t.uniontype
            &&& t.module != t.tvar && t.module != t.vararg && t.module != t.simplevector
            &&& t.module != t.task && t.module != t.string
            &&& t.task != t.datatype && t.task != t.unionall && t.task != t.uniontype
            &&& t.task != t.tvar && t.task != t.vararg && t.task != t.simplevector
            &&& t.task != t.string
            &&& t.simplevector != t.datatype && t.simplevector != t.unionall
            &&& t.simplevector != t.uniontype && t.simplevector != t.tvar
            &&& t.simplevector != t.vararg && t.simplevector != t.string
            &&& t.string != t.datatype && t.string != t.unionall && t.string != t.uniontype
            &&& t.string != t.tvar && t.string != t.vararg
            &&& t.symbol != t.datatype && t.symbol != t.unionall && t.symbol != t.uniontype
            &&& t.symbol != t.tvar && t.symbol != t.vararg && t.symbol != t.module
            &&& t.symbol != t.task && t.symbol != t.simplevector && t.symbol != t.string
            &&& t.datatype != t.unionall && t.datatype != t.uniontype && t.datatype != t.tvar
            &&& t.datatype != t.vararg && t.unionall != t.uniontype && t.unionall != t.tvar
            &&& t.unionall != t.vararg && t.uniontype != t.tvar && t.uniontype != t.vararg
            &&& t.tvar != t.vararg
        }),
{
    let t = h.config.tags;
    let both = seq![t.datatype, t.unionall, t.uniontype, t.tvar, t.vararg] + seq![
        t.symbol,
        t.module,
        t.simplevector,
        t.string,
        t.task,
    ];
    let all = seq![
        t.datatype,
        t.unionall,
        t.uniontype,
        t.tvar,
        t.vararg,
        t.symbol,
        t.module,
        t.simplevector,
        t.string,
        t.task,
    ];
    assert(both =~= all);
    assert(all[0] == t.datatype && all[1] == t.unionall && all[2] == t.uniontype);
    assert(all[3] == t.tvar && all[4] == t.vararg && all[5] == t.symbol && all[6] == t.module);
    assert(all[7] == t.simplevector && all[8] == t.string && all[9] == t.task);
}

/// The addresses of the five references that a module holds itself.
pub open spec fn is_module_field(h: HeapView, m: u64, a: u64) -> bool {
    let abi = h.config.abi;
    ||| a == wrap(m + abi.module_bindings)
    ||| a == wrap(m + abi.module_bindingkeyset)
    ||| a == wrap(m + abi.module_parent)
    ||| a == wrap(m + abi.module_usings_backedges)
    ||| a == wrap(m + abi.module_scanned_methods)
}

/// The scan of a module hands on its five references and, of its list of used modules, the first
/// word of every three: an entry is a module and the two ends of a range of world ages. It hands on
/// nothing else.
pub proof fn lemma_module_scan(h: HeapView, obj: u64, a: u64)
    requires
        settings_apart(h),
        carries(h, obj, h.config.tags.module),
        ({
            let usings = obj + h.config.abi.module_usings;
            let items = h.word(wrap(usings + h.config.abi.arraylist_items));
            let count = h.word(wrap(usings + h.config.abi.arraylist_len));
            items + 8 * count <= u64::MAX
        }),
    ensures
        ({
            let usings = obj + h.config.abi.module_usings;
            let items = h.word(wrap(usings + h.config.abi.arraylist_items));
            let count = h.word(wrap(usings + h.config.abi.arraylist_len));
            &&& hands_on(h, obj, a) <==> {
                ||| is_module_field(h, obj, a)
                ||| exists|k: int|
                    0 <= k < count && k % 3 == 0 && a == #[trigger] place(items as int, 8, k)
            }
            &&& forall|k: int|
                0 <= k < count && !is_module_field(
                    h,
                    obj,
                    #[trigger] place(items as int, 8, k) as u64,
                ) ==> (hands_on(h, obj, place(items as int, 8, k) as u64) <==> k % 3 == 0)
        }),
{
    let abi = h.config.abi;
    lemma_tags_apart(h);
    lemma_small_tag_steps(h, obj, h.config.tags.module);
    lemma_wrap_twice(obj + abi.module_usings, abi.arraylist_items as int);
    lemma_wrap_twice(obj + abi.module_usings, abi.arraylist_len as int);
    let usings = obj + abi.module_usings;
    let items = h.word(wrap(usings + abi.arraylist_items));
    let count = h.word(wrap(usings + abi.arraylist_len));
    assert(object_steps(h, obj) == module_steps(h, obj));
    lemma_module_word(h, obj, a);
    assert forall|k: int|
        0 <= k < count && !is_module_field(
            h,
            obj,
            #[trigger] place(items as int, 8, k) as u64,
        ) implies (hands_on(h, obj, place(items as int, 8, k) as u64) <==> k % 3 == 0) by {
        let b = place(items as int, 8, k) as u64;
        lemma_module_word(h, obj, b);
        if exists|j: int|
            0 <= j < count && j % 3 == 0 && b == #[trigger] place(items as int, 8, j) {
            let j = choose|j: int|
                0 <= j < count && j % 3 == 0 && b == #[trigger] place(items as int, 8, j);
            assert(j == k);
        }
    }
}

#[verifier::rlimit(40)]
proof fn lemma_module_word(h: HeapView, obj: u64, a: u64)
    requires
        ({
            let usings = obj + h.config.abi.module_usings;
            let items = h.word(wrap(usings + h.config.abi.arraylist_items));
            let count = h.word(wrap(usings + h.config.abi.arraylist_len));
            items + 8 * count <= u64::MAX
        }),
    ensures
        ({
            let usings = obj + h.config.abi.module_usings;
            let items = h.word(wrap(usings + h.config.abi.arraylist_items));
            let count = h.word(wrap(usings + h.config.abi.arraylist_len));
            module_steps(h, obj).contains(Step::Slot(a)) <==> {
                ||| is_module_field(h, obj, a)
                ||| exists|k: int|
                    0 <= k < count && k % 3 == 0 && a == #[trigger] place(items as int, 8, k)
            }
        }),
{
    let abi = h.config.abi;
    lemma_wrap_twice(obj + abi.module_usings, abi.arraylist_items as int);
    lemma_wrap_twice(obj + abi.module_usings, abi.arraylist_len as int);
    let u = wrap(obj + abi.module_usings);
    let items = h.field(u, abi.arraylist_items);
    let count = h.field(u, abi.arraylist_len);
    let five = seq![
        Step::Slot(wrap(obj + abi.module_bindings)),
        Step::Slot(wrap(obj + abi.module_bindingkeyset)),
        Step::Slot(wrap(obj + abi.module_parent)),
        Step::Slot(wrap(obj + abi.module_usings_backedges)),
        Step::Slot(wrap(obj + abi.module_scanned_methods)),
    ];
    let middle = if h.is_mapped(items) {
        offset_slot_steps(
            h,
            wrap(u + abi.arraylist_items),
            wrap(abi.module_usings + abi.arraylist_space),
        )
    } else {
        Seq::empty()
    };
    let list = if count > 0 {
        span(items, wrap(items + 8 * count), 24)
    } else {
        Seq::empty()
    };
    assert(module_steps(h, obj) == five + middle + list);
    lemma_contains_either(five + middle, list, Step::Slot(a));
    lemma_contains_either(five, middle, Step::Slot(a));
    assert(five[0] == Step::Slot(wrap(obj + abi.module_bindings)));
    assert(five[1] == Step::Slot(wrap(obj + abi.module_bindingkeyset)));
    assert(five[2] == Step::Slot(wrap(obj + abi.module_parent)));
    assert(five[3] == Step::Slot(wrap(obj + abi.module_usings_backedges)));
    assert(five[4] == Step::Slot(wrap(obj + abi.module_scanned_methods)));
    if count > 0 {
        let end = (items + 8 * count) as u64;
        assert(wrap(items + 8 * count) == end);
        lemma_span_holds(items, end, 24, a);
        if list.contains(Step::Slot(a)) {
            let j = choose|j: int| 0 <= j && a == #[trigger] place(items as int, 24, j) && a < end;
            assert(a == place(items as int, 8, 3 * j));
        }
        if exists|k: int|
            0 <= k < count && k % 3 == 0 && a == #[trigger] place(items as int, 8, k) {
            let k = choose|k: int|
                0 <= k < count && k % 3 == 0 && a == #[trigger] place(items as int, 8, k);
            assert(a == place(items as int, 24, k / 3));
        }
    }
}

/// A module reports the place of its list of used modules, as a pointer into the module itself, if
/// and only if the list lies in managed memory and the place can be read.
pub proof fn lemma_module_list_report(h: HeapView, obj: u64, slot: OffsetSlot)
    requires
        settings_apart(h),
        carries(h, obj, h.config.tags.module),
    ensures
        ({
            let abi = h.config.abi;
            let at = wrap(obj + abi.module_usings + abi.arraylist_items);
            object_steps(h, obj).contains(Step::Visit(JuliaVMSlot::Offset(slot))) <==> {
                &&& h.is_mapped(h.word(at))
                &&& at != 0
                &&& h.is_in_spaces(at) || h.readable(at)
                &&& slot.slot_addr == at
                &&& slot.offset == wrap(abi.module_usings + abi.arraylist_space)
            }
        }),
{
    let abi = h.config.abi;
    lemma_tags_apart(h);
    lemma_small_tag_steps(h, obj, h.config.tags.module);
    lemma_wrap_twice(obj + abi.module_usings, abi.arraylist_items as int);
    let u = wrap(obj + abi.module_usings);
    let items = h.field(u, abi.arraylist_items);
    let count = h.field(u, abi.arraylist_len);
    let x = Step::Visit(JuliaVMSlot::Offset(slot));
    let five = seq![
        Step::Slot(wrap(obj + abi.module_bindings)),
        Step::Slot(wrap(obj + abi.module_bindingkeyset)),
        Step::Slot(wrap(obj + abi.module_parent)),
        Step::Slot(wrap(obj + abi.module_usings_backedges)),
        Step::Slot(wrap(obj + abi.module_scanned_methods)),
    ];
    let middle = if h.is_mapped(items) {
        offset_slot_steps(
            h,
            wrap(u + abi.arraylist_items),
            wrap(abi.module_usings + abi.arraylist_space),
        )
    } else {
        Seq::empty()
    };
    let list = if count > 0 {
        span(items, wrap(items + 8 * count), 24)
    } else {
        Seq::empty()
    };
    assert(object_steps(h, obj) == five + middle + list);
    lemma_contains_either(five + middle, list, x);
    lemma_contains_either(five, middle, x);
    if middle.len() > 0 {
        assert(middle[0] == middle.last());
    }
}

/// The width class that a layout records for its tables, read from its bit field.
pub open spec fn recorded_class(h: HeapView, layout: u64) -> int {
    let f = h.config.abi.layout_fielddesc_type;
    ((h.half(wrap(layout + f.offset)) >> f.shift) & f.mask) as int
}

/// How many bytes a field descriptor of a width class takes up: two, four, eight or sixteen.
pub open spec fn descriptor_bytes(class: int) -> int {
    if class == 0 {
        2
    } else if class == 1 {
        4
    } else if class == 2 {
        8
    } else {
        16
    }
}

/// Where the pointer table of a layout lies: behind the header and all field descriptors.
pub open spec fn table_place(h: HeapView, layout: u64) -> int {
    let nfields = h.quad(wrap(layout + h.config.abi.layout_nfields));
    layout + h.config.abi.layout_header_size + descriptor_bytes(recorded_class(h, layout)) * nfields
}

/// Whether the pointer table of a layout is one that memory can hold.
pub open spec fn table_fits(h: HeapView, layout: u64) -> bool {
    let nfields = h.quad(wrap(layout + h.config.abi.layout_nfields));
    let n = h.quad(wrap(layout + h.config.abi.layout_npointers));
    &&& descriptor_bytes(recorded_class(h, layout)) * nfields <= u32::MAX
    &&& table_place(h, layout) + 4 * n <= u64::MAX
}

/// The word index that the `k`-th entry of a pointer table records. Entries are one, two or four
/// bytes wide.
pub open spec fn recorded_index(h: HeapView, layout: u64, k: int) -> int {
    let at = table_place(h, layout);
    if recorded_class(h, layout) == 0 {
        h.byte((at + k) as u64) as int
    } else if recorded_class(h, layout) == 1 {
        h.half((at + 2 * k) as u64) as int
    } else {
        h.quad((at + 4 * k) as u64) as int
    }
}

/// The pointer that the `k`-th entry of a pointer table records for the instance at `base`.
pub open spec fn recorded_pointer(h: HeapView, layout: u64, base: u64, k: int) -> u64 {
    wrap(base + 8 * recorded_index(h, layout, k))
}

proof fn lemma_table_place(h: HeapView, layout: u64)
    requires
        h.wf(),
        table_fits(h, layout),
    ensures
        layout_ptrs(h, layout) == table_place(h, layout),
        fielddesc_type(h, layout) == recorded_class(h, layout),
        fielddesc_size(fielddesc_type(h, layout)) == descriptor_bytes(recorded_class(h, layout)),
        0 <= table_place(h, layout) - layout - h.config.abi.layout_header_size,
        0 <= recorded_class(h, layout) <= 3,
{
    let nfields = h.quad(wrap(layout + h.config.abi.layout_nfields));
    let d = descriptor_bytes(recorded_class(h, layout));
    assert(0 <= d * nfields) by (nonlinear_arith)
        requires
            d > 0,
            nfields >= 0,
    ;
    let f = h.config.abi.layout_fielddesc_type;
    let shifted = h.half(wrap(layout + f.offset)) >> f.shift;
    let mask = f.mask;
    assert(shifted & mask <= mask) by (bit_vector);
}

/// The steps for an instance are the pointers that its table records.
proof fn lemma_table_steps(h: HeapView, layout: u64, base: u64, width: int)
    requires
        h.wf(),
        table_fits(h, layout),
        recorded_class(h, layout) == 0 && width == 1 || recorded_class(h, layout) == 1 && width
            == 2 || recorded_class(h, layout) == 2 && width == 4,
    ensures
        ({
            let n = h.quad(wrap(layout + h.config.abi.layout_npointers));
            let steps = table_steps(h, base, layout_ptrs(h, layout), n, width);
            &&& steps.len() == n
            &&& forall|k: int|
                0 <= k < n ==> #[trigger] steps[k] == Step::Slot(
                    recorded_pointer(h, layout, base, k),
                )
        }),
{
    let n = h.quad(wrap(layout + h.config.abi.layout_npointers));
    lemma_table_place(h, layout);
    let ptrs = layout_ptrs(h, layout);
    assert(n * width <= 4 * n) by (nonlinear_arith)
        requires
            width <= 4,
            n >= 0,
    ;
    let steps = table_steps(h, base, ptrs, n, width);
    assert forall|k: int| 0 <= k < n implies #[trigger] steps[k] == Step::Slot(
        recorded_pointer(h, layout, base, k),
    ) by {
        assert(k * width == width * k) by (nonlinear_arith);
    }
}

proof fn lemma_instance_steps(h: HeapView, obj: u64, layout: u64)
    requires
        h.wf(),
        layout >= 0x20000,
        table_fits(h, layout),
    ensures
        ({
            let n = h.quad(wrap(layout + h.config.abi.layout_npointers));
            let steps = instance_steps(h, obj, layout);
            &&& recorded_class(h, layout) <= 2 ==> {
                &&& steps.len() == n
                &&& forall|k: int|
                    0 <= k < n ==> #[trigger] steps[k] == Step::Slot(
                        recorded_pointer(h, layout, obj, k),
                    )
            }
            &&& n > 0 && recorded_class(h, layout) == 3 ==> steps == seq![Step::Unsupported]
        }),
{
    lemma_table_place(h, layout);
    let class = recorded_class(h, layout);
    if class == 0 {
        lemma_table_steps(h, layout, obj, 1);
    } else if class == 1 {
        lemma_table_steps(h, layout, obj, 2);
    } else if class == 2 {
        lemma_table_steps(h, layout, obj, 4);
    }
}

/// An instance reports its tag first; the rest of its scan goes by the type that lives now.
proof fn lemma_instance_object(h: HeapView, obj: u64, vt: u64)
    requires
        h.wf(),
        is_instance(h, obj, vt),
    ensures
        object_steps(h, obj) == header_steps(h, obj, typetag(h, obj)) + typed_steps(h, obj, vt),
        header_steps(h, obj, typetag(h, obj)).len() == 1,
        header_steps(h, obj, typetag(h, obj))[0] is Visit,
{
}

/// The scan of an instance hands on the words that the pointer table of its layout records, in the
/// order of the table, behind the report of its tag, and nothing else. A table of an unknown width
/// stops the scan.
pub proof fn lemma_instance_scan(h: HeapView, obj: u64, vt: u64)
    requires
        settings_apart(h),
        is_instance(h, obj, vt),
        vt != h.config.types.weakref_type,
        ({
            let name = h.word(wrap(vt + h.config.abi.datatype_name));
            let layout = h.word(wrap(vt + h.config.abi.datatype_layout));
            &&& name != h.config.types.array_typename
            &&& name != h.config.types.genericmemory_typename
            &&& layout >= 0x20000
            &&& table_fits(h, layout)
        }),
    ensures
        ({
            let layout = h.word(wrap(vt + h.config.abi.datatype_layout));
            let n = h.quad(wrap(layout + h.config.abi.layout_npointers));
            let steps = object_steps(h, obj);
            &&& n == 0 || recorded_class(h, layout) <= 2 ==> {
                &&& steps.len() == n + 1
                &&& forall|k: int|
                    0 <= k < n ==> #[trigger] steps[k + 1] == Step::Slot(
                        recorded_pointer(h, layout, obj, k),
                    )
            }
            &&& n > 0 && recorded_class(h, layout) == 3 ==> steps.last() == Step::Unsupported
        }),
{
    let layout = h.word(wrap(vt + h.config.abi.datatype_layout));
    lemma_instance_object(h, obj, vt);
    lemma_instance_steps(h, obj, layout);
    lemma_table_place(h, layout);
    let inner = instance_steps(h, obj, layout);
    assert(typed_steps(h, obj, vt) =~= inner);
}

/// The scan of an object whose type has no layout, and that of a weak reference, report the tag and
/// nothing else.
pub proof fn lemma_nothing_but_the_tag(h: HeapView, obj: u64, vt: u64)
    requires
        settings_apart(h),
        is_instance(h, obj, vt),
        ({
            let name = h.word(wrap(vt + h.config.abi.datatype_name));
            let layout = h.word(wrap(vt + h.config.abi.datatype_layout));
            &&& name != h.config.types.array_typename
            &&& name != h.config.types.genericmemory_typename
            &&& vt == h.config.types.weakref_type || layout < 0x20000
        }),
    ensures
        object_steps(h, obj).len() == 1,
        object_steps(h, obj)[0] is Visit,
{
    lemma_instance_object(h, obj, vt);
    assert(typed_steps(h, obj, vt) =~= Seq::<Step>::empty());
}

/// The scan of a task hands on the words that the pointer table of the layout of tasks records,
/// with entries of one byte, and nothing else.
pub proof fn lemma_task_scan(h: HeapView, obj: u64)
    requires
        settings_apart(h),
        carries(h, obj, h.config.tags.task),
        ({
            let layout = h.word(wrap(h.config.types.task_type + h.config.abi.datatype_layout));
            table_fits(h, layout) && recorded_class(h, layout) == 0
        }),
    ensures
        ({
            let layout = h.word(wrap(h.config.types.task_type + h.config.abi.datatype_layout));
            let n = h.quad(wrap(layout + h.config.abi.layout_npointers));
            let steps = object_steps(h, obj);
            &&& steps.len() == n
            &&& forall|k: int|
                0 <= k < n ==> #[trigger] steps[k] == Step::Slot(
                    recorded_pointer(h, layout, obj, k),
                )
        }),
{
    let layout = h.word(wrap(h.config.types.task_type + h.config.abi.datatype_layout));
    lemma_tags_apart(h);
    lemma_small_tag_steps(h, obj, h.config.tags.task);
    lemma_table_steps(h, layout, obj, 1);
    assert(object_steps(h, obj) == task_steps(h, obj));
}

/// A string and a symbol hand on nothing and report nothing, and neither does any other object with
/// a small tag that is none of a kind of types, a simple vector, a module or a task.
pub proof fn lemma_plain_small_objects(h: HeapView, obj: u64, tag: u64)
    requires
        settings_apart(h),
        carries(h, obj, tag),
        tag < h.config.tags.max_tags,
        ({
            let t = h.config.tags;
            &&& tag != t.datatype && tag != t.unionall && tag != t.uniontype && tag != t.tvar
            &&& tag != t.vararg && tag != t.simplevector && tag != t.module && tag != t.task
        }),
    ensures
        object_steps(h, obj) == Seq::<Step>::empty(),
{
    lemma_small_tag_steps(h, obj, tag);
}

/// Strings and symbols are such objects.
pub proof fn lemma_strings_and_symbols(h: HeapView, obj: u64)
    requires
        settings_apart(h),
        carries(h, obj, h.config.tags.string) || carries(h, obj, h.config.tags.symbol),
    ensures
        object_steps(h, obj) == Seq::<Step>::empty(),
{
    lemma_tags_apart(h);
    if carries(h, obj, h.config.tags.string) {
        lemma_plain_small_objects(h, obj, h.config.tags.string);
    } else {
        lemma_plain_small_objects(h, obj, h.config.tags.symbol);
    }
}

/// A buffer, an instance of the type of symbols, and an object whose tag names no live type hand on
/// nothing.
pub proof fn lemma_tag_alone(h: HeapView, obj: u64, a: u64)
    requires
        h.wf(),
        typetag(h, obj) >= 1024,
        ({
            ||| typetag(h, obj) == h.config.buff_tag
            ||| typetag(h, obj) >= 0x20000 && typetag(h, obj) == h.config.types.symbol_type
                && typetag(h, obj) != h.config.types.datatype_type_addr
            ||| !names_datatype(h, live_datatype(h, typetag(h, obj)))
        }),
    ensures
        !hands_on(h, obj, a),
        !object_steps(h, obj).contains(Step::Unsupported),
        object_steps(h, obj).len() == 1,
{
    let tag = typetag(h, obj);
    assert(body_steps(h, obj, tag) =~= Seq::<Step>::empty());
    assert(object_steps(h, obj) =~= header_steps(h, obj, tag));
}

/// The scan of an array hands on its first word, and the words that the layout of its type records.
#[verifier::rlimit(40)]
pub proof fn lemma_array_scan(h: HeapView, obj: u64, vt: u64, a: u64)
    requires
        settings_apart(h),
        is_instance(h, obj, vt),
        vt != h.config.types.weakref_type,
        ({
            let name = h.word(wrap(vt + h.config.abi.datatype_name));
            let layout = h.word(wrap(vt + h.config.abi.datatype_layout));
            &&& name == h.config.types.array_typename
            &&& layout >= 0x20000
            &&& table_fits(h, layout)
            &&& recorded_class(h, layout) <= 2
        }),
    ensures
        ({
            let layout = h.word(wrap(vt + h.config.abi.datatype_layout));
            let n = h.quad(wrap(layout + h.config.abi.layout_npointers));
            hands_on(h, obj, a) <==> a == obj || exists|k: int|
                0 <= k < n && a == #[trigger] recorded_pointer(h, layout, obj, k)
        }),
{
    let layout = h.word(wrap(vt + h.config.abi.datatype_layout));
    let n = h.quad(wrap(layout + h.config.abi.layout_npointers));
    let x = Step::Slot(a);
    lemma_instance_object(h, obj, vt);
    lemma_instance_steps(h, obj, layout);
    let head = header_steps(h, obj, typetag(h, obj));
    let two = array_steps(h, obj);
    let inner = instance_steps(h, obj, layout);
    assert(object_steps(h, obj) == head + (two + inner));
    lemma_contains_either(head, two + inner, x);
    lemma_contains_either(two, inner, x);
    assert(two[0] == Step::Slot(obj));
    if exists|k: int| 0 <= k < n && a == #[trigger] recorded_pointer(h, layout, obj, k) {
        let k = choose|k: int| 0 <= k < n && a == #[trigger] recorded_pointer(h, layout, obj, k);
        assert(inner[k] == x);
    }
    if inner.contains(x) {
        let k = choose|k: int| 0 <= k < inner.len() && inner[k] == x;
        assert(inner[k] == Step::Slot(recorded_pointer(h, layout, obj, k)));
    }
    if two.contains(x) {
        assert(a == obj);
    }
}

/// An array reports its second word as a pointer into its backing memory if and only if the data
/// pointer lies in managed memory behind the start of the backing memory, and the word can be read.
#[verifier::rlimit(40)]
pub proof fn lemma_array_interior_report(h: HeapView, obj: u64, vt: u64, slot: OffsetSlot)
    requires
        settings_apart(h),
        is_instance(h, obj, vt),
        ({
            let name = h.word(wrap(vt + h.config.abi.datatype_name));
            name == h.config.types.array_typename
        }),
    ensures
        ({
            let data = h.word(wrap(obj + h.config.abi.array_ptr_or_offset));
            let memory = h.word(wrap(obj + h.config.abi.array_mem));
            let at = wrap(obj + 8);
            object_steps(h, obj).contains(Step::Visit(JuliaVMSlot::Offset(slot))) <==> {
                &&& h.is_mapped(data)
                &&& data == memory + slot.offset && slot.offset > 0
                &&& at != 0 && (h.is_in_spaces(at) || h.readable(at))
                &&& slot.slot_addr == at
            }
        }),
{
    let layout = h.word(wrap(vt + h.config.abi.datatype_layout));
    let data = h.word(wrap(obj + h.config.abi.array_ptr_or_offset));
    let memory = h.word(wrap(obj + h.config.abi.array_mem));
    let at = wrap(obj + 8);
    let x = Step::Visit(JuliaVMSlot::Offset(slot));
    lemma_instance_object(h, obj, vt);
    let head = header_steps(h, obj, typetag(h, obj));
    let two = array_steps(h, obj);
    let inner = if vt == h.config.types.weakref_type {
        Seq::empty()
    } else {
        instance_steps(h, obj, layout)
    };
    assert(object_steps(h, obj) == head + (two + inner));
    lemma_contains_either(head, two + inner, x);
    lemma_contains_either(two, inner, x);
    lemma_no_visits(h, obj, layout, x);
    let rest = if h.is_mapped(data) && data > memory {
        offset_slot_steps(h, at, (data - memory) as u64)
    } else {
        Seq::empty()
    };
    assert(two == seq![Step::Slot(obj)] + rest);
    lemma_contains_either(seq![Step::Slot(obj)], rest, x);
    if rest.len() > 0 {
        assert(rest[0] == rest.last());
    }
}

proof fn lemma_no_visits(h: HeapView, obj: u64, layout: u64, x: Step)
    requires
        x is Visit,
    ensures
        !instance_steps(h, obj, layout).contains(x),
{
}

/// Whether the object at `obj` is a generic memory of the type that lives at `vt` now.
pub open spec fn is_memory(h: HeapView, obj: u64, vt: u64) -> bool {
    let name = h.word(wrap(vt + h.config.abi.datatype_name));
    is_instance(h, obj, vt) && name == h.config.types.genericmemory_typename
}

/// Whether the elements of the arrays with a layout are references, read from its bit field.
pub open spec fn recorded_boxed(h: HeapView, layout: u64) -> bool {
    let f = h.config.abi.layout_arrayelem_isboxed;
    (h.half(wrap(layout + f.offset)) >> f.shift) & f.mask != 0
}

proof fn lemma_memory_object(h: HeapView, obj: u64, vt: u64)
    requires
        settings_apart(h),
        is_memory(h, obj, vt),
    ensures
        object_steps(h, obj) == header_steps(h, obj, typetag(h, obj)) + memory_steps(
            h,
            obj,
            vt,
            true,
        ),
        header_steps(h, obj, typetag(h, obj)).len() == 1,
        header_steps(h, obj, typetag(h, obj))[0] is Visit,
{
    lemma_instance_object(h, obj, vt);
    assert(typed_steps(h, obj, vt) =~= memory_steps(h, obj, vt, true));
}

/// A generic memory whose data another object owns hands on the place of its owner and nothing
/// else, whatever its elements are.
pub proof fn lemma_owned_memory_scan(h: HeapView, obj: u64, vt: u64, a: u64)
    requires
        settings_apart(h),
        is_memory(h, obj, vt),
        h.memory_kind(obj) == 3,
    ensures
        hands_on(h, obj, a) <==> a == h.owner_field(obj),
        object_steps(h, obj).len() == 2,
{
    lemma_memory_object(h, obj, vt);
    let head = header_steps(h, obj, typetag(h, obj));
    let body = memory_steps(h, obj, vt, true);
    lemma_contains_either(head, body, Step::Slot(a));
    assert(body =~= seq![Step::Slot(h.owner_field(obj))]);
    assert(body[0] == Step::Slot(h.owner_field(obj)));
}

/// A generic memory of references that holds its data itself hands on each of its elements, in
/// order, and nothing else.
pub proof fn lemma_boxed_memory_scan(h: HeapView, obj: u64, vt: u64, a: u64)
    requires
        settings_apart(h),
        is_memory(h, obj, vt),
        h.memory_kind(obj) != 3,
        ({
            let abi = h.config.abi;
            let layout = h.word(wrap(vt + abi.datatype_layout));
            let n = h.word(wrap(obj + abi.genericmemory_length));
            let data = h.word(wrap(obj + abi.genericmemory_ptr));
            &&& layout >= 0x20000
            &&& recorded_boxed(h, layout)
            &&& data + 8 * n <= u64::MAX
        }),
    ensures
        ({
            let n = h.word(wrap(obj + h.config.abi.genericmemory_length));
            let data = h.word(wrap(obj + h.config.abi.genericmemory_ptr));
            let steps = object_steps(h, obj);
            &&& hands_on(h, obj, a) <==> exists|k: int|
                0 <= k < n && a == #[trigger] place(data as int, 8, k)
            &&& steps.len() == n + 1
            &&& forall|k: int| 0 <= k < n ==> #[trigger] steps[k + 1] == Step::Slot(
                place(data as int, 8, k) as u64,
            )
        }),
{
    let n = h.word(wrap(obj + h.config.abi.genericmemory_length));
    let data = h.word(wrap(obj + h.config.abi.genericmemory_ptr));
    lemma_memory_object(h, obj, vt);
    let head = header_steps(h, obj, typetag(h, obj));
    let body = memory_steps(h, obj, vt, true);
    lemma_contains_either(head, body, Step::Slot(a));
    lemma_words_hold(data, n as int, a);
    if n == 0 {
        assert(body =~= Seq::<Step>::empty());
        assert(!(exists|k: int| 0 <= k < n && a == #[trigger] place(data as int, 8, k)));
    } else {
        assert(body == words(data, n as int));
    }
    let steps = object_steps(h, obj);
    assert forall|k: int| 0 <= k < n implies #[trigger] steps[k + 1] == Step::Slot(
        place(data as int, 8, k) as u64,
    ) by {
        assert(steps[k + 1] == body[k]);
    }
}

/// A generic memory of numbers hands on nothing.
pub proof fn lemma_plain_memory_scan(h: HeapView, obj: u64, vt: u64, a: u64)
    requires
        settings_apart(h),
        is_memory(h, obj, vt),
        h.memory_kind(obj) != 3,
        ({
            let layout = h.word(wrap(vt + h.config.abi.datatype_layout));
            let n = h.word(wrap(obj + h.config.abi.genericmemory_length));
            ||| n == 0
            ||| layout < 0x20000
            ||| !recorded_boxed(h, layout) && h.quad(
                wrap(layout + h.config.abi.layout_first_ptr),
            ) >= 0x8000_0000
        }),
    ensures
        !hands_on(h, obj, a),
        object_steps(h, obj).len() == 1,
{
    lemma_memory_object(h, obj, vt);
    assert(memory_steps(h, obj, vt, true) =~= Seq::<Step>::empty());
}

/// The distance between the elements of a generic memory of structs that hold references: their
/// size in whole words.
pub open spec fn struct_stride(h: HeapView, layout: u64) -> int {
    let size = h.quad(wrap(layout + h.config.abi.layout_size));
    size - size % 8
}

/// What a generic memory of structs that hold references looks like in memory: elements that lie
/// inside the address space, with the first reference inside the element.
pub open spec fn holds_structs(h: HeapView, obj: u64, layout: u64) -> bool {
    let abi = h.config.abi;
    let n = h.word(wrap(obj + abi.genericmemory_length));
    let data = h.word(wrap(obj + abi.genericmemory_ptr));
    let stride = struct_stride(h, layout);
    let first = h.quad(wrap(layout + abi.layout_first_ptr));
    &&& n > 0
    &&& layout >= 0x20000
    &&& !recorded_boxed(h, layout)
    &&& first < 0x8000_0000
    &&& 8 * first < stride
    &&& data + stride * n <= u64::MAX
}

/// A generic memory of structs with one reference each hands on the word of that reference in every
/// element and nothing else.
pub proof fn lemma_struct_memory_scan(h: HeapView, obj: u64, vt: u64, a: u64)
    requires
        settings_apart(h),
        is_memory(h, obj, vt),
        h.memory_kind(obj) != 3,
        ({
            let layout = h.word(wrap(vt + h.config.abi.datatype_layout));
            &&& holds_structs(h, obj, layout)
            &&& h.quad(wrap(layout + h.config.abi.layout_npointers)) == 1
        }),
    ensures
        ({
            let abi = h.config.abi;
            let layout = h.word(wrap(vt + abi.datatype_layout));
            let n = h.word(wrap(obj + abi.genericmemory_length));
            let data = h.word(wrap(obj + abi.genericmemory_ptr));
            let size = struct_stride(h, layout);
            let first = h.quad(wrap(layout + abi.layout_first_ptr));
            hands_on(h, obj, a) <==> exists|i: int|
                0 <= i < n && a == #[trigger] place(data + 8 * first, size, i)
        }),
{
    let abi = h.config.abi;
    let layout = h.word(wrap(vt + abi.datatype_layout));
    let n = h.word(wrap(obj + abi.genericmemory_length));
    let data = h.word(wrap(obj + abi.genericmemory_ptr));
    let size = struct_stride(h, layout);
    let first = h.quad(wrap(layout + abi.layout_first_ptr));
    let body = memory_steps(h, obj, vt, true);
    assert(object_steps(h, obj).contains(Step::Slot(a)) == body.contains(Step::Slot(a))) by {
        lemma_memory_object(h, obj, vt);
        lemma_contains_either(header_steps(h, obj, typetag(h, obj)), body, Step::Slot(a));
    }
    lemma_element_end(data, size, n as int);
    lemma_struct_memory_steps(h, obj, vt, layout);
    lemma_strided(data, 8 * first as int, size, n as int, a);
}

proof fn lemma_element_end(data: u64, size: int, n: int)
    requires
        size > 0,
        size % 8 == 0,
        n > 0,
        data + size * n <= u64::MAX,
    ensures
        wrap(data + 8 * (n * (size / 8))) == data + size * n,
        size * n >= size,
{
    lemma_element_bounds(size, n);
    let e = size / 8;
    assert(8 * (n * e) == size * n) by (nonlinear_arith)
        requires
            8 * e == size,
    ;
}

proof fn lemma_struct_memory_steps(h: HeapView, obj: u64, vt: u64, layout: u64)
    requires
        h.memory_kind(obj) != 3,
        layout == h.word(wrap(vt + h.config.abi.datatype_layout)),
        holds_structs(h, obj, layout),
    ensures
        ({
            let abi = h.config.abi;
            let n = h.word(wrap(obj + abi.genericmemory_length));
            let data = h.word(wrap(obj + abi.genericmemory_ptr));
            let size = struct_stride(h, layout);
            let first = h.quad(wrap(layout + abi.layout_first_ptr));
            let pointers = h.quad(wrap(layout + abi.layout_npointers));
            let end = (data + size * n) as u64;
            let body = memory_steps(h, obj, vt, true);
            &&& pointers == 1 ==> body == span((data + 8 * first) as u64, end, size)
            &&& pointers != 1 && fielddesc_type(h, layout) == 0 ==> body == element_steps(
                h,
                data,
                size,
                span_len(data, end, size),
                layout_ptrs(h, layout),
                pointers,
                1,
            )
            &&& pointers != 1 && fielddesc_type(h, layout) == 1 ==> body == element_steps(
                h,
                data,
                size,
                span_len(data, end, size),
                layout_ptrs(h, layout),
                pointers,
                2,
            )
            &&& pointers != 1 && fielddesc_type(h, layout) > 1 ==> body == seq![Step::Unsupported]
        }),
{
    let abi = h.config.abi;
    let n = h.word(wrap(obj + abi.genericmemory_length));
    let data = h.word(wrap(obj + abi.genericmemory_ptr));
    let size = struct_stride(h, layout);
    let first = h.quad(wrap(layout + abi.layout_first_ptr));
    lemma_element_end(data, size, n as int);
    assert(memory_steps(h, obj, vt, true) == memory_element_steps(h, obj, layout));
    assert(8 * (layout_size(h, layout) / 8) == size);
    assert(layout_size(h, layout) / 8 == size / 8);
    assert(first_ptr(h, layout) == first);
    assert(wrap(data + 8 * first) == data + 8 * first);
}

proof fn lemma_strided(data: u64, lead: int, size: int, n: int, a: u64)
    requires
        size > 0,
        n > 0,
        0 <= lead < size,
        data + size * n <= u64::MAX,
        size * n >= size,
    ensures
        span((data + lead) as u64, (data + size * n) as u64, size).contains(Step::Slot(a)) <==> (
        exists|i: int| 0 <= i < n && a == #[trigger] place(data + lead, size, i)),
{
    let begin = (data + lead) as u64;
    let end = (data + size * n) as u64;
    let body = span(begin, end, size);
    lemma_span_holds(begin, end, size, a);
    if body.contains(Step::Slot(a)) {
        let i = choose|i: int| 0 <= i && a == #[trigger] place(begin as int, size, i) && a < end;
        assert(i < n) by (nonlinear_arith)
            requires
                data + lead + size * i < data + size * n,
                lead >= 0,
                size > 0,
                i >= 0,
        ;
        assert(a == place(data + lead, size, i));
    }
    if exists|i: int| 0 <= i < n && a == #[trigger] place(data + lead, size, i) {
        let i = choose|i: int| 0 <= i < n && a == #[trigger] place(data + lead, size, i);
        assert(data + lead + size * i < data + size * n) by (nonlinear_arith)
            requires
                lead < size,
                0 <= i < n,
                size > 0,
        ;
        assert(a == place(begin as int, size, i));
    }
}

proof fn lemma_element_bounds(size: int, n: int)
    requires
        size > 0,
        n > 0,
    ensures
        size * n >= size,
{
    assert(size * n >= size) by (nonlinear_arith)
        requires
            size > 0,
            n > 0,
    ;
}

/// A generic memory of structs with several references each hands on, in every element, the words
/// that the pointer table of the layout records, and nothing else. Only tables with entries of one
/// or two bytes are known.
pub proof fn lemma_structs_memory_scan(h: HeapView, obj: u64, vt: u64, a: u64)
    requires
        settings_apart(h),
        is_memory(h, obj, vt),
        h.memory_kind(obj) != 3,
        ({
            let layout = h.word(wrap(vt + h.config.abi.datatype_layout));
            &&& holds_structs(h, obj, layout)
            &&& table_fits(h, layout)
            &&& h.quad(wrap(layout + h.config.abi.layout_npointers)) != 1
        }),
    ensures
        ({
            let abi = h.config.abi;
            let layout = h.word(wrap(vt + abi.datatype_layout));
            let n = h.word(wrap(obj + abi.genericmemory_length));
            let data = h.word(wrap(obj + abi.genericmemory_ptr));
            let size = struct_stride(h, layout);
            let pointers = h.quad(wrap(layout + abi.layout_npointers));
            &&& recorded_class(h, layout) <= 1 ==> (hands_on(h, obj, a) <==> exists|i: int, k: int|
                0 <= i < n && 0 <= k < pointers && a == #[trigger] recorded_pointer(
                    h,
                    layout,
                    place(data as int, size, i) as u64,
                    k,
                ))
            &&& recorded_class(h, layout) > 1 ==> object_steps(h, obj).last() == Step::Unsupported
        }),
{
    let abi = h.config.abi;
    let layout = h.word(wrap(vt + abi.datatype_layout));
    let n = h.word(wrap(obj + abi.genericmemory_length));
    let data = h.word(wrap(obj + abi.genericmemory_ptr));
    let size = struct_stride(h, layout);
    let body = memory_steps(h, obj, vt, true);
    assert({
        &&& object_steps(h, obj).contains(Step::Slot(a)) == body.contains(Step::Slot(a))
        &&& body.len() > 0 ==> object_steps(h, obj).last() == body.last()
    }) by {
        lemma_memory_object(h, obj, vt);
        lemma_contains_either(header_steps(h, obj, typetag(h, obj)), body, Step::Slot(a));
    }
    lemma_table_place(h, layout);
    lemma_struct_memory_steps(h, obj, vt, layout);
    lemma_count_of_elements(data, size, n as int);
    if recorded_class(h, layout) == 0 {
        lemma_elements_hold(h, layout, data, size, n as nat, 1, a);
    } else if recorded_class(h, layout) == 1 {
        lemma_elements_hold(h, layout, data, size, n as nat, 2, a);
    }
}

proof fn lemma_count_of_elements(data: u64, size: int, n: int)
    requires
        size > 0,
        n > 0,
        data + size * n <= u64::MAX,
    ensures
        span_len(data, (data + size * n) as u64, size) == n,
{
    lemma_element_bounds(size, n);
    let d = size * n;
    lemma_before_end(d, size, n);
    lemma_before_end(d, size, n - 1);
    assert(n * size == size * n) by (nonlinear_arith);
    assert((n - 1) * size < size * n) by (nonlinear_arith)
        requires
            size > 0,
    ;
}

proof fn lemma_elements_hold(
    h: HeapView,
    layout: u64,
    data: u64,
    size: int,
    n: nat,
    width: int,
    a: u64,
)
    requires
        h.wf(),
        table_fits(h, layout),
        recorded_class(h, layout) == 0 && width == 1 || recorded_class(h, layout) == 1 && width
            == 2,
        size > 0,
    ensures
        ({
            let pointers = h.quad(wrap(layout + h.config.abi.layout_npointers));
            let steps = element_steps(
                h,
                data,
                size,
                n,
                layout_ptrs(h, layout),
                pointers,
                width,
            );
            steps.contains(Step::Slot(a)) <==> exists|i: int, k: int|
                0 <= i < n && 0 <= k < pointers && a == #[trigger] recorded_pointer(
                    h,
                    layout,
                    place(data as int, size as int, i) as u64,
                    k,
                )
        }),
    decreases n,
{
    let pointers = h.quad(wrap(layout + h.config.abi.layout_npointers));
    let ptrs = layout_ptrs(h, layout);
    let steps = element_steps(h, data, size, n, ptrs, pointers, width);
    if n == 0 {
        assert(steps =~= Seq::<Step>::empty());
    } else {
        let m = (n - 1) as nat;
        lemma_elements_hold(h, layout, data, size, m, width, a);
        let before = element_steps(h, data, size, m, ptrs, pointers, width);
        assert((n - 1) * size == size * (n - 1)) by (nonlinear_arith);
        let base = place(data as int, size as int, n - 1) as u64;
        let last = table_steps(h, base, ptrs, pointers, width);
        lemma_table_steps(h, layout, base, width);
        assert(steps == before + last);
        lemma_contains_either(before, last, Step::Slot(a));
        if last.contains(Step::Slot(a)) {
            let k = choose|k: int| 0 <= k < last.len() && last[k] == Step::Slot(a);
            assert(a == recorded_pointer(
                h,
                layout,
                place(data as int, size as int, n - 1) as u64,
                k,
            ));
        }
        if exists|i: int, k: int|
            0 <= i < n && 0 <= k < pointers && a == #[trigger] recorded_pointer(
                h,
                layout,
                place(data as int, size as int, i) as u64,
                k,
            ) {
            let (i, k) = choose|i: int, k: int|
                0 <= i < n && 0 <= k < pointers && a == #[trigger] recorded_pointer(
                    h,
                    layout,
                    place(data as int, size as int, i) as u64,
                    k,
                );
            if i == n - 1 {
                assert(last[k] == Step::Slot(a));
            }
        }
    }
}

/// Whether the object at `obj` is a generic memory with a layout, by the live copy of its type.
pub open spec fn has_memory_layout(h: HeapView, obj: u64, vt: u64) -> bool {
    is_memory(h, obj, vt) && h.word(wrap(vt + h.config.abi.datatype_layout)) >= 0x20000
}

/// What is classified as an array without references hands on nothing when it is scanned, unless
/// another object owns its data.
pub proof fn lemma_val_array_scan(h: HeapView, obj: u64, a: u64)
    requires
        settings_apart(h),
        typetag(h, obj) >= 1024,
        is_val_array(h, obj),
        h.memory_kind(obj) != 3,
    ensures
        body_steps(h, obj, typetag(h, obj)) == Seq::<Step>::empty(),
        !hands_on(h, obj, a),
        object_steps(h, obj).len() == 1,
{
    let tag = typetag(h, obj);
    let vtag = live_datatype(h, tag);
    let vt = datatype_of_tag(h, vtag);
    assert(memory_steps(h, obj, vt, true) =~= Seq::<Step>::empty());
    assert(typed_steps(h, obj, vtag) =~= Seq::<Step>::empty());
    assert(body_steps(h, obj, tag) =~= Seq::<Step>::empty());
}

/// What is classified as an array of references hands on each of its elements and nothing else,
/// unless another object owns its data; the kind tells how many.
pub proof fn lemma_obj_array_scan(h: HeapView, obj: u64, vt: u64, a: u64)
    requires
        settings_apart(h),
        is_instance(h, obj, vt),
        is_obj_array(h, obj),
        h.memory_kind(obj) != 3,
        ({
            let n = h.word(wrap(obj + h.config.abi.genericmemory_length));
            let data = h.word(wrap(obj + h.config.abi.genericmemory_ptr));
            data + 8 * n <= u64::MAX && n < 0x1_0000_0000
        }),
    ensures
        ({
            let n = h.word(wrap(obj + h.config.abi.genericmemory_length));
            let data = h.word(wrap(obj + h.config.abi.genericmemory_ptr));
            &&& hands_on(h, obj, a) <==> exists|k: int|
                0 <= k < n && a == #[trigger] place(data as int, 8, k)
            &&& object_kind(h, obj) matches ObjectKind::ObjArray(m) && object_steps(h, obj).len()
                == m + 1
        }),
{
    assert(is_memory(h, obj, vt));
    lemma_boxed_memory_scan(h, obj, vt, a);
}

/// How an object is classified: an array of references is a generic memory with a layout whose
/// elements are boxed, an array without references is one whose elements are neither boxed nor hold
/// a reference, and no other instance of a type is either.
pub proof fn lemma_classification(h: HeapView, obj: u64, vt: u64)
    requires
        is_instance(h, obj, vt),
    ensures
        ({
            let layout = h.word(wrap(vt + h.config.abi.datatype_layout));
            let first = h.quad(wrap(layout + h.config.abi.layout_first_ptr));
            &&& is_obj_array(h, obj) <==> has_memory_layout(h, obj, vt) && recorded_boxed(h, layout)
            &&& is_val_array(h, obj) <==> has_memory_layout(h, obj, vt) && !recorded_boxed(
                h,
                layout,
            ) && first >= 0x8000_0000
            &&& object_kind(h, obj) is ObjArray <==> is_obj_array(h, obj)
            &&& object_kind(h, obj) matches ObjectKind::ObjArray(n) ==> n == h.word(
                wrap(obj + h.config.abi.genericmemory_length),
            ) % 0x1_0000_0000
            &&& !(object_kind(h, obj) is ValArray)
        }),
{
}

/// An element of a simple vector, an array or a list that a type name leads to.
pub open spec fn in_list(h: HeapView, first: u64, count: u64, a: u64) -> bool {
    exists|k: int| 0 <= k < count && a == #[trigger] place(first as int, 8, k)
}

/// Whether a list that a type name leads to lies inside the address space.
pub open spec fn list_fits(first: u64, count: u64) -> bool {
    first + 8 * count <= u64::MAX
}

/// Whether an address is that of an element of a simple vector that is there.
pub open spec fn in_vector(h: HeapView, v: u64, a: u64) -> bool {
    &&& v >= 0x20000 && h.readable(v)
    &&& in_list(
        h,
        wrap(v + h.config.abi.svec_size),
        h.word(wrap(v + h.config.abi.svec_length)),
        a,
    )
}

pub open spec fn vector_fits(h: HeapView, v: u64) -> bool {
    list_fits(wrap(v + h.config.abi.svec_size), h.word(wrap(v + h.config.abi.svec_length)))
}

/// Whether an address is that of an element of an array that is there.
pub open spec fn in_array(h: HeapView, v: u64, a: u64) -> bool {
    let data = h.word(wrap(v + h.config.abi.array_ptr_or_offset));
    &&& v >= 0x20000 && h.readable(v) && data != 0 && h.readable(data)
    &&& in_list(h, data, h.word(wrap(v + h.config.abi.array_dimsize)), a)
}

pub open spec fn array_fits(h: HeapView, v: u64) -> bool {
    list_fits(
        h.word(wrap(v + h.config.abi.array_ptr_or_offset)),
        h.word(wrap(v + h.config.abi.array_dimsize)),
    )
}

proof fn lemma_vector_field(h: HeapView, v: u64, a: u64)
    requires
        vector_fits(h, v),
    ensures
        svec_field_steps(h, v).contains(Step::Slot(a)) <==> in_vector(h, v, a),
{
    lemma_words_hold(svec_data(h, v), svec_len(h, v) as int, a);
}

proof fn lemma_array_field(h: HeapView, v: u64, a: u64)
    requires
        array_fits(h, v),
    ensures
        array_field_steps(h, v).contains(Step::Slot(a)) <==> in_array(h, v, a),
{
    lemma_words_hold(
        h.word(wrap(v + h.config.abi.array_ptr_or_offset)),
        h.word(wrap(v + h.config.abi.array_dimsize)) as int,
        a,
    );
}

/// A type reaches, through its name, the four references of the name and the elements of its three
/// vectors and of its list of partial types; nothing through a name that cannot be trusted.
#[verifier::rlimit(40)]
pub proof fn lemma_typename_scan(h: HeapView, dt: u64, a: u64)
    requires
        ({
            let name = h.word(wrap(dt + h.config.abi.datatype_name));
            let abi = h.config.abi;
            &&& vector_fits(h, h.word(wrap(name + abi.typename_names)))
            &&& vector_fits(h, h.word(wrap(name + abi.typename_cache)))
            &&& vector_fits(h, h.word(wrap(name + abi.typename_linearcache)))
            &&& array_fits(h, h.word(wrap(name + abi.typename_partial)))
        }),
    ensures
        ({
            let name = h.word(wrap(dt + h.config.abi.datatype_name));
            let abi = h.config.abi;
            let trusted = {
                &&& name >= 0x20000 && h.is_mapped(name)
                &&& h.readable(name) && h.readable(wrap(name + 80))
                &&& typetag(h, name) >= 0x20000
                &&& h.readable((typetag(h, name) - 8) as u64)
                &&& names_datatype(h, typetag(h, name))
            };
            typename_steps(h, dt).contains(Step::Slot(a)) <==> trusted && {
                ||| a == wrap(name + abi.typename_name)
                ||| a == wrap(name + abi.typename_module)
                ||| a == wrap(name + abi.typename_wrapper)
                ||| a == wrap(name + abi.typename_typeofwrapper)
                ||| in_vector(h, h.word(wrap(name + abi.typename_names)), a)
                ||| in_vector(h, h.word(wrap(name + abi.typename_cache)), a)
                ||| in_vector(h, h.word(wrap(name + abi.typename_linearcache)), a)
                ||| in_array(h, h.word(wrap(name + abi.typename_partial)), a)
            }
        }),
{
    let abi = h.config.abi;
    let name = h.word(wrap(dt + abi.datatype_name));
    let x = Step::Slot(a);
    let names = h.word(wrap(name + abi.typename_names));
    let cache = h.word(wrap(name + abi.typename_cache));
    let linear = h.word(wrap(name + abi.typename_linearcache));
    let partial = h.word(wrap(name + abi.typename_partial));
    lemma_vector_field(h, names, a);
    lemma_vector_field(h, cache, a);
    lemma_vector_field(h, linear, a);
    lemma_array_field(h, partial, a);
    let s1 = svec_field_steps(h, names);
    let s2 = svec_field_steps(h, cache);
    let s3 = svec_field_steps(h, linear);
    let s4 = array_field_steps(h, partial);
    let four = typename_field_steps(h, name);
    lemma_contains_either(four, typename_list_steps(h, name), x);
    lemma_contains_either(s1 + s2 + s3, s4, x);
    lemma_contains_either(s1 + s2, s3, x);
    lemma_contains_either(s1, s2, x);
    assert(typename_list_steps(h, name) == s1 + s2 + s3 + s4);
    assert(four[0] == Step::Slot(wrap(name + abi.typename_name)));
    assert(four[1] == Step::Slot(wrap(name + abi.typename_module)));
    assert(four[2] == Step::Slot(wrap(name + abi.typename_wrapper)));
    assert(four[3] == Step::Slot(wrap(name + abi.typename_typeofwrapper)));
}

/// The scan of an object of a kind of types hands on the words that the layout of the kind records;
/// a type of the first kind also hands on what it reaches through its name.
#[verifier::rlimit(40)]
pub proof fn lemma_kind_scan(h: HeapView, obj: u64, tag: u64, a: u64)
    requires
        settings_apart(h),
        carries(h, obj, tag),
        ({
            let t = h.config.tags;
            ||| tag == t.datatype
            ||| tag == t.unionall
            ||| tag == t.uniontype
            ||| tag == t.tvar
            ||| tag == t.vararg
        }),
        ({
            let vt = h.small_typeof[2 * tag];
            let name = h.word(wrap(vt + h.config.abi.datatype_name));
            let layout = h.word(wrap(vt + h.config.abi.datatype_layout));
            &&& vt >= 0x20000 && vt != h.config.types.datatype_type_addr
            &&& vt != h.config.types.weakref_type
            &&& name != h.config.types.array_typename
            &&& name != h.config.types.genericmemory_typename
            &&& layout >= 0x20000
            &&& table_fits(h, layout)
            &&& recorded_class(h, layout) <= 2
        }),
    ensures
        ({
            let layout = h.word(wrap(h.small_typeof[2 * tag] + h.config.abi.datatype_layout));
            let n = h.quad(wrap(layout + h.config.abi.layout_npointers));
            hands_on(h, obj, a) <==> {
                ||| exists|k: int|
                    0 <= k < n && a == #[trigger] recorded_pointer(h, layout, obj, k)
                ||| tag == h.config.tags.datatype && typename_steps(h, obj).contains(Step::Slot(a))
            }
        }),
{
    let vt = h.small_typeof[2 * tag];
    let layout = h.word(wrap(vt + h.config.abi.datatype_layout));
    let n = h.quad(wrap(layout + h.config.abi.layout_npointers));
    let x = Step::Slot(a);
    lemma_tags_apart(h);
    lemma_small_tag_steps(h, obj, tag);
    lemma_instance_steps(h, obj, layout);
    let inner = instance_steps(h, obj, layout);
    assert((16 * tag) as u64 / 8 == 2 * tag);
    assert(typed_steps(h, obj, vt) =~= inner);
    let names = if tag == h.config.tags.datatype {
        typename_steps(h, obj)
    } else {
        Seq::empty()
    };
    assert(object_steps(h, obj) == names + inner);
    lemma_contains_either(names, inner, x);
    if exists|k: int| 0 <= k < n && a == #[trigger] recorded_pointer(h, layout, obj, k) {
        let k = choose|k: int| 0 <= k < n && a == #[trigger] recorded_pointer(h, layout, obj, k);
        assert(inner[k] == x);
    }
    if inner.contains(x) {
        let k = choose|k: int| 0 <= k < inner.len() && inner[k] == x;
        assert(inner[k] == Step::Slot(recorded_pointer(h, layout, obj, k)));
    }
}

/// The list of steps for a module holds the word of its list of used modules at an index if and
/// only if the index is a multiple of three.
pub proof fn lemma_listed_module_words(heap: &Heap, obj: u64, steps: Vec<Step>, k: int)
    requires
        call_ensures(list_object_steps, (heap, obj), steps),
        settings_apart(heap@),
        carries(heap@, obj, heap@.config.tags.module),
        ({
            let usings = obj + heap@.config.abi.module_usings;
            let items = heap@.word(wrap(usings + heap@.config.abi.arraylist_items));
            let count = heap@.word(wrap(usings + heap@.config.abi.arraylist_len));
            &&& 0 <= k < count
            &&& items + 8 * count <= u64::MAX
            &&& !is_module_field(heap@, obj, (items + 8 * k) as u64)
        }),
    ensures
        ({
            let usings = obj + heap@.config.abi.module_usings;
            let items = heap@.word(wrap(usings + heap@.config.abi.arraylist_items));
            steps@.contains(Step::Slot((items + 8 * k) as u64)) <==> k % 3 == 0
        }),
{
    let usings = obj + heap@.config.abi.module_usings;
    let items = heap@.word(wrap(usings + heap@.config.abi.arraylist_items));
    lemma_module_scan(heap@, obj, (items + 8 * k) as u64);
    assert(place(items as int, 8, k) == items + 8 * k);
}

/// What is found to be an array without references has no reference to hand on: the list of its
/// steps holds the report of its tag alone, unless another object owns its data.
pub proof fn lemma_listed_val_array(
    heap: &Heap,
    object: ObjectReference,
    r: bool,
    steps: Vec<Step>,
    a: u64,
)
    requires
        call_ensures(is_julia_val_array, (heap, object), r),
        call_ensures(list_object_steps, (heap, object.raw), steps),
        settings_apart(heap@),
        typetag(heap@, object.raw) >= 1024,
        heap@.memory_kind(object.raw) != 3,
    ensures
        r ==> steps@.len() == 1 && !steps@.contains(Step::Slot(a)),
{
    if r {
        lemma_val_array_scan(heap@, object.raw, a);
    }
}

/// What is found to be an array of references hands on, one after the other, the slots of its array
/// data, unless another object owns the data.
pub proof fn lemma_listed_obj_array(
    heap: &Heap,
    object: ObjectReference,
    vt: u64,
    r: bool,
    data: JuliaMemorySlice,
    steps: Vec<Step>,
    i: int,
)
    requires
        call_ensures(is_julia_obj_array, (heap, object), r),
        call_ensures(get_julia_obj_array_data, (heap, object), data),
        call_ensures(list_object_steps, (heap, object.raw), steps),
        settings_apart(heap@),
        is_instance(heap@, object.raw, vt),
        heap@.memory_kind(object.raw) != 3,
        data.start + 8 * data.count <= u64::MAX,
    ensures
        r ==> data.owner == object && steps@.len() == data.count + 1,
        r && 0 <= i < data.count ==> steps@[i + 1] == Step::Slot((data.start + 8 * i) as u64),
        r ==> is_memory(heap@, object.raw, vt) && data.count == heap@.word(
            wrap(object.raw + heap@.config.abi.genericmemory_length),
        ) && data.start == heap@.word(wrap(object.raw + heap@.config.abi.genericmemory_ptr)),
{
    if r {
        lemma_boxed_memory_scan(heap@, object.raw, vt, 0);
        if 0 <= i < data.count {
            assert(steps@[i + 1] == Step::Slot(place(data.start as int, 8, i) as u64));
        }
    }
}

/// The order of the steps for a module: its five references, the report of its list if there is
/// one, and the first of every three words of the list; each once.
#[verifier::rlimit(40)]
pub proof fn lemma_order_in_a_module(h: HeapView, obj: u64, j: int)
    requires
        settings_apart(h),
        carries(h, obj, h.config.tags.module),
        ({
            let usings = obj + h.config.abi.module_usings;
            let items = h.word(wrap(usings + h.config.abi.arraylist_items));
            let count = h.word(wrap(usings + h.config.abi.arraylist_len));
            items + 8 * count <= u64::MAX
        }),
    ensures
        ({
            let abi = h.config.abi;
            let usings = obj + abi.module_usings;
            let at = wrap(usings + abi.arraylist_items);
            let items = h.word(at);
            let count = h.word(wrap(usings + abi.arraylist_len));
            let reported = h.is_mapped(items) && at != 0 && (h.is_in_spaces(at) || h.readable(at));
            let lead = if reported {
                6int
            } else {
                5
            };
            let steps = object_steps(h, obj);
            &&& steps[0] == Step::Slot(wrap(obj + abi.module_bindings))
            &&& steps[1] == Step::Slot(wrap(obj + abi.module_bindingkeyset))
            &&& steps[2] == Step::Slot(wrap(obj + abi.module_parent))
            &&& steps[3] == Step::Slot(wrap(obj + abi.module_usings_backedges))
            &&& steps[4] == Step::Slot(wrap(obj + abi.module_scanned_methods))
            &&& reported ==> steps[5] is Visit
            &&& steps.len() == lead + (count + 2) / 3
            &&& 0 <= j && 3 * j < count ==> steps[lead + j] == Step::Slot(
                place(items as int, 24, j) as u64,
            )
        }),
{
    let abi = h.config.abi;
    lemma_tags_apart(h);
    lemma_small_tag_steps(h, obj, h.config.tags.module);
    lemma_wrap_twice(obj + abi.module_usings, abi.arraylist_items as int);
    lemma_wrap_twice(obj + abi.module_usings, abi.arraylist_len as int);
    let usings = obj + abi.module_usings;
    let items = h.word(wrap(usings + abi.arraylist_items));
    let count = h.word(wrap(usings + abi.arraylist_len));
    assert(object_steps(h, obj) == module_steps(h, obj));
    if count > 0 {
        let end = (items + 8 * count) as u64;
        assert(wrap(items + 8 * count) == end);
        assert(span_len(items, end, 24) == (count + 2) / 3);
    }
}

/// The order of the steps for a generic memory of structs with one reference each: element by
/// element.
pub proof fn lemma_order_in_struct_memory(h: HeapView, obj: u64, vt: u64, i: int)
    requires
        settings_apart(h),
        is_memory(h, obj, vt),
        h.memory_kind(obj) != 3,
        ({
            let layout = h.word(wrap(vt + h.config.abi.datatype_layout));
            &&& holds_structs(h, obj, layout)
            &&& h.quad(wrap(layout + h.config.abi.layout_npointers)) == 1
        }),
    ensures
        ({
            let abi = h.config.abi;
            let layout = h.word(wrap(vt + abi.datatype_layout));
            let n = h.word(wrap(obj + abi.genericmemory_length));
            let data = h.word(wrap(obj + abi.genericmemory_ptr));
            let first = h.quad(wrap(layout + abi.layout_first_ptr));
            let steps = object_steps(h, obj);
            &&& steps.len() == n + 1
            &&& 0 <= i < n ==> steps[i + 1] == Step::Slot(
                place(data + 8 * first, struct_stride(h, layout), i) as u64,
            )
        }),
{
    let abi = h.config.abi;
    let layout = h.word(wrap(vt + abi.datatype_layout));
    let n = h.word(wrap(obj + abi.genericmemory_length));
    let data = h.word(wrap(obj + abi.genericmemory_ptr));
    let first = h.quad(wrap(layout + abi.layout_first_ptr));
    let size = struct_stride(h, layout);
    let body = memory_steps(h, obj, vt, true);
    assert({
        &&& object_steps(h, obj).len() == body.len() + 1
        &&& 0 <= i < body.len() ==> object_steps(h, obj)[i + 1] == body[i]
    }) by {
        lemma_memory_object(h, obj, vt);
    }
    lemma_struct_memory_steps(h, obj, vt, layout);
    lemma_element_bounds(size, n as int);
    lemma_count_from(data, 8 * first, size, n as int);
    assert(i * size == size * i) by (nonlinear_arith);
}

proof fn lemma_count_from(data: u64, lead: int, size: int, n: int)
    requires
        size > 0,
        n > 0,
        0 <= lead < size,
        data + size * n <= u64::MAX,
        size * n >= size,
    ensures
        span_len((data + lead) as u64, (data + size * n) as u64, size) == n,
{
    let d = size * n - lead;
    assert(n * size == size * n) by (nonlinear_arith);
    assert((n - 1) * size == size * n - size) by (nonlinear_arith);
    lemma_before_end(d, size, n);
    lemma_before_end(d, size, n - 1);
}

/// The order of the steps for an array: the report of its tag, its first word, the report of its
/// second word if it is due, and the words that the layout of its type records.
#[verifier::rlimit(40)]
pub proof fn lemma_order_in_an_array(h: HeapView, obj: u64, vt: u64, k: int)
    requires
        settings_apart(h),
        is_instance(h, obj, vt),
        vt != h.config.types.weakref_type,
        ({
            let name = h.word(wrap(vt + h.config.abi.datatype_name));
            let layout = h.word(wrap(vt + h.config.abi.datatype_layout));
            &&& name == h.config.types.array_typename
            &&& layout >= 0x20000
            &&& table_fits(h, layout)
            &&& recorded_class(h, layout) <= 2
        }),
    ensures
        ({
            let data = h.word(wrap(obj + h.config.abi.array_ptr_or_offset));
            let memory = h.word(wrap(obj + h.config.abi.array_mem));
            let at = wrap(obj + 8);
            let layout = h.word(wrap(vt + h.config.abi.datatype_layout));
            let n = h.quad(wrap(layout + h.config.abi.layout_npointers));
            let reported = h.is_mapped(data) && data > memory && at != 0 && (h.is_in_spaces(at)
                || h.readable(at));
            let lead = if reported {
                3int
            } else {
                2
            };
            let steps = object_steps(h, obj);
            &&& steps[0] is Visit
            &&& steps[1] == Step::Slot(obj)
            &&& reported ==> steps[2] is Visit
            &&& steps.len() == lead + n
            &&& 0 <= k < n ==> steps[lead + k] == Step::Slot(recorded_pointer(h, layout, obj, k))
        }),
{
    let layout = h.word(wrap(vt + h.config.abi.datatype_layout));
    lemma_instance_object(h, obj, vt);
    lemma_instance_steps(h, obj, layout);
    let head = header_steps(h, obj, typetag(h, obj));
    let two = array_steps(h, obj);
    let inner = instance_steps(h, obj, layout);
    assert(object_steps(h, obj) == head + (two + inner));
    if 0 <= k < inner.len() {
        assert((head + (two + inner))[head.len() + two.len() + k] == inner[k]);
    }
}

/// A run of words, one step each.
pub open spec fn listed(first: u64, count: u64) -> Seq<Step> {
    Seq::new(count as nat, |k: int| Step::Slot((first + 8 * k) as u64))
}

/// The words that are listed for a vector or an array: none where it is not there.
pub open spec fn listed_vector(h: HeapView, v: u64) -> Seq<Step> {
    if v >= 0x20000 && h.readable(v) {
        listed(wrap(v + h.config.abi.svec_size), h.word(wrap(v + h.config.abi.svec_length)))
    } else {
        seq![]
    }
}

pub open spec fn listed_array(h: HeapView, v: u64) -> Seq<Step> {
    let data = h.word(wrap(v + h.config.abi.array_ptr_or_offset));
    if v >= 0x20000 && h.readable(v) && data != 0 && h.readable(data) {
        listed(data, h.word(wrap(v + h.config.abi.array_dimsize)))
    } else {
        seq![]
    }
}

proof fn lemma_listed(begin: u64, count: u64)
    requires
        list_fits(begin, count),
    ensures
        words(begin, count as int) == listed(begin, count),
{
    lemma_words_hold(begin, count as int, 0);
    assert(words(begin, count as int) =~= listed(begin, count));
}

/// The order of the steps for the name of a type: its four references, then the elements of its
/// names, of its two caches and of its list of partial types.
#[verifier::rlimit(60)]
pub proof fn lemma_order_in_a_typename(h: HeapView, dt: u64)
    requires
        ({
            let name = h.word(wrap(dt + h.config.abi.datatype_name));
            let abi = h.config.abi;
            &&& vector_fits(h, h.word(wrap(name + abi.typename_names)))
            &&& vector_fits(h, h.word(wrap(name + abi.typename_cache)))
            &&& vector_fits(h, h.word(wrap(name + abi.typename_linearcache)))
            &&& array_fits(h, h.word(wrap(name + abi.typename_partial)))
        }),
    ensures
        ({
            let name = h.word(wrap(dt + h.config.abi.datatype_name));
            let abi = h.config.abi;
            typename_steps(h, dt).len() == 0 || typename_steps(h, dt) == seq![
                Step::Slot(wrap(name + abi.typename_name)),
                Step::Slot(wrap(name + abi.typename_module)),
                Step::Slot(wrap(name + abi.typename_wrapper)),
                Step::Slot(wrap(name + abi.typename_typeofwrapper)),
            ] + (listed_vector(h, h.word(wrap(name + abi.typename_names))) + listed_vector(
                h,
                h.word(wrap(name + abi.typename_cache)),
            ) + listed_vector(h, h.word(wrap(name + abi.typename_linearcache))) + listed_array(
                h,
                h.word(wrap(name + abi.typename_partial)),
            ))
        }),
{
    let abi = h.config.abi;
    let name = h.word(wrap(dt + abi.datatype_name));
    lemma_listed_vector(h, h.word(wrap(name + abi.typename_names)));
    lemma_listed_vector(h, h.word(wrap(name + abi.typename_cache)));
    lemma_listed_vector(h, h.word(wrap(name + abi.typename_linearcache)));
    lemma_listed_array(h, h.word(wrap(name + abi.typename_partial)));
}

proof fn lemma_listed_vector(h: HeapView, v: u64)
    requires
        vector_fits(h, v),
    ensures
        svec_field_steps(h, v) == listed_vector(h, v),
{
    lemma_listed(svec_data(h, v), svec_len(h, v));
}

proof fn lemma_listed_array(h: HeapView, v: u64)
    requires
        array_fits(h, v),
    ensures
        array_field_steps(h, v) == listed_array(h, v),
{
    lemma_listed(
        h.word(wrap(v + h.config.abi.array_ptr_or_offset)),
        h.word(wrap(v + h.config.abi.array_dimsize)),
    );
}

proof fn lemma_elements_in_order(
    h: HeapView,
    layout: u64,
    data: u64,
    size: int,
    n: nat,
    width: int,
    i: int,
    k: int,
)
    requires
        h.wf(),
        table_fits(h, layout),
        recorded_class(h, layout) == 0 && width == 1 || recorded_class(h, layout) == 1 && width
            == 2,
        size > 0,
    ensures
        ({
            let pointers = h.quad(wrap(layout + h.config.abi.layout_npointers));
            let steps = element_steps(h, data, size, n, layout_ptrs(h, layout), pointers, width);
            &&& steps.len() == pointers * n
            &&& 0 <= i < n && 0 <= k < pointers ==> 0 <= pointers * i + k < steps.len()
                && steps[pointers * i + k] == Step::Slot(
                recorded_pointer(h, layout, place(data as int, size, i) as u64, k),
            )
        }),
    decreases n,
{
    let pointers = h.quad(wrap(layout + h.config.abi.layout_npointers));
    let ptrs = layout_ptrs(h, layout);
    let steps = element_steps(h, data, size, n, ptrs, pointers, width);
    if n == 0 {
        assert(pointers * n == 0) by (nonlinear_arith)
            requires
                n == 0,
        ;
    } else {
        let m = (n - 1) as nat;
        lemma_elements_in_order(h, layout, data, size, m, width, i, k);
        let before = element_steps(h, data, size, m, ptrs, pointers, width);
        assert((n - 1) * size == size * (n - 1)) by (nonlinear_arith);
        let base = place(data as int, size, n - 1) as u64;
        let last = table_steps(h, base, ptrs, pointers, width);
        lemma_table_steps(h, layout, base, width);
        assert(steps == before + last);
        assert(pointers * n == pointers * (n - 1) + pointers) by (nonlinear_arith);
        if i == n - 1 && 0 <= k < pointers {
            assert(steps[before.len() + k] == last[k]);
        }
    }
}

/// The order of the steps for a generic memory of structs with several references each: element by
/// element, and in each element as the pointer table of the layout has them.
pub proof fn lemma_order_in_structs_memory(h: HeapView, obj: u64, vt: u64, i: int, k: int)
    requires
        settings_apart(h),
        is_memory(h, obj, vt),
        h.memory_kind(obj) != 3,
        ({
            let layout = h.word(wrap(vt + h.config.abi.datatype_layout));
            &&& holds_structs(h, obj, layout)
            &&& table_fits(h, layout)
            &&& h.quad(wrap(layout + h.config.abi.layout_npointers)) != 1
            &&& recorded_class(h, layout) <= 1
        }),
    ensures
        ({
            let abi = h.config.abi;
            let layout = h.word(wrap(vt + abi.datatype_layout));
            let n = h.word(wrap(obj + abi.genericmemory_length));
            let data = h.word(wrap(obj + abi.genericmemory_ptr));
            let pointers = h.quad(wrap(layout + abi.layout_npointers));
            let steps = object_steps(h, obj);
            &&& steps.len() == pointers * n + 1
            &&& 0 <= i < n && 0 <= k < pointers ==> steps[pointers * i + k + 1] == Step::Slot(
                recorded_pointer(
                    h,
                    layout,
                    place(data as int, struct_stride(h, layout), i) as u64,
                    k,
                ),
            )
        }),
{
    let abi = h.config.abi;
    let layout = h.word(wrap(vt + abi.datatype_layout));
    let n = h.word(wrap(obj + abi.genericmemory_length));
    let data = h.word(wrap(obj + abi.genericmemory_ptr));
    let pointers = h.quad(wrap(layout + abi.layout_npointers));
    let size = struct_stride(h, layout);
    let body = memory_steps(h, obj, vt, true);
    let at = pointers * i + k;
    assert({
        &&& object_steps(h, obj).len() == body.len() + 1
        &&& 0 <= at < body.len() ==> object_steps(h, obj)[at + 1] == body[at]
    }) by {
        lemma_memory_object(h, obj, vt);
    }
    lemma_table_place(h, layout);
    lemma_struct_memory_steps(h, obj, vt, layout);
    lemma_count_of_elements(data, size, n as int);
    if recorded_class(h, layout) == 0 {
        lemma_elements_in_order(h, layout, data, size, n as nat, 1, i, k);
    } else {
        lemma_elements_in_order(h, layout, data, size, n as nat, 2, i, k);
    }
}

/// The order of the steps for an object of a kind of types: what a type reaches through its name
/// comes first, and the words that the layout of the kind records come last.
pub proof fn lemma_order_in_a_kind(h: HeapView, obj: u64, tag: u64, k: int)
    requires
        settings_apart(h),
        carries(h, obj, tag),
        ({
            let t = h.config.tags;
            ||| tag == t.datatype
            ||| tag == t.unionall
            ||| tag == t.uniontype
            ||| tag == t.tvar
            ||| tag == t.vararg
        }),
        ({
            let vt = h.small_typeof[2 * tag];
            let name = h.word(wrap(vt + h.config.abi.datatype_name));
            let layout = h.word(wrap(vt + h.config.abi.datatype_layout));
            &&& vt >= 0x20000 && vt != h.config.types.datatype_type_addr
            &&& vt != h.config.types.weakref_type
            &&& name != h.config.types.array_typename
            &&& name != h.config.types.genericmemory_typename
            &&& layout >= 0x20000
            &&& table_fits(h, layout)
            &&& recorded_class(h, layout) <= 2
        }),
    ensures
        ({
            let layout = h.word(wrap(h.small_typeof[2 * tag] + h.config.abi.datatype_layout));
            let n = h.quad(wrap(layout + h.config.abi.layout_npointers));
            let steps = object_steps(h, obj);
            let lead = steps.len() - n;
            &&& lead >= 0
            &&& tag == h.config.tags.datatype ==> steps.take(lead) == typename_steps(h, obj)
            &&& tag != h.config.tags.datatype ==> lead == 0
            &&& 0 <= k < n ==> steps[lead + k] == Step::Slot(recorded_pointer(h, layout, obj, k))
        }),
{
    let vt = h.small_typeof[2 * tag];
    let layout = h.word(wrap(vt + h.config.abi.datatype_layout));
    lemma_tags_apart(h);
    lemma_small_tag_steps(h, obj, tag);
    lemma_instance_steps(h, obj, layout);
    let inner = instance_steps(h, obj, layout);
    assert((16 * tag) as u64 / 8 == 2 * tag);
    assert(typed_steps(h, obj, vt) =~= inner);
    let names = if tag == h.config.tags.datatype {
        typename_steps(h, obj)
    } else {
        Seq::empty()
    };
    assert(object_steps(h, obj) == names + inner);
    assert((names + inner).take(names.len() as int) =~= names);
}

/// The order of what is reported and handed on is that of a scan that reads the type from the
/// header: to know the type of a generic memory with a layout changes nothing, whether or not its
/// layout is checked.
pub proof fn lemma_checked_or_not(h: HeapView, obj: u64, vt: u64)
    requires
        h.word(wrap(vt + h.config.abi.datatype_layout)) >= 0x20000 || h.memory_kind(obj) == 3
            || h.word(wrap(obj + h.config.abi.genericmemory_length)) == 0,
    ensures
        memory_steps(h, obj, vt, true) == memory_steps(h, obj, vt, false),
{
}

/// Whatever its tag, an object that is classified as an array has a live type that is one, is
/// called a generic memory and has a layout; every other object is a scalar.
pub proof fn lemma_what_is_no_array(h: HeapView, obj: u64)
    ensures
        ({
            let live = live_datatype(h, typetag(h, obj));
            let vt = datatype_of_tag(h, live);
            let shaped = names_datatype(h, live) && vt != 0 && h.word(
                wrap(vt + h.config.abi.datatype_name),
            ) == h.config.types.genericmemory_typename && h.word(
                wrap(vt + h.config.abi.datatype_layout),
            ) >= 0x20000;
            &&& is_obj_array(h, obj) || is_val_array(h, obj) ==> shaped
            &&& !shaped ==> object_kind(h, obj) is Scalar
            &&& !(is_obj_array(h, obj) && is_val_array(h, obj))
        }),
{
}

/// A scan that is given the type of a generic memory goes by that type: it hands on the place of
/// the owner of the data if another object owns it, each element if the type has boxed elements,
/// and nothing if its elements hold no reference. It reports the tag of the object if the type is a
/// pointer.
pub proof fn lemma_scan_by_type(h: HeapView, obj: u64, klass: u64, a: u64)
    requires
        klass != 0,
        h.word(wrap(klass + h.config.abi.datatype_name)) == h.config.types.genericmemory_typename,
        ({
            let n = h.word(wrap(obj + h.config.abi.genericmemory_length));
            let data = h.word(wrap(obj + h.config.abi.genericmemory_ptr));
            data + 8 * n <= u64::MAX
        }),
    ensures
        ({
            let abi = h.config.abi;
            let layout = h.word(wrap(klass + abi.datatype_layout));
            let n = h.word(wrap(obj + abi.genericmemory_length));
            let data = h.word(wrap(obj + abi.genericmemory_ptr));
            let first = h.quad(wrap(layout + abi.layout_first_ptr));
            let steps = typed_object_steps(h, obj, klass);
            let reported = if klass >= 16 * h.config.tags.max_tags {
                1int
            } else {
                0
            };
            &&& h.memory_kind(obj) == 3 ==> (steps.contains(Step::Slot(a)) <==> a == h.owner_field(
                obj,
            ))
            &&& h.memory_kind(obj) != 3 && recorded_boxed(h, layout) ==> {
                &&& steps.contains(Step::Slot(a)) <==> exists|k: int|
                    0 <= k < n && a == #[trigger] place(data as int, 8, k)
                &&& steps.len() == reported + n
            }
            &&& h.memory_kind(obj) != 3 && !recorded_boxed(h, layout) && first >= 0x8000_0000
                ==> steps.len() == reported
            &&& reported == 1 ==> steps[0] == Step::Visit(
                JuliaVMSlot::TypeTag(TypeTagSlot { address: wrap(obj - 8) }),
            )
        }),
{
    let n = h.word(wrap(obj + h.config.abi.genericmemory_length));
    let data = h.word(wrap(obj + h.config.abi.genericmemory_ptr));
    let head = header_steps(h, obj, klass);
    let body = memory_steps(h, obj, klass, false);
    lemma_contains_either(head, body, Step::Slot(a));
    lemma_words_hold(data, n as int, a);
    if h.memory_kind(obj) == 3 {
        assert(body[0] == Step::Slot(h.owner_field(obj)));
    } else if n == 0 {
        assert(!(exists|k: int| 0 <= k < n && a == #[trigger] place(data as int, 8, k)));
    }
}

/// A scan that is given the type of any other object hands on what the scan of the object hands on;
/// one that is given no type is that scan.
pub proof fn lemma_scan_of_others_by_type(h: HeapView, obj: u64, klass: u64, a: u64)
    requires
        klass == 0 || h.word(wrap(klass + h.config.abi.datatype_name))
            != h.config.types.genericmemory_typename,
    ensures
        klass == 0 ==> typed_object_steps(h, obj, klass) == object_steps(h, obj),
        typed_object_steps(h, obj, klass).contains(Step::Slot(a)) <==> hands_on(h, obj, a),
        klass != 0 && klass >= 16 * h.config.tags.max_tags ==> typed_object_steps(
            h,
            obj,
            klass,
        ).len() == object_steps(h, obj).len() + 1,
{
    if klass != 0 {
        lemma_contains_either(header_steps(h, obj, klass), object_steps(h, obj), Step::Slot(a));
    }
}

/// An array whose type has no layout hands on its first word and nothing else.
pub proof fn lemma_array_without_layout(h: HeapView, obj: u64, vt: u64, a: u64)
    requires
        settings_apart(h),
        is_instance(h, obj, vt),
        h.word(wrap(vt + h.config.abi.datatype_name)) == h.config.types.array_typename,
        h.word(wrap(vt + h.config.abi.datatype_layout)) < 0x20000,
    ensures
        hands_on(h, obj, a) <==> a == obj,
{
    let x = Step::Slot(a);
    let head = header_steps(h, obj, typetag(h, obj));
    let two = array_steps(h, obj);
    lemma_instance_object(h, obj, vt);
    assert(typed_steps(h, obj, vt) =~= two);
    lemma_contains_either(head, two, x);
    assert(two[0] == Step::Slot(obj));
}

/// An object of a kind of types whose layout is missing hands on what a type reaches through its
/// name and nothing else.
pub proof fn lemma_kind_without_layout(h: HeapView, obj: u64, tag: u64, a: u64)
    requires
        settings_apart(h),
        carries(h, obj, tag),
        ({
            let t = h.config.tags;
            ||| tag == t.datatype
            ||| tag == t.unionall
            ||| tag == t.uniontype
            ||| tag == t.tvar
            ||| tag == t.vararg
        }),
        ({
            let vt = h.small_typeof[2 * tag];
            let name = h.word(wrap(vt + h.config.abi.datatype_name));
            &&& vt >= 0x20000 && vt != h.config.types.datatype_type_addr
            &&& name != h.config.types.array_typename
            &&& name != h.config.types.genericmemory_typename
            &&& h.word(wrap(vt + h.config.abi.datatype_layout)) < 0x20000
        }),
    ensures
        hands_on(h, obj, a) <==> tag == h.config.tags.datatype && typename_steps(h, obj).contains(
            Step::Slot(a),
        ),
{
    let vt = h.small_typeof[2 * tag];
    lemma_tags_apart(h);
    lemma_small_tag_steps(h, obj, tag);
    assert((16 * tag) as u64 / 8 == 2 * tag);
    assert(typed_steps(h, obj, vt) =~= Seq::<Step>::empty());
    let names = if tag == h.config.tags.datatype {
        typename_steps(h, obj)
    } else {
        Seq::empty()
    };
    assert(object_steps(h, obj) =~= names);
}

/// A generic memory of elements that are smaller than a word and not boxed hands on nothing.
pub proof fn lemma_small_elements_scan(h: HeapView, obj: u64, vt: u64, a: u64)
    requires
        settings_apart(h),
        is_memory(h, obj, vt),
        h.memory_kind(obj) != 3,
        ({
            let layout = h.word(wrap(vt + h.config.abi.datatype_layout));
            &&& layout >= 0x20000
            &&& !recorded_boxed(h, layout)
            &&& h.quad(wrap(layout + h.config.abi.layout_size)) < 8
        }),
    ensures
        !hands_on(h, obj, a),
{
    let body = memory_steps(h, obj, vt, true);
    lemma_memory_object(h, obj, vt);
    lemma_contains_either(header_steps(h, obj, typetag(h, obj)), body, Step::Slot(a));
    assert(!body.contains(Step::Slot(a)));
}

/// The steps for a task go by the bytes at the place of the pointer table of the layout of tasks,
/// whatever width class the layout records.
pub proof fn lemma_task_steps(h: HeapView, obj: u64, k: int)
    requires
        settings_apart(h),
        carries(h, obj, h.config.tags.task),
        ({
            let layout = h.word(wrap(h.config.types.task_type + h.config.abi.datatype_layout));
            table_fits(h, layout)
        }),
    ensures
        ({
            let layout = h.word(wrap(h.config.types.task_type + h.config.abi.datatype_layout));
            let n = h.quad(wrap(layout + h.config.abi.layout_npointers));
            let steps = object_steps(h, obj);
            &&& steps.len() == n
            &&& 0 <= k < n ==> steps[k] == Step::Slot(
                wrap(obj + 8 * h.byte((table_place(h, layout) + k) as u64)),
            )
        }),
{
    let layout = h.word(wrap(h.config.types.task_type + h.config.abi.datatype_layout));
    lemma_tags_apart(h);
    lemma_small_tag_steps(h, obj, h.config.tags.task);
    lemma_table_place(h, layout);
    assert(object_steps(h, obj) == task_steps(h, obj));
    assert(k * 1 == k);
}

/// What an object is found to be: an array of references of so many elements, counted in 32 bits,
/// if it is an instance of a type of generic memories with a layout and boxed elements, and a
/// scalar otherwise.
pub proof fn lemma_found_kind(
    heap: &Heap,
    object: ObjectReference,
    vt: u64,
    kind: ObjectKind,
    listed_refs: bool,
    listed_vals: bool,
)
    requires
        call_ensures(get_julia_obj_kind, (heap, object), kind),
        call_ensures(is_julia_obj_array, (heap, object), listed_refs),
        call_ensures(is_julia_val_array, (heap, object), listed_vals),
        is_instance(heap@, object.raw, vt),
    ensures
        ({
            let layout = heap@.word(wrap(vt + heap@.config.abi.datatype_layout));
            let n = heap@.word(wrap(object.raw + heap@.config.abi.genericmemory_length));
            let first = heap@.quad(wrap(layout + heap@.config.abi.layout_first_ptr));
            let shaped = has_memory_layout(heap@, object.raw, vt);
            &&& listed_refs <==> shaped && recorded_boxed(heap@, layout)
            &&& listed_vals <==> shaped && !recorded_boxed(heap@, layout) && first >= 0x8000_0000
            &&& listed_refs ==> kind == ObjectKind::ObjArray((n % 0x1_0000_0000) as u32)
            &&& !listed_refs ==> kind == ObjectKind::Scalar
        }),
{
    lemma_classification(heap@, object.raw, vt);
}

} // verus!
