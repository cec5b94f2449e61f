//! What the binding for compiled programs finds in objects and roots, word by word.

use crate::api::{GCTriggerSelector, PlanSelector};
use crate::heap::ObjectReference;
use crate::julia_mlir::model::{
    classify_object, marked_slots, mlir_kind, mlir_size, mlir_slots, slot_run, type_desc,
    JuliaMlirObjectModel, JuliaMlirScanning,
};
use crate::julia_mlir::mutator::{
    body_of, field_write, jlmlir_alloc, jlmlir_field_unlog_bit_base_address,
    jlmlir_field_unlog_bit_log_region, jlmlir_setfield_barrier, mlir_options, AllocRequest,
    MlirFeatures, WriteStep,
};
use crate::julia_mlir::roots::{real_slots, referents, GlobalRoots, RootStack};
use crate::julia_mlir::safepoint::{JuliaMlirCollection, SafepointAction};
use crate::julia_scanning::ObjectKind;
use crate::memory::{
    disjoint, lemma_copy_keeps_source, lemma_word_after_copy, lemma_wrap_twice, with_copy, word_at,
    wrap, Memory,
};
use crate::object_model::aligned;
use crate::scan_laws::place;
use crate::size_laws::just_holds;
use crate::slots::SimpleSlot;
use vstd::prelude::*;

verus! {

/// The flags of a type descriptor, in its fifth word.
pub open spec fn flags_of(m: Map<u64, u8>, desc: u64) -> u64 {
    word_at(m, wrap(desc + 32))
}

/// Whether a type descriptor is that of a memory.
pub open spec fn is_memory_desc(m: Map<u64, u8>, desc: u64) -> bool {
    desc != 0 && flags_of(m, desc) / 16 % 2 == 1
}

/// Whether a type descriptor is that of an array.
pub open spec fn is_array_desc(m: Map<u64, u8>, desc: u64) -> bool {
    desc != 0 && flags_of(m, desc) / 16 % 2 == 0 && flags_of(m, desc) / 8 % 2 == 1
}

/// Whether a type descriptor is that of an object with fields.
pub open spec fn is_plain_desc(m: Map<u64, u8>, desc: u64) -> bool {
    desc != 0 && flags_of(m, desc) / 16 % 2 == 0 && flags_of(m, desc) / 8 % 2 == 0
}

/// Whether a type descriptor is abstract, so that it has no instances to scan.
pub open spec fn is_abstract_desc(m: Map<u64, u8>, desc: u64) -> bool {
    flags_of(m, desc) % 2 == 1
}

/// The bits of a type descriptor that mark references, in its seventh word.
pub open spec fn marks_of(m: Map<u64, u8>, desc: u64) -> u64 {
    word_at(m, wrap(desc + 48))
}

/// The size of an element by a type descriptor, in its eighth word.
pub open spec fn element_bytes(m: Map<u64, u8>, desc: u64) -> u64 {
    word_at(m, wrap(desc + 56))
}

proof fn lemma_flag_bits(flags: u64)
    ensures
        flags & 0x10 != 0 <==> flags / 16 % 2 == 1,
        flags & 0x8 != 0 <==> flags / 8 % 2 == 1,
        flags & 0x1 != 0 <==> flags % 2 == 1,
{
    assert(flags & 0x10 != 0 <==> flags / 16 % 2 == 1) by (bit_vector);
    assert(flags & 0x8 != 0 <==> flags / 8 % 2 == 1) by (bit_vector);
    assert(flags & 0x1 != 0 <==> flags % 2 == 1) by (bit_vector);
}

/// The descriptor of an object is the word in front of it.
pub proof fn lemma_descriptor(m: Map<u64, u8>, obj: u64)
    requires
        obj >= 8,
    ensures
        type_desc(m, obj) == word_at(m, (obj - 8) as u64),
{
    assert(wrap(obj - 8) == obj - 8);
}

/// An object has room for its tag and its body, and is padded to sixteen bytes: a memory holds its
/// length and as many elements, an array three words and as many elements as it can hold, any other
/// object what its descriptor says. An object without a descriptor has sixteen bytes.
pub proof fn lemma_object_sizes(m: Map<u64, u8>, obj: u64)
    ensures
        ({
            let desc = type_desc(m, obj);
            let size = mlir_size(m, obj);
            let length = word_at(m, obj);
            let capacity = word_at(m, wrap(obj + 8));
            let element = element_bytes(m, desc);
            &&& desc == 0 ==> size == 16
            &&& is_memory_desc(m, desc) ==> just_holds(size, 8 + 8 + length * element, 16)
            &&& is_array_desc(m, desc) ==> just_holds(size, 8 + 24 + capacity * element, 16)
            &&& is_plain_desc(m, desc) ==> just_holds(size, 8 + word_at(m, wrap(desc + 8)), 16)
        }),
{
    let desc = type_desc(m, obj);
    let element = element_bytes(m, desc);
    lemma_flag_bits(flags_of(m, desc));
    lemma_padding(8 + 8 + word_at(m, obj) * element);
    lemma_padding(8 + 24 + word_at(m, wrap(obj + 8)) * element);
    lemma_padding(8 + word_at(m, wrap(desc + 8)));
}

proof fn lemma_padding(n: int)
    ensures
        just_holds(aligned(n, 16), n, 16),
{
}

/// Memories and arrays are told apart by their first mark into those of references, which go by the
/// low half of the size of their elements, and those without; anything else is a scalar.
pub proof fn lemma_object_kinds(m: Map<u64, u8>, obj: u64)
    ensures
        ({
            let desc = type_desc(m, obj);
            let listed = is_memory_desc(m, desc) || is_array_desc(m, desc);
            let references = marks_of(m, desc) % 2 == 1;
            &&& mlir_kind(m, obj) is ObjArray <==> listed && references
            &&& mlir_kind(m, obj) is ValArray <==> listed && !references
            &&& mlir_kind(m, obj) is Scalar <==> !listed
            &&& mlir_kind(m, obj) matches ObjectKind::ObjArray(n) ==> n == element_bytes(m, desc)
                % 0x1_0000_0000
        }),
{
    let desc = type_desc(m, obj);
    lemma_flag_bits(flags_of(m, desc));
    lemma_flag_bits(marks_of(m, desc));
}

proof fn lemma_run_holds(start: u64, n: nat, a: u64)
    requires
        start + 8 * n <= u64::MAX,
    ensures
        slot_run(start, n).contains(SimpleSlot { address: a }) <==> exists|k: int|
            0 <= k < n && a == #[trigger] place(start as int, 8, k),
{
    let run = slot_run(start, n);
    let slot = SimpleSlot { address: a };
    if run.contains(slot) {
        let k = choose|k: int| 0 <= k < run.len() && run[k] == slot;
        assert(wrap(start + 8 * k) == start + 8 * k);
        assert(a == place(start as int, 8, k));
    }
    if exists|k: int| 0 <= k < n && a == #[trigger] place(start as int, 8, k) {
        let k = choose|k: int| 0 <= k < n && a == #[trigger] place(start as int, 8, k);
        assert(wrap(start + 8 * k) == start + 8 * k);
        assert(run[k] == slot);
    }
}

/// The scan of a memory of references lists its elements, behind its length, and nothing else; that
/// of a memory without references lists nothing.
pub proof fn lemma_memory_scan(m: Map<u64, u8>, obj: u64, a: u64)
    requires
        is_memory_desc(m, type_desc(m, obj)),
        !is_abstract_desc(m, type_desc(m, obj)),
        obj + 8 + 8 * word_at(m, obj) <= u64::MAX,
    ensures
        ({
            let references = marks_of(m, type_desc(m, obj)) % 2 == 1;
            let length = word_at(m, obj);
            &&& mlir_slots(m, obj).contains(SimpleSlot { address: a }) <==> references && exists|
                k: int,
            |
                0 <= k < length && a == #[trigger] place(obj + 8, 8, k)
            &&& mlir_slots(m, obj).len() == (if references {
                length as int
            } else {
                0
            })
        }),
{
    let desc = type_desc(m, obj);
    lemma_flag_bits(flags_of(m, desc));
    lemma_flag_bits(marks_of(m, desc));
    assert(wrap(obj + 8) == obj + 8);
    lemma_run_holds((obj + 8) as u64, word_at(m, obj) as nat, a);
}

/// The scan of an array lists the word of its element type, its third, and, if its elements are
/// references, as many of them as it is long, behind its three words; nothing else.
pub proof fn lemma_array_scan(m: Map<u64, u8>, obj: u64, a: u64)
    requires
        is_array_desc(m, type_desc(m, obj)),
        !is_abstract_desc(m, type_desc(m, obj)),
        obj + 24 + 8 * word_at(m, obj) <= u64::MAX,
    ensures
        ({
            let references = marks_of(m, type_desc(m, obj)) % 2 == 1;
            let length = word_at(m, obj);
            &&& mlir_slots(m, obj).contains(SimpleSlot { address: a }) <==> {
                ||| a == obj + 16
                ||| references && exists|k: int|
                    0 <= k < length && a == #[trigger] place(obj + 24, 8, k)
            }
            &&& mlir_slots(m, obj).len() == (if references {
                1 + length
            } else {
                1
            })
        }),
{
    let desc = type_desc(m, obj);
    let slot = SimpleSlot { address: a };
    lemma_flag_bits(flags_of(m, desc));
    lemma_flag_bits(marks_of(m, desc));
    assert(wrap(obj + 16) == obj + 16);
    assert(wrap(obj + 24) == obj + 24);
    let run = slot_run((obj + 24) as u64, word_at(m, obj) as nat);
    lemma_run_holds((obj + 24) as u64, word_at(m, obj) as nat, a);
    let slots = mlir_slots(m, obj);
    assert(slots[0] == SimpleSlot { address: (obj + 16) as u64 });
    if slots.contains(slot) {
        let i = choose|i: int| 0 <= i < slots.len() && slots[i] == slot;
        if i > 0 {
            assert(run[i - 1] == slot);
        }
    }
    if run.contains(slot) && marks_of(m, desc) % 2 == 1 {
        let i = choose|i: int| 0 <= i < run.len() && run[i] == slot;
        assert(slots[i + 1] == slot);
    }
}

proof fn lemma_marked(obj: u64, marks: u64, n: nat, a: u64)
    requires
        n <= 64,
        obj + 8 * n <= u64::MAX,
    ensures
        marked_slots(obj, marks, n).contains(SimpleSlot { address: a }) <==> exists|k: int|
            0 <= k < n && a == #[trigger] place(obj as int, 8, k) && (marks >> (k as u64)) & 1 == 1,
        forall|i: int|
            0 <= i < marked_slots(obj, marks, n).len() ==> (#[trigger] marked_slots(
                obj,
                marks,
                n,
            )[i]).address < obj + 8 * n,
        forall|i: int, j: int|
            0 <= i < j < marked_slots(obj, marks, n).len() ==> (#[trigger] marked_slots(
                obj,
                marks,
                n,
            )[i]).address < (#[trigger] marked_slots(obj, marks, n)[j]).address,
    decreases n,
{
    let slots = marked_slots(obj, marks, n);
    let slot = SimpleSlot { address: a };
    if n > 0 {
        let before = marked_slots(obj, marks, (n - 1) as nat);
        lemma_marked(obj, marks, (n - 1) as nat, a);
        assert(wrap(obj + 8 * (n - 1)) == obj + 8 * (n - 1));
        if (marks >> ((n - 1) as u64)) & 1 == 1 {
            let last = SimpleSlot { address: (obj + 8 * (n - 1)) as u64 };
            assert(slots == before.push(last));
            assert(slots[before.len() as int] == last);
            if before.contains(slot) {
                let i = choose|i: int| 0 <= i < before.len() && before[i] == slot;
                assert(slots[i] == slot);
            }
            if slots.contains(slot) && slot != last {
                let i = choose|i: int| 0 <= i < slots.len() && slots[i] == slot;
                assert(before[i] == slot);
            }
            if slots.contains(slot) && slot == last {
                assert(a == place(obj as int, 8, n - 1));
            }
        }
    }
}

/// The scan of an object with fields lists the words of its body whose mark is set, in order, among
/// as many as it has fields and no more than 64; an abstract object and one without a descriptor
/// lists nothing.
pub proof fn lemma_fields_scan(m: Map<u64, u8>, obj: u64, a: u64)
    requires
        obj + 512 <= u64::MAX,
    ensures
        ({
            let desc = type_desc(m, obj);
            let marks = marks_of(m, desc);
            let nfields = word_at(m, wrap(desc + 16));
            let slots = mlir_slots(m, obj);
            &&& is_plain_desc(m, desc) && !is_abstract_desc(m, desc) ==> {
                &&& slots.contains(SimpleSlot { address: a }) <==> exists|k: int|
                    {
                        &&& 0 <= k < nfields && k < 64
                        &&& a == #[trigger] place(obj as int, 8, k)
                        &&& (marks >> (k as u64)) & 1 == 1
                    }
                &&& forall|i: int, j: int|
                    0 <= i < j < slots.len() ==> (#[trigger] slots[i]).address < (
                    #[trigger] slots[j]).address
            }
            &&& desc == 0 || is_abstract_desc(m, desc) ==> slots.len() == 0
        }),
{
    let desc = type_desc(m, obj);
    let marks = marks_of(m, desc);
    let nfields = word_at(m, wrap(desc + 16));
    lemma_flag_bits(flags_of(m, desc));
    let n: nat = if nfields < 64 {
        nfields as nat
    } else {
        64
    };
    lemma_marked(obj, marks, n, a);
}

/// A copy reads like the object: every word at a distance from the new reference is the word at
/// that distance from the old one, the tag included.
pub proof fn lemma_copy_reads_alike(m: Map<u64, u8>, from: u64, dst: u64, k: int)
    requires
        mlir_size(m, from) <= u64::MAX,
        disjoint(wrap(from - 8), mlir_size(m, from), dst, mlir_size(m, from)),
        -8 <= k,
        k + 16 <= mlir_size(m, from),
    ensures
        ({
            let after = with_copy(m, wrap(from - 8), dst, mlir_size(m, from));
            &&& word_at(after, wrap(wrap(dst + 8) + k)) == word_at(m, wrap(from + k))
            &&& word_at(after, wrap(from + k)) == word_at(m, wrap(from + k))
        }),
{
    let n = mlir_size(m, from);
    lemma_word_after_copy(m, wrap(from - 8), dst, n, k + 8);
    lemma_copy_keeps_source(m, wrap(from - 8), dst, n, k + 8);
    lemma_wrap_twice(dst + 8, k);
    lemma_wrap_twice(from - 8, k + 8);
}

/// The slots of the stack of references are the words from its base up to its top; a stack whose
/// base or whose top is not known has none.
pub proof fn lemma_stack_slots(stack: RootStack, m: Map<u64, u8>, a: u64)
    ensures
        ({
            let top = word_at(m, stack.top_addr);
            &&& stack.slots(m).contains(SimpleSlot { address: a }) <==> {
                &&& stack.base != 0 && stack.top_addr != 0
                &&& stack.base <= a < top
                &&& (a - stack.base) % 8 == 0
            }
            &&& forall|i: int|
                0 <= i < stack.slots(m).len() ==> (#[trigger] stack.slots(m)[i]).address
                    == stack.base + 8 * i
        }),
{
    let top = word_at(m, stack.top_addr);
    let slots = stack.slots(m);
    if stack.base != 0 && stack.top_addr != 0 && stack.base <= a < top && (a - stack.base) % 8
        == 0 {
        let i = (a - stack.base) / 8;
        assert(slots[i] == SimpleSlot { address: a });
    }
}

/// The objects that slots refer to are the words behind the slots that are not zero.
pub proof fn lemma_referents(m: Map<u64, u8>, slots: Seq<SimpleSlot>, o: ObjectReference)
    ensures
        referents(m, slots).contains(o) <==> o.raw != 0 && exists|i: int|
            0 <= i < slots.len() && word_at(m, (#[trigger] slots[i]).address) == o.raw,
        referents(m, slots).len() <= slots.len(),
        (forall|i: int| 0 <= i < slots.len() ==> word_at(m, (#[trigger] slots[i]).address) != 0)
            ==> referents(m, slots).len() == slots.len(),
    decreases slots.len(),
{
    let all = referents(m, slots);
    if slots.len() > 0 {
        let head = slots.drop_last();
        let before = referents(m, head);
        let raw = word_at(m, slots.last().address);
        lemma_referents(m, head, o);
        assert(slots[slots.len() - 1] == slots.last());
        assert forall|i: int| 0 <= i < head.len() implies head[i] == slots[i] by {}
        if raw != 0 {
            let last = ObjectReference { raw };
            assert(all[before.len() as int] == last);
            if before.contains(o) {
                let i = choose|i: int| 0 <= i < before.len() && before[i] == o;
                assert(all[i] == o);
            }
            if all.contains(o) && o != last {
                let i = choose|i: int| 0 <= i < all.len() && all[i] == o;
                assert(before[i] == o);
            }
        }
        if before.contains(o) {
            let i = choose|i: int|
                0 <= i < head.len() && word_at(m, (#[trigger] head[i]).address) == o.raw;
            assert(slots[i] == head[i]);
        }
        if o.raw != 0 && exists|i: int|
            0 <= i < slots.len() && word_at(m, (#[trigger] slots[i]).address) == o.raw {
            let i = choose|i: int|
                0 <= i < slots.len() && word_at(m, (#[trigger] slots[i]).address) == o.raw;
            if i < head.len() {
                assert(word_at(m, head[i].address) == o.raw);
            }
        }
        if forall|i: int| 0 <= i < slots.len() ==> word_at(m, (#[trigger] slots[i]).address) != 0 {
            assert forall|i: int| 0 <= i < head.len() implies word_at(
                m,
                (#[trigger] head[i]).address,
            ) != 0 by {
                assert(head[i] == slots[i]);
            }
            assert(raw != 0);
        }
    }
}

proof fn lemma_entered_slots(addresses: Seq<u64>, a: u64)
    ensures
        real_slots(addresses).contains(SimpleSlot { address: a }) <==> a != 0 && addresses.contains(
            a,
        ),
    decreases addresses.len(),
{
    let all = real_slots(addresses);
    let slot = SimpleSlot { address: a };
    if addresses.len() > 0 {
        let head = addresses.drop_last();
        let before = real_slots(head);
        lemma_entered_slots(head, a);
        assert(addresses[addresses.len() - 1] == addresses.last());
        if addresses.last() != 0 {
            let last = SimpleSlot { address: addresses.last() };
            assert(all[before.len() as int] == last);
            if before.contains(slot) {
                let i = choose|i: int| 0 <= i < before.len() && before[i] == slot;
                assert(all[i] == slot);
            }
            if all.contains(slot) && slot != last {
                let i = choose|i: int| 0 <= i < all.len() && all[i] == slot;
                assert(before[i] == slot);
            }
        }
        if head.contains(a) {
            let i = choose|i: int| 0 <= i < head.len() && head[i] == a;
            assert(addresses[i] == a);
        }
        if addresses.contains(a) && a != addresses.last() {
            let i = choose|i: int| 0 <= i < addresses.len() && addresses[i] == a;
            assert(head[i] == a);
        }
    }
}

/// The registered slots are those that the words of the table name, as many as were registered; a
/// word of zero names none, and without a table there are none.
pub proof fn lemma_registered_slots(g: GlobalRoots, m: Map<u64, u8>, a: u64)
    requires
        g.base + 8 * g.count <= u64::MAX,
    ensures
        g.slots(m).contains(SimpleSlot { address: a }) <==> g.base != 0 && a != 0 && exists|i: int|
            0 <= i < g.count && #[trigger] word_at(m, place(g.base as int, 8, i) as u64) == a,
{
    let all = g.registered(m);
    lemma_entered_slots(all, a);
    if all.contains(a) {
        let i = choose|i: int| 0 <= i < all.len() && all[i] == a;
        assert(wrap(g.base + 8 * i) == place(g.base as int, 8, i));
        assert(word_at(m, place(g.base as int, 8, i) as u64) == a);
    }
    if exists|i: int|
        0 <= i < g.count && #[trigger] word_at(m, place(g.base as int, 8, i) as u64) == a {
        let i = choose|i: int|
            0 <= i < g.count && #[trigger] word_at(m, place(g.base as int, 8, i) as u64) == a;
        assert(wrap(g.base + 8 * i) == place(g.base as int, 8, i));
        assert(all[i] == a);
    }
}

/// A build that asks for reference counting gets it, one that asks for tracing in any form gets
/// that otherwise, and one that asks for nothing never collects. The heap has the size that was
/// asked for and does not grow, and one thread collects.
pub proof fn lemma_chosen_options(heap_size: u64, f: MlirFeatures)
    ensures
        ({
            let options = mlir_options(heap_size, f);
            &&& options.plan == PlanSelector::LXR <==> f.lxr
            &&& options.plan == PlanSelector::Immix <==> !f.lxr && (f.immix || f.immix_moving)
            &&& options.plan == PlanSelector::NoGC <==> !f.lxr && !f.immix && !f.immix_moving
            &&& options.gc_trigger == GCTriggerSelector::FixedHeapSize(heap_size)
            &&& options.threads == 1
        }),
{
}

/// The body of a new object lies one word behind the start of its memory; where nothing was
/// allocated there is none.
pub proof fn lemma_new_body(start: u64)
    requires
        start + 8 <= u64::MAX,
    ensures
        start == 0 ==> body_of(start) == 0,
        start != 0 ==> body_of(start) == start + 8,
{
}

/// The barrier tells of every write to an object, with the object, the place and the new reference,
/// if there is one, and of no other write.
pub proof fn lemma_told_writes(src: u64, slot_addr: u64, target: u64)
    ensures
        field_write(src, slot_addr, target) is Some <==> src != 0,
        field_write(src, slot_addr, target) matches Some(w) ==> {
            &&& w.src.raw == src
            &&& w.slot.address == slot_addr
            &&& w.target is Some <==> target != 0
            &&& w.target matches Some(o) ==> o.raw == target
        },
{
}

/// A new object is asked for with room for its tag and its body, padded to sixteen bytes and
/// aligned to them.
pub proof fn lemma_alloc_request(body_size: u64, r: AllocRequest)
    requires
        call_ensures(jlmlir_alloc, (body_size,), r),
        body_size + 23 <= u64::MAX,
    ensures
        just_holds(r.bytes as int, 8 + body_size, 16),
        r.align == 16,
        r.offset == 0,
{
    lemma_padding(8 + body_size);
}

/// A write with a barrier ends with the write of the word; the collector is told before, if and
/// only if there is an object.
pub proof fn lemma_write_with_barrier(obj: u64, offset: u64, value: u64, r: Vec<WriteStep>)
    requires
        call_ensures(jlmlir_setfield_barrier, (obj, offset, value), r),
        obj + offset <= u64::MAX,
    ensures
        r@.len() == (if obj == 0 {
            1int
        } else {
            2
        }),
        r@.last() == (WriteStep::Store { address: (obj + offset) as u64, value }),
        obj != 0 ==> (r@[0] matches WriteStep::Barrier(w) && w.src.raw == obj && w.slot.address
            == obj + offset && (w.target is Some <==> value != 0) && (w.target matches Some(o)
            ==> o.raw == value)),
{
}

/// The bits that say which fields were logged are looked for only under the plan that logs fields,
/// and only where they are kept on the side.
pub proof fn lemma_unlog_bits(
    plan: PlanSelector,
    side: Option<u64>,
    log: Option<u64>,
    base: u64,
    region: u64,
)
    requires
        call_ensures(jlmlir_field_unlog_bit_base_address, (plan, side), base),
        call_ensures(jlmlir_field_unlog_bit_log_region, (log,), region),
    ensures
        base != 0 ==> plan == PlanSelector::LXR && side == Some(base),
        plan == PlanSelector::LXR ==> (side matches Some(offset) ==> base == offset),
        log matches Some(n) ==> region == n,
        log is None ==> region == 0,
{
}

/// The mutator goes on at a safepoint if and only if no collection was asked for; the collector is
/// handed the mutator, if one is bound, once it has stopped.
pub proof fn lemma_safepoints(
    s: JuliaMlirCollection,
    at_safepoint: SafepointAction,
    at_page: SafepointAction,
    stopped: Option<Option<u64>>,
)
    requires
        call_ensures(JuliaMlirCollection::jlmlir_gc_safepoint, (&s,), at_safepoint),
        call_ensures(JuliaMlirCollection::safepoint_gc_block, (&s,), at_page),
        call_ensures(JuliaMlirCollection::stopped_mutator, (&s,), stopped),
    ensures
        at_safepoint is Continue <==> !s.gc_requested,
        s.gc_requested ==> at_safepoint == at_page,
        at_page matches SafepointAction::FlushAndBlock(m) && (m is Some <==> s.the_mutator != 0)
            && (m matches Some(a) ==> a == s.the_mutator),
        stopped is Some <==> s.mutator_stopped,
        stopped matches Some(m) ==> (m is Some <==> s.the_mutator != 0) && (m matches Some(a)
            ==> a == s.the_mutator),
{
}

/// What each turn of a collection changes: the request sets one flag, the stop another, the end of
/// the collection takes both back, the release sets the third, and the mutator that goes on takes
/// that back and counts. No turn touches anything else.
pub proof fn lemma_turns_of_a_collection(s: JuliaMlirCollection)
    ensures
        s.stop_asked().gc_requested && s.stop_asked().mutator_stopped == s.mutator_stopped
            && s.stop_asked().gc_done == s.gc_done && s.stop_asked().gc_count == s.gc_count,
        s.stopped().mutator_stopped && s.stopped().gc_requested == s.gc_requested
            && s.stopped().gc_done == s.gc_done && s.stopped().gc_count == s.gc_count,
        !s.resuming().mutator_stopped && !s.resuming().gc_requested && s.resuming().gc_done
            == s.gc_done && s.resuming().gc_count == s.gc_count,
        s.released().gc_done && s.released().gc_requested == s.gc_requested
            && s.released().mutator_stopped == s.mutator_stopped && s.released().gc_count
            == s.gc_count,
        s.gc_done && s.gc_count < u64::MAX ==> !s.polled().gc_done && s.polled().gc_count
            == s.gc_count + 1,
        !s.gc_done ==> s.polled() == s,
        s.polled().gc_requested == s.gc_requested && s.polled().mutator_stopped
            == s.mutator_stopped,
        s.stop_asked().the_mutator == s.the_mutator && s.stopped().the_mutator == s.the_mutator
            && s.resuming().the_mutator == s.the_mutator && s.released().the_mutator
            == s.the_mutator && s.polled().the_mutator == s.the_mutator,
        s.idle() <==> !s.gc_requested && !s.mutator_stopped && !s.gc_done,
{
}

/// The elements of memories and arrays are listed in order, behind the element type of an array.
pub proof fn lemma_order_of_elements(m: Map<u64, u8>, obj: u64, k: int)
    requires
        obj + 24 + 8 * word_at(m, obj) <= u64::MAX,
        !is_abstract_desc(m, type_desc(m, obj)),
        marks_of(m, type_desc(m, obj)) % 2 == 1,
        0 <= k < word_at(m, obj),
    ensures
        is_memory_desc(m, type_desc(m, obj)) ==> mlir_slots(m, obj)[k].address == obj + 8 + 8 * k,
        is_array_desc(m, type_desc(m, obj)) ==> mlir_slots(m, obj)[0].address == obj + 16
            && mlir_slots(m, obj)[k + 1].address == obj + 24 + 8 * k,
{
    let desc = type_desc(m, obj);
    lemma_flag_bits(flags_of(m, desc));
    lemma_flag_bits(marks_of(m, desc));
    assert(wrap(obj + 8) == obj + 8);
    assert(wrap(obj + 16) == obj + 16);
    assert(wrap(obj + 24) == obj + 24);
    assert(wrap(obj + 8 + 8 * k) == obj + 8 + 8 * k);
    assert(wrap(obj + 24 + 8 * k) == obj + 24 + 8 * k);
}

/// Slots are looked into one after the other: the objects of two lists of slots are those of the
/// lists one behind the other, and a single slot gives the object that its word names, if it names
/// one.
pub proof fn lemma_order_of_referents(
    m: Map<u64, u8>,
    s: Seq<SimpleSlot>,
    t: Seq<SimpleSlot>,
    slot: SimpleSlot,
)
    ensures
        referents(m, s + t) == referents(m, s) + referents(m, t),
        word_at(m, slot.address) == 0 ==> referents(m, seq![slot]).len() == 0,
        word_at(m, slot.address) != 0 ==> referents(m, seq![slot]) == seq![
            ObjectReference { raw: word_at(m, slot.address) },
        ],
    decreases t.len(),
{
    let one = seq![slot];
    assert(one.drop_last() =~= Seq::<SimpleSlot>::empty());
    assert(referents(m, one.drop_last()) =~= Seq::<ObjectReference>::empty());
    if t.len() == 0 {
        assert(s + t =~= s);
        assert(referents(m, s) + Seq::<ObjectReference>::empty() =~= referents(m, s));
    } else {
        assert((s + t).drop_last() =~= s + t.drop_last());
        assert((s + t).last() == t.last());
        lemma_order_of_referents(m, s, t.drop_last(), slot);
        let a = referents(m, s);
        let b = referents(m, t.drop_last());
        let raw = word_at(m, t.last().address);
        assert((a + b).push(ObjectReference { raw }) =~= a + b.push(ObjectReference { raw }));
    }
}

/// Registered addresses are taken one after the other, and only those that are not zero.
pub proof fn lemma_order_of_entries(s: Seq<u64>, t: Seq<u64>, a: u64)
    ensures
        real_slots(s + t) == real_slots(s) + real_slots(t),
        a == 0 ==> real_slots(seq![a]).len() == 0,
        a != 0 ==> real_slots(seq![a]) == seq![SimpleSlot { address: a }],
    decreases t.len(),
{
    let one = seq![a];
    assert(one.drop_last() =~= Seq::<u64>::empty());
    assert(real_slots(one.drop_last()) =~= Seq::<SimpleSlot>::empty());
    if t.len() == 0 {
        assert(s + t =~= s);
        assert(real_slots(s) + Seq::<SimpleSlot>::empty() =~= real_slots(s));
    } else {
        assert((s + t).drop_last() =~= s + t.drop_last());
        assert((s + t).last() == t.last());
        lemma_order_of_entries(s, t.drop_last(), a);
        let x = real_slots(s);
        let y = real_slots(t.drop_last());
        let last = SimpleSlot { address: t.last() };
        assert((x + y).push(last) =~= x + y.push(last));
    }
}

/// The registered addresses are the words of the table, in order, as many as were registered.
pub proof fn lemma_order_of_registration(g: GlobalRoots, m: Map<u64, u8>, i: int)
    requires
        g.base + 8 * g.count <= u64::MAX,
    ensures
        g.registered(m).len() == g.count,
        0 <= i < g.count ==> g.registered(m)[i] == word_at(m, (g.base + 8 * i) as u64),
        g.base != 0 ==> g.slots(m) == real_slots(g.registered(m)),
{
    if 0 <= i < g.count {
        assert(wrap(g.base + 8 * i) == g.base + 8 * i);
    }
}

/// The slots that are listed for an object with fields are the marked words of its body, and those
/// that are listed for a memory of references are its elements.
pub proof fn lemma_listed_slots(
    memory: &Memory,
    object: ObjectReference,
    r: Vec<SimpleSlot>,
    a: u64,
)
    requires
        call_ensures(JuliaMlirScanning::scan_object, (memory, object), r),
        object.raw + 512 <= u64::MAX,
        object.raw + 8 + 8 * word_at(memory@, object.raw) <= u64::MAX,
        !is_abstract_desc(memory@, type_desc(memory@, object.raw)),
    ensures
        ({
            let m = memory@;
            let obj = object.raw;
            let desc = type_desc(m, obj);
            let marks = marks_of(m, desc);
            let nfields = word_at(m, wrap(desc + 16));
            &&& is_plain_desc(m, desc) ==> (r@.contains(SimpleSlot { address: a }) <==> exists|
                k: int,
            |
                {
                    &&& 0 <= k < nfields && k < 64
                    &&& a == #[trigger] place(obj as int, 8, k)
                    &&& (marks >> (k as u64)) & 1 == 1
                })
            &&& is_memory_desc(m, desc) ==> (r@.contains(SimpleSlot { address: a }) <==> marks % 2
                == 1 && exists|k: int|
                0 <= k < word_at(m, obj) && a == #[trigger] place(obj + 8, 8, k))
        }),
{
    let m = memory@;
    let obj = object.raw;
    lemma_fields_scan(m, obj, a);
    if is_memory_desc(m, type_desc(m, obj)) {
        lemma_memory_scan(m, obj, a);
    }
}

/// The size that is computed for an object just holds its tag and its body, and what it is found to
/// be goes by its flags and its first mark.
pub proof fn lemma_found_size_and_kind(
    memory: &Memory,
    object: ObjectReference,
    size: u64,
    kind: ObjectKind,
)
    requires
        call_ensures(JuliaMlirObjectModel::get_current_size, (memory, object), size),
        call_ensures(classify_object, (memory, object), kind),
    ensures
        ({
            let m = memory@;
            let obj = object.raw;
            let desc = type_desc(m, obj);
            let element = element_bytes(m, desc);
            let listed = is_memory_desc(m, desc) || is_array_desc(m, desc);
            &&& is_memory_desc(m, desc) ==> just_holds(
                size as int,
                8 + 8 + word_at(m, obj) * element,
                16,
            )
            &&& is_array_desc(m, desc) ==> just_holds(
                size as int,
                8 + 24 + word_at(m, wrap(obj + 8)) * element,
                16,
            )
            &&& is_plain_desc(m, desc) ==> just_holds(
                size as int,
                8 + word_at(m, wrap(desc + 8)),
                16,
            )
            &&& kind is ObjArray <==> listed && marks_of(m, desc) % 2 == 1
            &&& kind is ValArray <==> listed && marks_of(m, desc) % 2 == 0
        }),
{
    lemma_object_sizes(memory@, object.raw);
    lemma_object_kinds(memory@, object.raw);
}

} // verus!
