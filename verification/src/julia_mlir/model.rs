//! Type descriptors, and what they say of the size, the kind and the references of an object.

use crate::heap::ObjectReference;
use crate::julia_scanning::ObjectKind;
use crate::memory::{
    disjoint, lemma_word_after_copy, lemma_word_copy_frame, lemma_wrap_twice, offset_back,
    offset_by, offset_words, with_copy, word_at, wrap, Address, Memory,
};
use crate::object_model::{aligned, CopyRequest};
use crate::slots::SimpleSlot;
use vstd::prelude::*;

verus! {

/// Offset of the body size in a type descriptor.
pub const TYPEDESC_OFF_INSTANCE_SZ: u64 = 8;

/// Offset of the number of fields in a type descriptor.
pub const TYPEDESC_OFF_NFIELDS: u64 = 16;

/// Offset of the flags in a type descriptor.
pub const TYPEDESC_OFF_FLAGS: u64 = 32;

/// Offset of the pointer bitmap in a type descriptor: bit `i` is set if word `i` of the body is a
/// reference.
pub const TYPEDESC_OFF_PTR_BITMAP: u64 = 48;

/// Offset of the element size in the type descriptor of an array.
pub const TYPEDESC_OFF_ELEM_SIZE: u64 = 56;

/// The flag of an abstract type.
pub const TYPE_FLAG_ABSTRACT: u64 = 0x1;

/// The flag of an array, whose body is its length, its capacity, its element type and its data.
pub const TYPE_FLAG_VARSIZE: u64 = 0x8;

/// The flag of a memory, whose body is its length and its data.
pub const TYPE_FLAG_MEMORY: u64 = 0x10;

/// The size of the tag word in front of a body.
pub const TAG_SIZE: u64 = 8;

/// The size of an object whose tag is missing.
pub const UNTAGGED_SIZE: u64 = 16;

/// The runtime-free binding.
#[derive(Clone, Copy, PartialEq, Eq, Structural, Debug)]
pub struct JuliaMlirVM;

/// The layout of objects in the runtime-free binding.
#[derive(Clone, Copy, PartialEq, Eq, Structural, Debug)]
pub struct JuliaMlirObjectModel;

/// The scanner of the runtime-free binding.
#[derive(Clone, Copy, PartialEq, Eq, Structural, Debug)]
pub struct JuliaMlirScanning;

/// The type descriptor of an object; zero if it has none.
pub open spec fn type_desc(m: Map<u64, u8>, obj: u64) -> u64 {
    word_at(m, wrap(obj - TAG_SIZE))
}

/// A word of a type descriptor.
pub open spec fn desc_word(m: Map<u64, u8>, desc: u64, offset: u64) -> u64 {
    word_at(m, wrap(desc + offset))
}

/// Whether a type descriptor has a flag.
pub open spec fn has_flag(m: Map<u64, u8>, desc: u64, flag: u64) -> bool {
    desc_word(m, desc, TYPEDESC_OFF_FLAGS) & flag != 0
}

/// Whether the elements that a type descriptor describes are references.
pub open spec fn elements_are_references(m: Map<u64, u8>, desc: u64) -> bool {
    desc_word(m, desc, TYPEDESC_OFF_PTR_BITMAP) & 1 != 0
}

/// The size of an object, tag and padding included: a memory has room for its length, an array
/// for its capacity, and any other object for what its type says.
pub open spec fn mlir_size(m: Map<u64, u8>, obj: u64) -> int {
    let desc = type_desc(m, obj);
    let element = desc_word(m, desc, TYPEDESC_OFF_ELEM_SIZE);
    if desc == 0 {
        UNTAGGED_SIZE as int
    } else if has_flag(m, desc, TYPE_FLAG_MEMORY) {
        aligned(8 + 8 + word_at(m, obj) * element, 16)
    } else if has_flag(m, desc, TYPE_FLAG_VARSIZE) {
        aligned(8 + 24 + word_at(m, wrap(obj + 8)) * element, 16)
    } else {
        aligned(8 + desc_word(m, desc, TYPEDESC_OFF_INSTANCE_SZ), 16)
    }
}

/// Reads a word of a type descriptor.
fn read_desc(memory: &Memory, desc: Address, offset: u64) -> (r: u64)
    ensures
        r == desc_word(memory@, desc, offset),
{
    memory.load_u64(offset_by(desc, offset))
}

/// Reads the type descriptor of an object.
fn read_type_desc(memory: &Memory, obj: Address) -> (r: Address)
    ensures
        r == type_desc(memory@, obj),
{
    memory.load_u64(offset_back(obj, TAG_SIZE))
}

/// The size of a tag, a header of some bytes and data, padded.
fn padded_size(header: u64, count: u64, element: u64) -> (r: u128)
    requires
        header <= 32,
    ensures
        r == aligned(header + count * element, 16),
{
    assert(0 <= count * element <= 0xffff_ffff_ffff_ffff * 0xffff_ffff_ffff_ffff)
        by (nonlinear_arith)
        requires
            0 <= count <= 0xffff_ffff_ffff_ffff,
            0 <= element <= 0xffff_ffff_ffff_ffff,
    ;
    (header as u128 + count as u128 * element as u128 + 15) / 16 * 16
}

/// Computes the size of an object without a limit on sizes.
fn get_wide_size(memory: &Memory, object: ObjectReference) -> (r: u128)
    ensures
        r == mlir_size(memory@, object.raw),
{
    let obj: u64 = object.to_raw_address();
    let desc: u64 = read_type_desc(memory, obj);
    if desc == 0 {
        return UNTAGGED_SIZE as u128;
    }
    let flags: u64 = read_desc(memory, desc, TYPEDESC_OFF_FLAGS);
    if flags & TYPE_FLAG_MEMORY != 0 {
        let length: u64 = memory.load_u64(obj);
        padded_size(16, length, read_desc(memory, desc, TYPEDESC_OFF_ELEM_SIZE))
    } else if flags & TYPE_FLAG_VARSIZE != 0 {
        let capacity: u64 = memory.load_u64(offset_by(obj, 8));
        padded_size(32, capacity, read_desc(memory, desc, TYPEDESC_OFF_ELEM_SIZE))
    } else {
        padded_size(TAG_SIZE, read_desc(memory, desc, TYPEDESC_OFF_INSTANCE_SZ), 1)
    }
}

impl JuliaMlirObjectModel {
    /// Computes the size of an object.
    pub fn get_current_size(memory: &Memory, object: ObjectReference) -> (r: u64)
        requires
            mlir_size(memory@, object.raw) <= u64::MAX,
        ensures
            r == mlir_size(memory@, object.raw),
    {
        get_wide_size(memory, object) as u64
    }

    /// Computes the size of an object, unless it does not fit into a word.
    pub fn checked_size(memory: &Memory, object: ObjectReference) -> (r: Option<u64>)
        ensures
            r is Some == (mlir_size(memory@, object.raw) <= u64::MAX),
            r matches Some(size) ==> size == mlir_size(memory@, object.raw),
    {
        let size: u128 = get_wide_size(memory, object);
        if size <= 0xffff_ffff_ffff_ffff {
            Some(size as u64)
        } else {
            None
        }
    }

    /// Computes the size that a copy of an object will have.
    pub fn get_size_when_copied(memory: &Memory, object: ObjectReference) -> (r: u64)
        requires
            mlir_size(memory@, object.raw) <= u64::MAX,
        ensures
            r == mlir_size(memory@, object.raw),
    {
        JuliaMlirObjectModel::get_current_size(memory, object)
    }

    /// The alignment of a copy.
    pub fn get_align_when_copied(_object: ObjectReference) -> (r: u64)
        ensures
            r == 16,
    {
        16
    }

    /// How far into a copy the aligned address lies.
    pub fn get_align_offset_when_copied(_object: ObjectReference) -> (r: u64)
        ensures
            r == 0,
    {
        0
    }

    /// The reference to the copy of an object at an address.
    pub fn get_reference_when_copied_to(_from: ObjectReference, to: Address) -> (r: ObjectReference)
        ensures
            r.raw == wrap(to + TAG_SIZE),
    {
        ObjectReference { raw: offset_by(to, TAG_SIZE) }
    }

    /// Finds where an object starts: at its tag.
    pub fn ref_to_object_start(object: ObjectReference) -> (r: Address)
        ensures
            r == wrap(object.raw - TAG_SIZE),
    {
        offset_back(object.to_raw_address(), TAG_SIZE)
    }

    /// The address that object metadata goes by.
    pub fn ref_to_header(object: ObjectReference) -> (r: Address)
        ensures
            r == object.raw,
    {
        object.to_raw_address()
    }

    /// What an object shows of itself.
    pub fn dump_object_s(_object: ObjectReference) -> (r: String)
        ensures
            r@ == "<standalone object>"@,
    {
        String::from_str("<standalone object>")
    }

    /// Finds the type descriptor of an object.
    pub fn get_class_pointer(memory: &Memory, object: ObjectReference) -> (r: Address)
        ensures
            r == type_desc(memory@, object.raw),
    {
        read_type_desc(memory, object.to_raw_address())
    }

    /// Says what to allocate for the copy of an object.
    pub fn copy_request(memory: &Memory, from: ObjectReference) -> (r: CopyRequest)
        requires
            mlir_size(memory@, from.raw) <= u64::MAX,
        ensures
            r.bytes == mlir_size(memory@, from.raw),
            r.align == 16,
            r.offset == TAG_SIZE,
    {
        let bytes: u64 = JuliaMlirObjectModel::get_current_size(memory, from);
        CopyRequest { bytes, align: 16, offset: TAG_SIZE }
    }

    /// Copies an object into the memory that was allocated for it, and finds its new address.
    pub fn copy(memory: &mut Memory, from: ObjectReference, dst: Address) -> (r: ObjectReference)
        requires
            mlir_size(old(memory)@, from.raw) <= u64::MAX,
            disjoint(
                wrap(from.raw - TAG_SIZE),
                mlir_size(old(memory)@, from.raw),
                dst,
                mlir_size(old(memory)@, from.raw),
            ),
        ensures
            final(memory)@ == with_copy(
                old(memory)@,
                wrap(from.raw - TAG_SIZE),
                dst,
                mlir_size(old(memory)@, from.raw),
            ),
            r.raw == wrap(dst + TAG_SIZE),
    {
        let bytes: u64 = JuliaMlirObjectModel::get_current_size(memory, from);
        let from_start: u64 = JuliaMlirObjectModel::ref_to_object_start(from);
        memory.copy_bytes(from_start, dst, bytes);
        JuliaMlirObjectModel::get_reference_when_copied_to(from, dst)
    }
}

/// The kind of an object: an array or a memory is one of references or one without references,
/// by its pointer bitmap; anything else is a scalar.
pub open spec fn mlir_kind(m: Map<u64, u8>, obj: u64) -> ObjectKind {
    let desc = type_desc(m, obj);
    if desc != 0 && (has_flag(m, desc, TYPE_FLAG_MEMORY) || has_flag(m, desc, TYPE_FLAG_VARSIZE)) {
        if elements_are_references(m, desc) {
            ObjectKind::ObjArray(
                (desc_word(m, desc, TYPEDESC_OFF_ELEM_SIZE) % 0x1_0000_0000) as u32,
            )
        } else {
            ObjectKind::ValArray
        }
    } else {
        ObjectKind::Scalar
    }
}

/// Classifies an object by its type descriptor.
pub fn classify_object(memory: &Memory, o: ObjectReference) -> (r: ObjectKind)
    ensures
        r == mlir_kind(memory@, o.raw),
{
    let desc: u64 = read_type_desc(memory, o.to_raw_address());
    if desc == 0 {
        return ObjectKind::Scalar;
    }
    let flags: u64 = read_desc(memory, desc, TYPEDESC_OFF_FLAGS);
    if flags & TYPE_FLAG_MEMORY != 0 || flags & TYPE_FLAG_VARSIZE != 0 {
        if read_desc(memory, desc, TYPEDESC_OFF_PTR_BITMAP) & 1 != 0 {
            let elem_size: u64 = read_desc(memory, desc, TYPEDESC_OFF_ELEM_SIZE);
            ObjectKind::ObjArray((elem_size % 0x1_0000_0000) as u32)
        } else {
            ObjectKind::ValArray
        }
    } else {
        ObjectKind::Scalar
    }
}

/// The `n` slots from an address on.
pub open spec fn slot_run(start: u64, n: nat) -> Seq<SimpleSlot> {
    Seq::new(n, |i: int| SimpleSlot { address: wrap(start + 8 * i) })
}

/// Whether word `i` of a body is a reference, by a pointer bitmap.
pub open spec fn is_marked(bitmap: u64, i: int) -> bool {
    (bitmap >> (i as u64)) & 1 == 1
}

/// The slots among the first `n` words of a body that a pointer bitmap marks, in order.
pub open spec fn marked_slots(obj: u64, bitmap: u64, n: nat) -> Seq<SimpleSlot>
    decreases n,
{
    if n == 0 {
        Seq::empty()
    } else if is_marked(bitmap, n - 1) {
        marked_slots(obj, bitmap, (n - 1) as nat).push(
            SimpleSlot { address: wrap(obj + 8 * (n - 1)) },
        )
    } else {
        marked_slots(obj, bitmap, (n - 1) as nat)
    }
}

/// The slots of an object that hold references: the elements of a memory of references; the
/// element type of an array, and its elements if they are references; and otherwise the words
/// that the pointer bitmap marks, no more than the first 64.
pub open spec fn mlir_slots(m: Map<u64, u8>, obj: u64) -> Seq<SimpleSlot> {
    let desc = type_desc(m, obj);
    let length = word_at(m, obj) as nat;
    let nfields = desc_word(m, desc, TYPEDESC_OFF_NFIELDS);
    if desc == 0 || has_flag(m, desc, TYPE_FLAG_ABSTRACT) {
        Seq::empty()
    } else if has_flag(m, desc, TYPE_FLAG_MEMORY) {
        if elements_are_references(m, desc) {
            slot_run(wrap(obj + 8), length)
        } else {
            Seq::empty()
        }
    } else if has_flag(m, desc, TYPE_FLAG_VARSIZE) {
        seq![SimpleSlot { address: wrap(obj + 16) }] + (if elements_are_references(m, desc) {
            slot_run(wrap(obj + 24), length)
        } else {
            Seq::empty()
        })
    } else {
        marked_slots(
            obj,
            desc_word(m, desc, TYPEDESC_OFF_PTR_BITMAP),
            if nfields < 64 {
                nfields as nat
            } else {
                64
            },
        )
    }
}

/// Appends a run of slots.
fn push_run(slots: &mut Vec<SimpleSlot>, start: Address, n: u64)
    ensures
        final(slots)@ == old(slots)@ + slot_run(start, n as nat),
{
    let mut i: u64 = 0;
    assert(slots@ =~= old(slots)@ + slot_run(start, 0));
    while i < n
        invariant
            i <= n,
            slots@ =~= old(slots)@ + slot_run(start, i as nat),
        decreases n - i,
    {
        slots.push(SimpleSlot::from_address(offset_words(start, i)));
        i = i + 1;
    }
}

impl JuliaMlirScanning {
    /// Lists the slots of an object that hold references.
    pub fn scan_object(memory: &Memory, object: ObjectReference) -> (r: Vec<SimpleSlot>)
        ensures
            r@ == mlir_slots(memory@, object.raw),
    {
        let obj: u64 = object.to_raw_address();
        let mut slots: Vec<SimpleSlot> = Vec::new();
        let desc: u64 = read_type_desc(memory, obj);
        if desc == 0 {
            return slots;
        }
        let flags: u64 = read_desc(memory, desc, TYPEDESC_OFF_FLAGS);
        if flags & TYPE_FLAG_ABSTRACT != 0 {
            return slots;
        }
        let bitmap: u64 = read_desc(memory, desc, TYPEDESC_OFF_PTR_BITMAP);
        if flags & TYPE_FLAG_MEMORY != 0 {
            if bitmap & 1 != 0 {
                push_run(&mut slots, offset_by(obj, 8), memory.load_u64(obj));
            }
            assert(slots@ =~= mlir_slots(memory@, obj));
            return slots;
        }
        if flags & TYPE_FLAG_VARSIZE != 0 {
            slots.push(SimpleSlot::from_address(offset_by(obj, 16)));
            if bitmap & 1 != 0 {
                push_run(&mut slots, offset_by(obj, 24), memory.load_u64(obj));
            }
            assert(slots@ =~= mlir_slots(memory@, obj));
            return slots;
        }
        let nfields: u64 = read_desc(memory, desc, TYPEDESC_OFF_NFIELDS);
        let max_field: u64 = if nfields < 64 {
            nfields
        } else {
            64
        };
        let mut i: u64 = 0;
        while i < max_field
            invariant
                i <= max_field <= 64,
                slots@ == marked_slots(obj, bitmap, i as nat),
            decreases max_field - i,
        {
            if (bitmap >> i) & 1 == 1 {
                slots.push(SimpleSlot::from_address(offset_words(obj, i)));
            }
            i = i + 1;
        }
        slots
    }

    /// Lists the slots of an object whose type descriptor is known already.
    pub fn scan_object_with_klass(memory: &Memory, object: ObjectReference, _klass: Address) -> (r:
        Vec<SimpleSlot>)
        ensures
            r@ == mlir_slots(memory@, object.raw),
    {
        JuliaMlirScanning::scan_object(memory, object)
    }

    /// Tests whether an object is an array of references.
    pub fn is_obj_array(memory: &Memory, o: ObjectReference) -> (r: bool)
        ensures
            r == (mlir_kind(memory@, o.raw) is ObjArray),
    {
        matches!(classify_object(memory, o), ObjectKind::ObjArray(_))
    }

    /// Tests whether an object is an array without references.
    pub fn is_val_array(memory: &Memory, o: ObjectReference) -> (r: bool)
        ensures
            r == (mlir_kind(memory@, o.raw) is ValArray),
    {
        matches!(classify_object(memory, o), ObjectKind::ValArray)
    }

    /// Classifies an object.
    pub fn get_obj_kind(memory: &Memory, o: ObjectReference) -> (r: ObjectKind)
        ensures
            r == mlir_kind(memory@, o.raw),
    {
        classify_object(memory, o)
    }
}

/// Whether a type descriptor fits the object that it describes: the marked words are part of the
/// body, references take up a word each, and an array is not longer than its capacity.
pub open spec fn describes(m: Map<u64, u8>, desc: u64, obj: u64) -> bool {
    if has_flag(m, desc, TYPE_FLAG_MEMORY) {
        desc_word(m, desc, TYPEDESC_OFF_ELEM_SIZE) == 8
    } else if has_flag(m, desc, TYPE_FLAG_VARSIZE) {
        &&& desc_word(m, desc, TYPEDESC_OFF_ELEM_SIZE) == 8
        &&& word_at(m, obj) <= word_at(m, wrap(obj + 8))
    } else {
        8 * desc_word(m, desc, TYPEDESC_OFF_NFIELDS) <= desc_word(
            m,
            desc,
            TYPEDESC_OFF_INSTANCE_SZ,
        )
    }
}

/// Only marked words are reported: each slot is that of a word that the pointer bitmap marks.
pub proof fn lemma_marked_slots(obj: u64, bitmap: u64, n: nat, i: int)
    requires
        n <= 64,
        0 <= i < marked_slots(obj, bitmap, n).len(),
    ensures
        exists|k: int|
            0 <= k < n && is_marked(bitmap, k) && marked_slots(obj, bitmap, n)[i].address
                == #[trigger] wrap(obj + 8 * k),
    decreases n,
{
    if is_marked(bitmap, n - 1) && i == marked_slots(obj, bitmap, n).len() - 1 {
        assert(marked_slots(obj, bitmap, n)[i].address == wrap(obj + 8 * (n - 1)));
    } else {
        lemma_marked_slots(obj, bitmap, (n - 1) as nat, i);
    }
}

/// Every marked word is reported.
pub proof fn lemma_marked_words_reported(obj: u64, bitmap: u64, n: nat, k: int)
    requires
        0 <= k < n,
        is_marked(bitmap, k),
    ensures
        marked_slots(obj, bitmap, n).contains(SimpleSlot { address: wrap(obj + 8 * k) }),
    decreases n,
{
    let slots = marked_slots(obj, bitmap, n);
    let before = marked_slots(obj, bitmap, (n - 1) as nat);
    let slot = SimpleSlot { address: wrap(obj + 8 * k) };
    if k == n - 1 {
        assert(slots[before.len() as int] == slot);
    } else {
        lemma_marked_words_reported(obj, bitmap, (n - 1) as nat, k);
        let i = choose|i: int| 0 <= i < before.len() && before[i] == slot;
        assert(slots[i] == slot);
    }
}

/// A scan stays inside the object: every slot that is reported is a whole word of the body.
pub proof fn lemma_slots_lie_inside(m: Map<u64, u8>, obj: u64, i: int)
    requires
        describes(m, type_desc(m, obj), obj),
        0 <= i < mlir_slots(m, obj).len(),
    ensures
        exists|k: int|
            0 <= k && 8 * k + 16 <= mlir_size(m, obj) && mlir_slots(m, obj)[i].address
                == #[trigger] wrap(obj + 8 * k),
{
    let desc = type_desc(m, obj);
    if has_flag(m, desc, TYPE_FLAG_MEMORY) {
        lemma_wrap_twice(obj + 8, 8 * i);
        assert(mlir_slots(m, obj)[i].address == wrap(obj + 8 * (i + 1)));
    } else if has_flag(m, desc, TYPE_FLAG_VARSIZE) {
        if i == 0 {
            assert(mlir_slots(m, obj)[i].address == wrap(obj + 8 * 2));
        } else {
            lemma_wrap_twice(obj + 24, 8 * (i - 1));
            assert(mlir_slots(m, obj)[i].address == wrap(obj + 8 * (i + 2)));
        }
    } else {
        let bitmap = desc_word(m, desc, TYPEDESC_OFF_PTR_BITMAP);
        let nfields = desc_word(m, desc, TYPEDESC_OFF_NFIELDS);
        let n: nat = if nfields < 64 {
            nfields as nat
        } else {
            64
        };
        lemma_marked_slots(obj, bitmap, n, i);
    }
}

/// An object without references in its elements reports none of them: a memory reports nothing,
/// and an array only its element type.
pub proof fn lemma_val_array_slots(m: Map<u64, u8>, obj: u64)
    requires
        mlir_kind(m, obj) is ValArray,
    ensures
        mlir_slots(m, obj).len() <= 1,
        mlir_slots(m, obj).len() == 1 ==> mlir_slots(m, obj)[0].address == wrap(obj + 16),
{
}

/// A copy of an object has the type, the size and the kind of the object, provided that the copy
/// does not overwrite its type descriptor.
pub proof fn lemma_copy_keeps_object(m: Map<u64, u8>, from: u64, dst: u64)
    requires
        mlir_size(m, from) <= u64::MAX,
        disjoint(wrap(from - TAG_SIZE), mlir_size(m, from), dst, mlir_size(m, from)),
        disjoint(dst, mlir_size(m, from), type_desc(m, from), 80),
    ensures
        ({
            let after = with_copy(m, wrap(from - TAG_SIZE), dst, mlir_size(m, from));
            let to = wrap(dst + TAG_SIZE);
            &&& type_desc(after, to) == type_desc(m, from)
            &&& mlir_size(after, to) == mlir_size(m, from)
            &&& mlir_kind(after, to) == mlir_kind(m, from)
        }),
{
    let n = mlir_size(m, from);
    let start = wrap(from - TAG_SIZE);
    let desc = type_desc(m, from);
    lemma_size_has_room(m, from);
    lemma_copied_word(m, from, dst, n, 0);
    lemma_copied_word(m, from, dst, n, 8);
    if n >= 32 {
        lemma_copied_word(m, from, dst, n, 16);
    }
    lemma_desc_word_kept(m, start, dst, n, desc, TYPEDESC_OFF_INSTANCE_SZ);
    lemma_desc_word_kept(m, start, dst, n, desc, TYPEDESC_OFF_FLAGS);
    lemma_desc_word_kept(m, start, dst, n, desc, TYPEDESC_OFF_PTR_BITMAP);
    lemma_desc_word_kept(m, start, dst, n, desc, TYPEDESC_OFF_ELEM_SIZE);
    lemma_same_object(m, from, with_copy(m, start, dst, n), wrap(dst + TAG_SIZE));
}

/// A word of a copy, by its distance from the reference.
proof fn lemma_copied_word(m: Map<u64, u8>, from: u64, dst: u64, n: int, k: int)
    requires
        0 <= k,
        k + 8 <= n <= u64::MAX,
    ensures
        word_at(
            with_copy(m, wrap(from - TAG_SIZE), dst, n),
            wrap(wrap(dst + TAG_SIZE) + (k - 8)),
        ) == word_at(m, wrap(from + (k - 8))),
{
    lemma_word_after_copy(m, wrap(from - TAG_SIZE), dst, n, k);
    lemma_wrap_twice(dst + TAG_SIZE, k - 8);
    lemma_wrap_twice(from - TAG_SIZE, k);
}

/// Two objects with the same tag, type descriptor and header words have the same size and kind.
proof fn lemma_same_object(m1: Map<u64, u8>, o1: u64, m2: Map<u64, u8>, o2: u64)
    requires
        type_desc(m2, o2) == type_desc(m1, o1),
        word_at(m2, wrap(o2 + 0)) == word_at(m1, wrap(o1 + 0)),
        mlir_size(m1, o1) >= 32 ==> word_at(m2, wrap(o2 + 8)) == word_at(m1, wrap(o1 + 8)),
        ({
            let desc = type_desc(m1, o1);
            &&& desc_word(m2, desc, TYPEDESC_OFF_INSTANCE_SZ) == desc_word(
                m1,
                desc,
                TYPEDESC_OFF_INSTANCE_SZ,
            )
            &&& desc_word(m2, desc, TYPEDESC_OFF_FLAGS) == desc_word(m1, desc, TYPEDESC_OFF_FLAGS)
            &&& desc_word(m2, desc, TYPEDESC_OFF_PTR_BITMAP) == desc_word(
                m1,
                desc,
                TYPEDESC_OFF_PTR_BITMAP,
            )
            &&& desc_word(m2, desc, TYPEDESC_OFF_ELEM_SIZE) == desc_word(
                m1,
                desc,
                TYPEDESC_OFF_ELEM_SIZE,
            )
        }),
    ensures
        mlir_size(m2, o2) == mlir_size(m1, o1),
        mlir_kind(m2, o2) == mlir_kind(m1, o1),
{
    lemma_size_has_room(m1, o1);
    assert(wrap(o1 + 0) == o1);
    assert(wrap(o2 + 0) == o2);
}

proof fn lemma_size_has_room(m: Map<u64, u8>, obj: u64)
    ensures
        mlir_size(m, obj) >= 16,
        has_flag(m, type_desc(m, obj), TYPE_FLAG_VARSIZE) && type_desc(m, obj) != 0 && !has_flag(
            m,
            type_desc(m, obj),
            TYPE_FLAG_MEMORY,
        ) ==> mlir_size(m, obj) >= 32,
{
    let element = desc_word(m, type_desc(m, obj), TYPEDESC_OFF_ELEM_SIZE);
    let length = word_at(m, obj);
    let capacity = word_at(m, wrap(obj + 8));
    assert(0 <= length * element) by (nonlinear_arith)
        requires
            0 <= length,
            0 <= element,
    ;
    assert(0 <= capacity * element) by (nonlinear_arith)
        requires
            0 <= capacity,
            0 <= element,
    ;
}

proof fn lemma_desc_word_kept(
    m: Map<u64, u8>,
    src: u64,
    dst: u64,
    n: int,
    desc: u64,
    offset: u64,
)
    requires
        0 <= n,
        offset <= 72,
        disjoint(dst, n, desc, 80),
    ensures
        desc_word(with_copy(m, src, dst, n), desc, offset) == desc_word(m, desc, offset),
{
    let a = wrap(desc + offset);
    let ahead = wrap(desc - dst);
    let back = wrap(dst - desc);
    assert(ahead + back == 0x1_0000_0000_0000_0000);
    lemma_wrap_twice(desc + offset, -dst);
    lemma_wrap_twice(desc - dst, offset as int);
    assert(wrap(a - dst) == ahead + offset);
    lemma_wrap_twice(desc + offset, dst as int);
    lemma_wrap_twice(dst - desc, -offset);
    assert(wrap(dst - a) == back - offset);
    lemma_word_copy_frame(m, src, dst, n, a);
}

} // verus!
