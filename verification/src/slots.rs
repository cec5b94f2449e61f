//! The places that hold references: plain words, interior pointers, type tags, and captured
//! values that have no place of their own.

use crate::heap::{Heap, HeapView, ObjectReference};
use crate::julia_scanning::{
    array_ptr_update, moved_data_pointer, update_array_ptr_or_offset_if_needed,
};
use crate::memory::{
    disjoint, lemma_join_bytes, lemma_store_loaded_word, lemma_word_after_copy,
    lemma_word_after_store, lemma_word_outside, lemma_word_store_frame, lemma_wrap_twice,
    offset_back, offset_by, offset_words, with_bytes_of, with_copy, wrap, Address,
};
use crate::text::{append_decimal, append_hex, decimal, hex};
use vstd::prelude::*;

verus! {

/// A word that holds the address of an object.
#[derive(Clone, Copy, PartialEq, Eq, Structural, Debug, Hash)]
pub struct SimpleSlot {
    pub address: Address,
}

impl SimpleSlot {
    pub fn from_address(address: Address) -> (r: SimpleSlot)
        ensures
            r.address == address,
    {
        SimpleSlot { address }
    }

    pub fn as_address(&self) -> (r: Address)
        ensures
            r == self.address,
    {
        self.address
    }

    /// The reference in the slot.
    pub open spec fn value(self, h: HeapView) -> Option<ObjectReference> {
        ObjectReference::of_address(h.word(self.address))
    }

    /// Reads the reference in the slot.
    pub fn load(&self, heap: &Heap) -> (r: Option<ObjectReference>)
        ensures
            r == self.value(heap@),
    {
        ObjectReference::from_raw_address(heap.load_u64(self.address))
    }

    /// Writes a reference into the slot.
    pub fn store(&self, heap: &mut Heap, object: ObjectReference)
        ensures
            final(heap)@ == old(heap)@.with_word(self.address, object.raw),
    {
        heap.store_u64(self.address, object.raw);
    }
}

/// The header word of an object, which names its type above four status bits.
#[derive(Clone, Copy, PartialEq, Eq, Structural, Debug, Hash)]
pub struct TypeTagSlot {
    pub address: Address,
}

impl TypeTagSlot {
    /// The type that the header names; an empty header names none.
    pub open spec fn value(self, h: HeapView) -> Option<ObjectReference> {
        if h.word(self.address) == 0 {
            None
        } else {
            ObjectReference::of_address(h.word(self.address) & !0xf)
        }
    }

    /// Reads the type that the header names, without the status bits.
    pub fn load(&self, heap: &Heap) -> (r: Option<ObjectReference>)
        ensures
            r == self.value(heap@),
    {
        let value: u64 = heap.load_u64(self.address);
        if value == 0 {
            None
        } else {
            ObjectReference::from_raw_address(value & !0xf)
        }
    }

    /// The header word that names the type and keeps the status bits.
    pub open spec fn retagged(self, h: HeapView, object: ObjectReference) -> u64 {
        object.raw | (h.word(self.address) & 0xf)
    }

    /// Makes the header name another type; the status bits stay.
    pub fn store(&self, heap: &mut Heap, object: ObjectReference)
        ensures
            final(heap)@ == old(heap)@.with_word(
                self.address,
                self.retagged(old(heap)@, object),
            ),
    {
        let gc_bits: u64 = heap.load_u64(self.address) & 0xf;
        heap.store_u64(self.address, object.raw | gc_bits);
    }
}

/// A word that points a fixed distance into an object.
#[derive(Clone, Copy, PartialEq, Eq, Structural, Debug, Hash)]
pub struct OffsetSlot {
    pub slot_addr: Address,
    pub offset: u64,
}

impl OffsetSlot {
    pub fn new_no_offset(address: Address) -> (r: OffsetSlot)
        ensures
            r == (OffsetSlot { slot_addr: address, offset: 0 }),
    {
        OffsetSlot { slot_addr: address, offset: 0 }
    }

    pub fn new_with_offset(address: Address, offset: u64) -> (r: OffsetSlot)
        ensures
            r == (OffsetSlot { slot_addr: address, offset }),
    {
        OffsetSlot { slot_addr: address, offset }
    }

    pub fn slot_address(&self) -> (r: Address)
        ensures
            r == self.slot_addr,
    {
        self.slot_addr
    }

    pub fn offset(&self) -> (r: u64)
        ensures
            r == self.offset,
    {
        self.offset
    }

    /// The object that the word points into.
    pub open spec fn value(self, h: HeapView) -> Option<ObjectReference> {
        ObjectReference::of_address(wrap(h.word(self.slot_addr) - self.offset))
    }

    /// Reads the object that the word points into.
    pub fn load(&self, heap: &Heap) -> (r: Option<ObjectReference>)
        ensures
            r == self.value(heap@),
    {
        let middle: u64 = heap.load_u64(self.slot_addr);
        ObjectReference::from_raw_address(offset_back(middle, self.offset))
    }

    /// Makes the word point at the same distance into another object.
    pub fn store(&self, heap: &mut Heap, object: ObjectReference)
        ensures
            final(heap)@ == old(heap)@.with_word(
                self.slot_addr,
                wrap(object.raw + self.offset),
            ),
    {
        heap.store_u64(self.slot_addr, offset_by(object.raw, self.offset));
    }
}

/// A slot of any kind.
#[derive(Clone, Copy, PartialEq, Eq, Structural, Debug, Hash)]
pub enum JuliaVMSlot {
    Simple(SimpleSlot),
    Offset(OffsetSlot),
    /// A reference captured when a barrier ran, with no word behind it: reading it takes
    /// nothing from the heap, and writing it changes nothing.
    Direct(ObjectReference),
    TypeTag(TypeTagSlot),
}

impl JuliaVMSlot {
    /// The reference in the slot.
    pub open spec fn value(self, h: HeapView) -> Option<ObjectReference> {
        match self {
            JuliaVMSlot::Simple(e) => e.value(h),
            JuliaVMSlot::Offset(e) => e.value(h),
            JuliaVMSlot::Direct(o) => Some(o),
            JuliaVMSlot::TypeTag(e) => e.value(h),
        }
    }

    /// Reads the reference in the slot.
    pub fn load(&self, heap: &Heap) -> (r: Option<ObjectReference>)
        ensures
            r == self.value(heap@),
    {
        match self {
            JuliaVMSlot::Simple(e) => e.load(heap),
            JuliaVMSlot::Offset(e) => e.load(heap),
            JuliaVMSlot::Direct(o) => Some(*o),
            JuliaVMSlot::TypeTag(e) => e.load(heap),
        }
    }

    /// The address of the slot; a captured reference has none and gives zero, which lies outside
    /// the heap.
    pub open spec fn address(self) -> Address {
        match self {
            JuliaVMSlot::Simple(e) => e.address,
            JuliaVMSlot::Offset(e) => e.slot_addr,
            JuliaVMSlot::Direct(_) => 0,
            JuliaVMSlot::TypeTag(e) => e.address,
        }
    }

    pub fn to_address(&self) -> (r: Address)
        ensures
            r == self.address(),
    {
        match self {
            JuliaVMSlot::Simple(e) => e.as_address(),
            JuliaVMSlot::Offset(e) => e.slot_address(),
            JuliaVMSlot::Direct(_) => 0,
            JuliaVMSlot::TypeTag(e) => e.address,
        }
    }

    pub fn raw_address(&self) -> (r: Address)
        ensures
            r == self.address(),
    {
        self.to_address()
    }

    pub fn from_address(addr: Address) -> (r: JuliaVMSlot)
        ensures
            r == simple(addr),
    {
        JuliaVMSlot::Simple(SimpleSlot::from_address(addr))
    }

    pub fn is_type_tag(&self) -> (r: bool)
        ensures
            r == (self is TypeTag),
    {
        matches!(self, JuliaVMSlot::TypeTag(_))
    }

    /// The heap after a reference was written into the slot. The data pointer next to a plain
    /// slot moves along if the slot is the backing memory of an array.
    pub open spec fn stored(self, h: HeapView, object: ObjectReference) -> HeapView {
        match self {
            JuliaVMSlot::Simple(e) => array_ptr_update(h, e.address, object.raw).with_word(
                e.address,
                object.raw,
            ),
            JuliaVMSlot::Offset(e) => h.with_word(e.slot_addr, wrap(object.raw + e.offset)),
            JuliaVMSlot::Direct(_) => h,
            JuliaVMSlot::TypeTag(e) => h.with_word(e.address, e.retagged(h, object)),
        }
    }

    /// Writes a reference into the slot.
    pub fn store(&self, heap: &mut Heap, object: ObjectReference)
        requires
            old(heap)@.wf(),
        ensures
            final(heap)@ == self.stored(old(heap)@, object),
    {
        match self {
            JuliaVMSlot::Simple(e) => {
                update_array_ptr_or_offset_if_needed(heap, e.as_address(), object);
                e.store(heap, object);
            },
            JuliaVMSlot::Offset(e) => e.store(heap, object),
            JuliaVMSlot::Direct(_) => {},
            JuliaVMSlot::TypeTag(e) => e.store(heap, object),
        }
    }

    /// The slot as text.
    pub open spec fn shown(self) -> Seq<char> {
        match self {
            JuliaVMSlot::Simple(e) => hex(e.address as int),
            JuliaVMSlot::Offset(e) => hex(e.slot_addr as int) + "+"@ + decimal(e.offset as int),
            JuliaVMSlot::Direct(o) => "Direct("@ + hex(o.raw as int) + ")"@,
            JuliaVMSlot::TypeTag(e) => "TypeTag("@ + hex(e.address as int) + ")"@,
        }
    }

    /// Shows the slot as text.
    pub fn to_text(&self) -> (r: String)
        ensures
            r@ == self.shown(),
    {
        let mut text: String = String::new();
        match self {
            JuliaVMSlot::Simple(e) => append_hex(&mut text, e.address),
            JuliaVMSlot::Offset(e) => {
                append_hex(&mut text, e.slot_addr);
                text.append("+");
                append_decimal(&mut text, e.offset);
            },
            JuliaVMSlot::Direct(o) => {
                text.append("Direct(");
                append_hex(&mut text, o.raw);
                text.append(")");
            },
            JuliaVMSlot::TypeTag(e) => {
                text.append("TypeTag(");
                append_hex(&mut text, e.address);
                text.append(")");
            },
        }
        assert(text@ =~= self.shown());
        text
    }
}

/// A plain slot at an address.
pub open spec fn simple(address: Address) -> JuliaVMSlot {
    JuliaVMSlot::Simple(SimpleSlot { address })
}

/// A run of plain slots that one object owns.
#[derive(Clone, Copy, PartialEq, Eq, Structural, Debug, Hash)]
pub struct JuliaMemorySlice {
    pub owner: ObjectReference,
    pub start: Address,
    pub count: u64,
}

/// The slots of a run that are still to come.
pub struct JuliaMemorySliceSlotIterator {
    pub cursor: Address,
    pub limit: Address,
}

impl JuliaMemorySliceSlotIterator {
    /// The slots that are still to come, in order.
    pub open spec fn remaining(self) -> Seq<JuliaVMSlot> {
        if self.cursor >= self.limit {
            Seq::empty()
        } else {
            Seq::new(
                ((self.limit - self.cursor + 7) / 8) as nat,
                |i: int| simple((self.cursor + 8 * i) as u64),
            )
        }
    }

    /// Hands out the next slot. Short of the last word of the address space, that is the first
    /// of the slots that remained.
    pub fn next(&mut self) -> (r: Option<JuliaVMSlot>)
        ensures
            r is None <==> old(self).cursor >= old(self).limit,
            r matches Some(slot) ==> slot == simple(old(self).cursor),
            final(self).limit == old(self).limit,
            final(self).cursor == (if r is None {
                old(self).cursor
            } else {
                wrap(old(self).cursor + 8)
            }),
            r is Some && old(self).cursor + 8 <= u64::MAX ==> old(self).remaining() == seq![
                r->Some_0,
            ] + final(self).remaining(),
    {
        if self.cursor >= self.limit {
            None
        } else {
            let slot: u64 = self.cursor;
            self.cursor = offset_by(self.cursor, 8);
            proof {
                if slot + 8 <= u64::MAX {
                    assert(old(self).remaining() =~= seq![simple(slot)] + self.remaining());
                }
            }
            Some(JuliaVMSlot::Simple(SimpleSlot::from_address(slot)))
        }
    }
}

impl JuliaMemorySlice {
    /// The slots of the run, in order.
    pub open spec fn slots(self) -> Seq<JuliaVMSlot> {
        Seq::new(self.count as nat, |i: int| simple(wrap(self.start + 8 * i)))
    }

    /// Whether the run ends inside the address space.
    pub open spec fn fits(self) -> bool {
        self.start + 8 * self.count <= u64::MAX
    }

    /// Starts a walk over the slots.
    pub fn iter_slots(&self) -> (r: JuliaMemorySliceSlotIterator)
        ensures
            r.cursor == self.start,
            r.limit == wrap(self.start + 8 * self.count),
            self.fits() ==> r.remaining() == self.slots(),
    {
        let r = JuliaMemorySliceSlotIterator {
            cursor: self.start,
            limit: offset_words(self.start, self.count),
        };
        proof {
            if self.fits() {
                assert(r.remaining() =~= self.slots());
            }
        }
        r
    }

    /// The object that owns the run.
    pub fn object(&self) -> (r: Option<ObjectReference>)
        ensures
            r == Some(self.owner),
    {
        Some(self.owner)
    }

    pub fn start(&self) -> (r: Address)
        ensures
            r == self.start,
    {
        self.start
    }

    /// The bytes of the run; bits that do not fit into a word are dropped.
    pub fn bytes(&self) -> (r: u64)
        ensures
            r == wrap(8 * self.count),
    {
        let count: u64 = self.count;
        proof {
            assert(count << 3 == (count * 8) % 0x1_0000_0000_0000_0000) by (bit_vector);
        }
        count << 3
    }

    pub fn len(&self) -> (r: u64)
        ensures
            r == self.count,
    {
        self.count
    }

    /// The slot at an index.
    pub fn get(&self, index: u64) -> (r: JuliaVMSlot)
        ensures
            r == simple(wrap(self.start + 8 * index)),
            index < self.count ==> r == self.slots()[index as int],
    {
        JuliaVMSlot::Simple(SimpleSlot::from_address(offset_words(self.start, index)))
    }

    /// The first `n` slots of the run.
    pub open spec fn head(self, n: u64) -> JuliaMemorySlice {
        JuliaMemorySlice { count: n, ..self }
    }

    /// The run without its first `n` slots.
    pub open spec fn tail(self, n: u64) -> JuliaMemorySlice {
        JuliaMemorySlice {
            start: wrap(self.start + 8 * n),
            count: (self.count - n) as u64,
            ..self
        }
    }

    /// The run in pieces of `chunk_size` slots; the last piece may be shorter.
    pub open spec fn pieces(self, chunk_size: u64) -> Seq<JuliaMemorySlice>
        decreases self.count,
    {
        if chunk_size == 0 || self.count == 0 {
            Seq::empty()
        } else if self.count <= chunk_size {
            seq![self]
        } else {
            seq![self.head(chunk_size)] + self.tail(chunk_size).pieces(chunk_size)
        }
    }

    /// Parts the run into pieces of `chunk_size` slots.
    pub fn chunks(&self, chunk_size: u64) -> (r: Vec<JuliaMemorySlice>)
        requires
            chunk_size > 0,
        ensures
            r@ == self.pieces(chunk_size),
    {
        let total_slots: u64 = self.count;
        let mut chunks: Vec<JuliaMemorySlice> = Vec::new();
        let mut offset: u64 = 0;
        assert(self.tail(0) == self);
        assert(self.pieces(chunk_size) =~= chunks@ + self.pieces(chunk_size));
        while offset < total_slots
            invariant
                chunk_size > 0,
                total_slots == self.count,
                offset <= total_slots,
                self.pieces(chunk_size) == chunks@ + self.tail(offset).pieces(chunk_size),
            decreases total_slots - offset,
        {
            let left: u64 = total_slots - offset;
            let chunk_count: u64 = if chunk_size < left {
                chunk_size
            } else {
                left
            };
            let piece = JuliaMemorySlice {
                owner: self.owner,
                start: offset_words(self.start, offset),
                count: chunk_count,
            };
            let ghost before = chunks@;
            chunks.push(piece);
            proof {
                let rest = self.tail(offset);
                assert(rest.count == left);
                if left > chunk_size {
                    lemma_wrap_twice(self.start + 8 * offset, 8 * chunk_size);
                    assert(rest.tail(chunk_size) == self.tail((offset + chunk_size) as u64));
                    assert(before + (seq![piece] + rest.tail(chunk_size).pieces(chunk_size))
                        =~= chunks@ + rest.tail(chunk_size).pieces(chunk_size));
                } else {
                    assert(rest.pieces(chunk_size) == seq![piece]);
                    assert(before + seq![piece] =~= chunks@ + Seq::<JuliaMemorySlice>::empty());
                }
            }
            offset = offset + chunk_count;
        }
        assert(chunks@ + Seq::<JuliaMemorySlice>::empty() =~= chunks@);
        chunks
    }

    /// Copies the words of one run to another. The runs may overlap: every word of the target
    /// becomes what the source held before.
    pub fn copy(heap: &mut Heap, src: &JuliaMemorySlice, tgt: &JuliaMemorySlice)
        requires
            src.start + 8 * tgt.count <= u64::MAX,
            tgt.fits(),
        ensures
            final(heap)@ == old(heap)@.with_memory(
                with_copy(old(heap)@.memory, src.start, tgt.start, 8 * tgt.count),
            ),
    {
        let n: u64 = tgt.count;
        let from: u64 = src.start;
        let to: u64 = tgt.start;
        let ghost m = heap@.memory;
        assert(with_copy(m, from, to, 8 * n) =~= with_bytes_of(m, m, from, to, 8 * n));
        if to < from || to > from + tgt.bytes() {
            // Upwards, so that no word is overwritten before it was read.
            let mut i: u64 = 0;
            assert(with_bytes_of(m, m, from, to, 0) =~= m);
            while i < n
                invariant
                    i <= n,
                    from + 8 * n <= u64::MAX,
                    to + 8 * n <= u64::MAX,
                    to < from || to > from + 8 * n,
                    heap@ == old(heap)@.with_memory(with_bytes_of(m, m, from, to, 8 * i)),
                decreases n - i,
            {
                let at: u64 = from + 8 * i;
                let val: u64 = heap.load_u64(at);
                proof {
                    lemma_word_outside(m, m, from, to, 8 * i, at);
                    lemma_store_loaded_word(heap@.memory, m, at, (to + 8 * i) as u64);
                    lemma_join_bytes(m, m, from, to, 8 * i, 8);
                }
                heap.store_u64(to + 8 * i, val);
                i = i + 1;
            }
        } else {
            // Downwards, for the same reason.
            let mut i: u64 = n;
            assert(with_bytes_of(m, m, (from + 8 * n) as u64, (to + 8 * n) as u64, 0) =~= m);
            while i > 0
                invariant
                    i <= n,
                    from + 8 * n <= u64::MAX,
                    to + 8 * n <= u64::MAX,
                    from <= to,
                    heap@ == old(heap)@.with_memory(
                        with_bytes_of(
                            m,
                            m,
                            (from + 8 * i) as u64,
                            (to + 8 * i) as u64,
                            8 * (n - i),
                        ),
                    ),
                decreases i,
            {
                let ghost above = i;
                i = i - 1;
                let at: u64 = from + 8 * i;
                let place: u64 = to + 8 * i;
                let val: u64 = heap.load_u64(at);
                proof {
                    let src2 = (from + 8 * above) as u64;
                    let dst2 = (to + 8 * above) as u64;
                    lemma_word_outside(m, m, src2, dst2, 8 * (n - above), at);
                    lemma_store_loaded_word(heap@.memory, m, at, place);
                    if above < n {
                        lemma_join_bytes(m, m, at, place, 8, 8 * (n - above));
                    } else {
                        assert(with_bytes_of(m, m, src2, dst2, 0) =~= m);
                    }
                }
                heap.store_u64(place, val);
            }
        }
    }
}

/// A slot gives back the reference that was written into it. A header can only name a type whose
/// address leaves the status bits free, and a captured reference is never overwritten.
pub proof fn lemma_slot_holds_what_was_stored(
    slot: JuliaVMSlot,
    h: HeapView,
    object: ObjectReference,
)
    requires
        object.wf(),
        !(slot is Direct),
        slot is TypeTag ==> object.raw % 16 == 0,
    ensures
        slot.value(slot.stored(h, object)) == Some(object),
{
    match slot {
        JuliaVMSlot::Simple(e) => {
            let h1 = array_ptr_update(h, e.address, object.raw);
            lemma_word_after_store(h1.memory, e.address, object.raw);
        },
        JuliaVMSlot::Offset(e) => {
            let middle = wrap(object.raw + e.offset);
            lemma_word_after_store(h.memory, e.slot_addr, middle);
            lemma_wrap_twice(object.raw + e.offset, -e.offset);
        },
        JuliaVMSlot::Direct(_) => {},
        JuliaVMSlot::TypeTag(e) => {
            let raw = object.raw;
            let word = h.word(e.address);
            lemma_word_after_store(h.memory, e.address, e.retagged(h, object));
            assert((raw | (word & 0xf)) & !0xf == raw && (raw | (word & 0xf)) != 0)
                by (bit_vector)
                requires
                    raw % 16 == 0,
                    raw != 0,
            ;
        },
    }
}

/// A captured reference reads as what was captured, whatever was written, and writing it leaves
/// the heap as it is.
pub proof fn lemma_direct_slot_is_constant(
    captured: ObjectReference,
    h: HeapView,
    object: ObjectReference,
)
    ensures
        JuliaVMSlot::Direct(captured).stored(h, object) == h,
        JuliaVMSlot::Direct(captured).value(h) == Some(captured),
        JuliaVMSlot::Direct(captured).address() == 0,
{
}

/// Naming another type in a header keeps the status bits of the header.
pub proof fn lemma_type_tag_keeps_status_bits(
    slot: TypeTagSlot,
    h: HeapView,
    object: ObjectReference,
)
    requires
        object.raw % 16 == 0,
    ensures
        JuliaVMSlot::TypeTag(slot).stored(h, object).word(slot.address) & 0xf == h.word(
            slot.address,
        ) & 0xf,
{
    let raw = object.raw;
    let word = h.word(slot.address);
    lemma_word_after_store(h.memory, slot.address, slot.retagged(h, object));
    assert((raw | (word & 0xf)) & 0xf == word & 0xf) by (bit_vector)
        requires
            raw % 16 == 0,
    ;
}

/// Writing a slot changes no word but the one behind the slot and, for a plain slot, the data
/// pointer in front of it.
pub proof fn lemma_slot_store_frame(
    slot: JuliaVMSlot,
    h: HeapView,
    object: ObjectReference,
    b: u64,
)
    requires
        disjoint(slot.address(), 8, b, 8),
        slot is Simple ==> disjoint(wrap(slot.address() - 8), 8, b, 8),
    ensures
        slot.stored(h, object).word(b) == h.word(b),
{
    match slot {
        JuliaVMSlot::Simple(e) => {
            let h1 = array_ptr_update(h, e.address, object.raw);
            lemma_word_store_frame(h1.memory, e.address, object.raw, b);
            if let Some(p) = moved_data_pointer(h, e.address, object.raw) {
                lemma_word_store_frame(h.memory, wrap(e.address - 8), p, b);
            }
        },
        JuliaVMSlot::Offset(e) => lemma_word_store_frame(
            h.memory,
            e.slot_addr,
            wrap(object.raw + e.offset),
            b,
        ),
        JuliaVMSlot::Direct(_) => {},
        JuliaVMSlot::TypeTag(e) => lemma_word_store_frame(
            h.memory,
            e.address,
            e.retagged(h, object),
            b,
        ),
    }
}

/// When the backing memory of an array moves, the data pointer of the array keeps its distance
/// from the start of the memory.
pub proof fn lemma_data_pointer_moves_along(slot: SimpleSlot, h: HeapView, new_mem: ObjectReference)
    requires
        moved_data_pointer(h, slot.address, new_mem.raw) is Some,
    ensures
        ({
            let after = JuliaVMSlot::Simple(slot).stored(h, new_mem);
            let parent = wrap(slot.address - 8);
            &&& after.word(slot.address) == new_mem.raw
            &&& wrap(after.word(parent) - after.word(slot.address)) == wrap(
                h.word(parent) - h.word(slot.address),
            )
        }),
{
    let parent = wrap(slot.address - 8);
    let p = moved_data_pointer(h, slot.address, new_mem.raw)->Some_0;
    let h1 = h.with_word(parent, p);
    lemma_word_after_store(h.memory, parent, p);
    lemma_word_after_store(h1.memory, slot.address, new_mem.raw);
    assert(wrap(parent - slot.address) == u64::MAX - 7) by {
        lemma_wrap_twice(slot.address - 8, -slot.address);
    }
    assert(wrap(slot.address - parent) == 8) by {
        lemma_wrap_twice(slot.address - 8, slot.address as int);
    }
    lemma_word_store_frame(h1.memory, slot.address, new_mem.raw, parent);
    let distance = h.word(parent) - h.word(slot.address);
    lemma_wrap_twice(new_mem.raw + distance, -new_mem.raw);
}

/// After a copy every word of the target is the word that the source held before, even where the
/// runs overlap.
pub proof fn lemma_copied_words(h: HeapView, src: u64, tgt: JuliaMemorySlice, i: int)
    requires
        tgt.fits(),
        0 <= i < tgt.count,
    ensures
        h.with_memory(with_copy(h.memory, src, tgt.start, 8 * tgt.count)).word(
            wrap(tgt.start + 8 * i),
        ) == h.word(wrap(src + 8 * i)),
{
    lemma_word_after_copy(h.memory, src, tgt.start, 8 * tgt.count, 8 * i);
}

/// All slots of a list of runs, in order.
pub open spec fn slots_of_runs(runs: Seq<JuliaMemorySlice>) -> Seq<JuliaVMSlot>
    decreases runs.len(),
{
    if runs.len() == 0 {
        Seq::empty()
    } else {
        runs[0].slots() + slots_of_runs(runs.drop_first())
    }
}

/// The pieces of a run hold the slots of the run, in order, and belong to its owner.
pub proof fn lemma_pieces_hold_all_slots(run: JuliaMemorySlice, chunk_size: u64)
    requires
        chunk_size > 0,
    ensures
        slots_of_runs(run.pieces(chunk_size)) == run.slots(),
        forall|i: int|
            0 <= i < run.pieces(chunk_size).len() ==> {
                let piece = #[trigger] run.pieces(chunk_size)[i];
                piece.owner == run.owner && 0 < piece.count <= chunk_size
            },
    decreases run.count,
{
    let pieces = run.pieces(chunk_size);
    if run.count == 0 {
        assert(run.slots() =~= Seq::<JuliaVMSlot>::empty());
    } else if run.count <= chunk_size {
        assert(pieces.drop_first() =~= Seq::<JuliaMemorySlice>::empty());
        assert(slots_of_runs(pieces.drop_first()) =~= Seq::<JuliaVMSlot>::empty());
        assert(slots_of_runs(pieces) =~= run.slots());
    } else {
        let rest = run.tail(chunk_size);
        lemma_pieces_hold_all_slots(rest, chunk_size);
        assert(pieces.drop_first() =~= rest.pieces(chunk_size));
        assert forall|i: int| 0 <= i < rest.count implies rest.slots()[i] == run.slots()[i
            + chunk_size] by {
            lemma_wrap_twice(run.start + 8 * chunk_size, 8 * i);
        }
        assert(run.head(chunk_size).slots() + rest.slots() =~= run.slots());
        assert forall|i: int| 0 <= i < pieces.len() implies {
            let piece = #[trigger] pieces[i];
            piece.owner == run.owner && 0 < piece.count <= chunk_size
        } by {
            if i > 0 {
                assert(pieces[i] == rest.pieces(chunk_size)[i - 1]);
            }
        }
    }
}

/// The number of roots that a fresh buffer has room for.
pub const ROOT_WORK_PACKET_SIZE: usize = 4096;

/// A buffer that the runtime fills with roots; there may be none.
pub struct RootsWorkBuffer<T: Copy> {
    pub buffer: Option<Vec<T>>,
    /// The number of roots that the buffer has room for.
    pub capacity: usize,
}

impl<T: Copy> RootsWorkBuffer<T> {
    /// No buffer.
    pub fn empty() -> (r: RootsWorkBuffer<T>)
        ensures
            r.buffer is None,
            r.capacity == 0,
    {
        RootsWorkBuffer { buffer: None, capacity: 0 }
    }

    /// A buffer with no roots in it.
    pub fn new() -> (r: RootsWorkBuffer<T>)
        ensures
            r.is_fresh(),
    {
        RootsWorkBuffer {
            buffer: Some(Vec::with_capacity(ROOT_WORK_PACKET_SIZE)),
            capacity: ROOT_WORK_PACKET_SIZE,
        }
    }

    /// Whether this is a buffer with no roots in it and room for a packet of them.
    pub open spec fn is_fresh(self) -> bool {
        &&& self.buffer matches Some(b) && b@ == Seq::<T>::empty()
        &&& self.capacity == ROOT_WORK_PACKET_SIZE
    }

    /// Whether this is what the runtime gets back: a fresh buffer if it asked for one, and
    /// otherwise none.
    pub open spec fn is_renewal(self, renew: bool) -> bool {
        if renew {
            self.is_fresh()
        } else {
            self.buffer is None && self.capacity == 0
        }
    }

    /// The buffer that the runtime gets back for one that it has filled.
    pub fn renewed(renew: bool) -> (r: RootsWorkBuffer<T>)
        ensures
            r.is_renewal(renew),
    {
        if renew {
            RootsWorkBuffer::new()
        } else {
            RootsWorkBuffer::empty()
        }
    }
}

/// Roots that the collector is to process.
pub enum RootsWork {
    /// Slots, whose objects may move.
    Slots(Vec<JuliaVMSlot>),
    /// Objects that must not move.
    PinningNodes(Vec<ObjectReference>),
    /// Objects that must not move, nor anything that they lead to.
    TransitivelyPinningNodes(Vec<ObjectReference>),
}

/// What the runtime reports its own roots to.
pub struct RootsWorkClosure {
    pub work: Vec<RootsWork>,
}

/// The addresses as plain slots, in order.
pub open spec fn simple_slots(addresses: Seq<Address>) -> Seq<JuliaVMSlot> {
    addresses.map_values(|a: Address| simple(a))
}

impl RootsWorkClosure {
    /// A closure that adds to the work.
    pub fn from_roots_work_factory(work: Vec<RootsWork>) -> (r: RootsWorkClosure)
        ensures
            r.work == work,
    {
        RootsWorkClosure { work }
    }

    /// Takes a buffer of slot addresses, if there is one, as work.
    pub fn report_simple_slots(&mut self, buf: RootsWorkBuffer<Address>, renew: bool) -> (r:
        RootsWorkBuffer<Address>)
        ensures
            buf.buffer is None ==> final(self).work@ == old(self).work@,
            buf.buffer matches Some(addresses) ==> {
                &&& final(self).work@.len() == old(self).work@.len() + 1
                &&& final(self).work@.drop_last() == old(self).work@
                &&& final(self).work@.last() matches RootsWork::Slots(slots) && slots@
                    == simple_slots(addresses@)
            },
            r.is_renewal(renew),
    {
        if let Some(addresses) = buf.buffer {
            let mut slots: Vec<JuliaVMSlot> = Vec::new();
            let mut i: usize = 0;
            while i < addresses.len()
                invariant
                    i <= addresses.len(),
                    slots@ =~= simple_slots(addresses@.take(i as int)),
                decreases addresses.len() - i,
            {
                slots.push(JuliaVMSlot::Simple(SimpleSlot::from_address(addresses[i])));
                i = i + 1;
            }
            assert(addresses@.take(addresses@.len() as int) =~= addresses@);
            self.work.push(RootsWork::Slots(slots));
            assert(self.work@.drop_last() =~= old(self).work@);
        }
        RootsWorkBuffer::renewed(renew)
    }

    /// Takes a buffer of pinned objects, if there is one, as work.
    pub fn report_nodes(&mut self, buf: RootsWorkBuffer<ObjectReference>, renew: bool) -> (r:
        RootsWorkBuffer<ObjectReference>)
        ensures
            final(self).work@ == (match buf.buffer {
                None => old(self).work@,
                Some(nodes) => old(self).work@.push(RootsWork::PinningNodes(nodes)),
            }),
            r.is_renewal(renew),
    {
        if let Some(nodes) = buf.buffer {
            self.work.push(RootsWork::PinningNodes(nodes));
        }
        RootsWorkBuffer::renewed(renew)
    }

    /// Takes a buffer of transitively pinned objects, if there is one, as work.
    pub fn report_tpinned_nodes(&mut self, buf: RootsWorkBuffer<ObjectReference>, renew: bool) ->
        (r: RootsWorkBuffer<ObjectReference>)
        ensures
            final(self).work@ == (match buf.buffer {
                None => old(self).work@,
                Some(nodes) => old(self).work@.push(RootsWork::TransitivelyPinningNodes(nodes)),
            }),
            r.is_renewal(renew),
    {
        if let Some(nodes) = buf.buffer {
            self.work.push(RootsWork::TransitivelyPinningNodes(nodes));
        }
        RootsWorkBuffer::renewed(renew)
    }
}

} // verus!
