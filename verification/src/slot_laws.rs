//! What slots hold, what a write leaves in them, and which other word a write changes, stated over
//! the words of the heap.

use crate::datatypes::{names_datatype, typetag};
use crate::heap::{Heap, HeapView, ObjectReference};
use crate::julia_scanning::{array_ptr_update, moved_data_pointer};
use crate::memory::{
    lemma_within_plain, lemma_word_after_store, lemma_word_store_frame, lemma_word_store_frame_byte,
    lemma_wrap_twice, wrap,
};
use crate::slots::{
    simple, simple_slots, JuliaMemorySlice, JuliaMemorySliceSlotIterator, JuliaVMSlot, OffsetSlot,
    RootsWorkBuffer, SimpleSlot, TypeTagSlot,
};
use vstd::prelude::*;

verus! {

/// A plain slot holds the reference whose address is its word; zero is no reference.
pub proof fn lemma_plain_slot_value(h: HeapView, a: u64, object: ObjectReference)
    ensures
        simple(a).value(h) is None <==> h.word(a) == 0,
        simple(a).value(h) == Some(object) <==> h.word(a) == object.raw && object.raw != 0,
        simple(a).address() == a,
{
}

/// A slot with an offset holds the reference that its word lies the offset behind; a word that is
/// the offset itself holds none.
pub proof fn lemma_offset_slot_value(h: HeapView, slot: OffsetSlot, object: ObjectReference)
    requires
        slot.offset <= h.word(slot.slot_addr),
    ensures
        JuliaVMSlot::Offset(slot).value(h) is None <==> h.word(slot.slot_addr) == slot.offset,
        JuliaVMSlot::Offset(slot).value(h) == Some(object) <==> object.raw + slot.offset == h.word(
            slot.slot_addr,
        ) && object.raw != 0,
        JuliaVMSlot::Offset(slot).address() == slot.slot_addr,
{
    let word = h.word(slot.slot_addr);
    assert(wrap(word - slot.offset) == word - slot.offset);
}

/// A header holds the reference to the type that is its word without what the word leaves over
/// sixteen; a header below sixteen holds none.
pub proof fn lemma_header_slot_value(h: HeapView, slot: TypeTagSlot, object: ObjectReference)
    ensures
        ({
            let word = h.word(slot.address);
            &&& JuliaVMSlot::TypeTag(slot).value(h) is None <==> word < 16
            &&& JuliaVMSlot::TypeTag(slot).value(h) == Some(object) <==> object.raw == word - word
                % 16 && object.raw != 0
        }),
        JuliaVMSlot::TypeTag(slot).address() == slot.address,
{
    let word = h.word(slot.address);
    assert(word & !0xf == word - word % 16) by (bit_vector);
}

/// A write to a slot leaves in its word the address of the object, that address and the offset, or
/// that address and what the header left over sixteen.
pub proof fn lemma_stored_words(h: HeapView, object: ObjectReference, a: u64, offset: u64)
    ensures
        simple(a).stored(h, object).word(a) == object.raw,
        object.raw + offset <= u64::MAX ==> JuliaVMSlot::Offset(
            OffsetSlot { slot_addr: a, offset },
        ).stored(h, object).word(a) == object.raw + offset,
        object.raw % 16 == 0 ==> JuliaVMSlot::TypeTag(TypeTagSlot { address: a }).stored(
            h,
            object,
        ).word(a) == object.raw + h.word(a) % 16,
{
    let h1 = array_ptr_update(h, a, object.raw);
    lemma_word_after_store(h1.memory, a, object.raw);
    lemma_word_after_store(h.memory, a, wrap(object.raw + offset));
    let slot = TypeTagSlot { address: a };
    lemma_word_after_store(h.memory, a, slot.retagged(h, object));
    let word = h.word(a);
    let raw = object.raw;
    assert(raw % 16 == 0 ==> raw | (word & 0xf) == raw + word % 16) by (bit_vector);
}

/// Whether the word at `slot` is the backing memory of an array, or of a reference into one, whose
/// data pointer, in the word in front of it, points at the data that the memory holds itself: the
/// data begins sixteen bytes into the memory.
pub open spec fn points_into_own_memory(h: HeapView, slot: u64) -> bool {
    let tag = typetag(h, (slot - 8) as u64);
    let name = h.word(wrap(tag + h.config.abi.datatype_name));
    &&& slot % 8 == 0 && slot >= 8
    &&& h.is_mapped((slot - 8) as u64)
    &&& tag >= 16 * h.config.tags.max_tags && tag != 0
    &&& names_datatype(h, tag)
    &&& name == h.config.types.array_typename || name == h.config.types.genericmemoryref_typename
    &&& h.word(slot) != 0
    &&& h.memory_kind(h.word(slot)) == 0
    &&& h.word(slot) + 16 <= h.word((slot - 8) as u64)
}

/// When another backing memory is written into an array, the data pointer comes to lie as far
/// behind the new memory as it lay behind the old one. That holds of every pointer at or behind the
/// first byte of the data.
pub proof fn lemma_data_pointer_keeps_distance(h: HeapView, slot: u64, new_mem: ObjectReference)
    requires
        points_into_own_memory(h, slot),
        new_mem.raw + (h.word((slot - 8) as u64) - h.word(slot)) <= u64::MAX,
    ensures
        ({
            let after = simple(slot).stored(h, new_mem);
            let parent = (slot - 8) as u64;
            &&& after.word(slot) == new_mem.raw
            &&& after.word(parent) - after.word(slot) == h.word(parent) - h.word(slot)
        }),
{
    let parent = (slot - 8) as u64;
    lemma_parent_word(h, slot, new_mem);
    assert(wrap(slot - 8) == parent);
}

/// The data pointer of an array keeps its distance even where the new memory lies so high that the
/// sum wraps.
pub proof fn lemma_data_pointer_keeps_wrapped_distance(
    h: HeapView,
    slot: u64,
    new_mem: ObjectReference,
)
    requires
        points_into_own_memory(h, slot),
    ensures
        ({
            let after = simple(slot).stored(h, new_mem);
            let parent = (slot - 8) as u64;
            &&& after.word(slot) == new_mem.raw
            &&& wrap(after.word(parent) - after.word(slot)) == h.word(parent) - h.word(slot)
        }),
{
    let parent = (slot - 8) as u64;
    lemma_parent_word(h, slot, new_mem);
    assert(wrap(slot - 8) == parent);
    let distance = h.word(parent) - h.word(slot);
    lemma_wrap_twice(new_mem.raw + distance, -new_mem.raw);
}

/// Where the word in front of a slot is no such data pointer, a write to the slot leaves it as it
/// is.
pub proof fn lemma_other_words_stay(h: HeapView, slot: u64, new_mem: ObjectReference)
    requires
        slot >= 8,
        !points_into_own_memory(h, slot),
    ensures
        simple(slot).stored(h, new_mem).word((slot - 8) as u64) == h.word((slot - 8) as u64),
{
    lemma_parent_word(h, slot, new_mem);
    assert(wrap(slot - 8) == slot - 8);
}

/// The update before the write moves the data pointer by the distance of the memories and leaves
/// the word of the memory to the write; where the word in front of a slot is no such data pointer
/// it changes nothing at all.
pub proof fn lemma_pointer_update(h: HeapView, slot: u64, new_mem: u64, b: u64)
    requires
        slot >= 8,
    ensures
        ({
            let after = array_ptr_update(h, slot, new_mem);
            let parent = (slot - 8) as u64;
            let moved = h.word(parent) - h.word(slot);
            &&& points_into_own_memory(h, slot) && new_mem + moved <= u64::MAX ==> after.word(
                parent,
            ) == new_mem + moved
            &&& after.word(slot) == h.word(slot)
            &&& !points_into_own_memory(h, slot) ==> after == h
            &&& b < parent || parent + 8 <= b ==> after.byte(b) == h.byte(b)
        }),
{
    let parent = (slot - 8) as u64;
    assert(wrap(slot - 8) == parent);
    if let Some(p) = moved_data_pointer(h, slot, new_mem) {
        lemma_word_after_store(h.memory, parent, p);
        assert(wrap(slot - parent) == 8);
        assert(wrap(parent - slot) == u64::MAX - 7);
        lemma_word_store_frame(h.memory, parent, p, slot);
        if b < parent || parent + 8 <= b {
            lemma_within_plain(parent, 8, b);
            lemma_word_store_frame_byte(h.memory, parent, p, b);
        }
    }
}

proof fn lemma_parent_word(h: HeapView, slot: u64, new_mem: ObjectReference)
    ensures
        ({
            let after = simple(slot).stored(h, new_mem);
            let parent = wrap(slot - 8);
            &&& after.word(slot) == new_mem.raw
            &&& after.word(parent) == (match moved_data_pointer(h, slot, new_mem.raw) {
                Some(p) => p,
                None => h.word(parent),
            })
        }),
{
    let parent = wrap(slot - 8);
    let h1 = array_ptr_update(h, slot, new_mem.raw);
    lemma_word_after_store(h1.memory, slot, new_mem.raw);
    if let Some(p) = moved_data_pointer(h, slot, new_mem.raw) {
        lemma_word_after_store(h.memory, parent, p);
    }
    assert(wrap(parent - slot) == u64::MAX - 7) by {
        lemma_wrap_twice(slot - 8, -slot);
    }
    assert(wrap(slot - parent) == 8) by {
        lemma_wrap_twice(slot - 8, slot as int);
    }
    lemma_word_store_frame(h1.memory, slot, new_mem.raw, parent);
}

/// The slots of a run lie one word after the other from its start on, as many as the run counts.
pub proof fn lemma_slots_of_a_run(run: JuliaMemorySlice, i: int)
    requires
        run.start + 8 * run.count <= u64::MAX,
    ensures
        run.slots().len() == run.count,
        0 <= i < run.count ==> run.slots()[i].address() == run.start + 8 * i && run.slots()[i]
            is Simple,
        run.fits(),
{
}

/// A walk hands out every eighth address from its cursor on that lies below its limit, and no
/// other.
pub proof fn lemma_walk_over_a_run(walk: JuliaMemorySliceSlotIterator, i: int)
    requires
        0 <= i,
    ensures
        i < walk.remaining().len() <==> walk.cursor + 8 * i < walk.limit,
        i < walk.remaining().len() ==> walk.remaining()[i].address() == walk.cursor + 8 * i
            && walk.remaining()[i] is Simple,
{
}

/// A run is cut into pieces of a number of slots each; only what is left over makes a shorter
/// piece, which comes last. The pieces follow each other without a gap.
pub proof fn lemma_pieces_of_a_run(run: JuliaMemorySlice, chunk: u64, i: int)
    requires
        chunk > 0,
        run.start + 8 * run.count <= u64::MAX,
        0 <= i,
    ensures
        ({
            let pieces = run.pieces(chunk);
            &&& i < pieces.len() <==> chunk * i < run.count
            &&& i < pieces.len() ==> {
                &&& pieces[i].owner == run.owner
                &&& pieces[i].start == run.start + 8 * (chunk * i)
                &&& pieces[i].count == (if chunk * (i + 1) <= run.count {
                    chunk as int
                } else {
                    run.count - chunk * i
                })
            }
        }),
    decreases run.count,
{
    let pieces = run.pieces(chunk);
    assert(chunk * (i + 1) == chunk * i + chunk) by (nonlinear_arith);
    assert(chunk * i >= 0) by (nonlinear_arith)
        requires
            i >= 0,
    ;
    if i == 0 {
        assert(chunk * i == 0) by (nonlinear_arith)
            requires
                i == 0,
        ;
    } else {
        assert(chunk * i >= chunk) by (nonlinear_arith)
            requires
                i >= 1,
        ;
    }
    if run.count > chunk && i > 0 {
        let rest = run.tail(chunk);
        assert(wrap(run.start + 8 * chunk) == run.start + 8 * chunk);
        lemma_pieces_of_a_run(rest, chunk, i - 1);
        assert(chunk * (i - 1) == chunk * i - chunk) by (nonlinear_arith);
        assert(pieces.len() == rest.pieces(chunk).len() + 1);
        if i < pieces.len() {
            assert(pieces[i] == rest.pieces(chunk)[i - 1]);
        }
    }
}

/// Reported addresses become plain slots, one for one and in order.
pub proof fn lemma_reported_addresses(addresses: Seq<u64>, i: int)
    ensures
        simple_slots(addresses).len() == addresses.len(),
        0 <= i < addresses.len() ==> simple_slots(addresses)[i] == JuliaVMSlot::Simple(
            SimpleSlot { address: addresses[i] },
        ),
{
}

/// The runtime gets a fresh buffer with room for 4096 roots back if it asks for one, and nothing
/// otherwise.
pub proof fn lemma_renewed_buffer(buffer: RootsWorkBuffer<u64>, renew: bool)
    requires
        buffer.is_renewal(renew),
    ensures
        buffer.buffer is Some <==> renew,
        buffer.buffer matches Some(b) ==> b@.len() == 0,
        buffer.capacity == (if renew {
            4096int
        } else {
            0
        }),
{
}

/// What is read from a slot: the word of a plain slot, the word less the offset of a slot with one,
/// the word of a header without its four lowest bits, and what was captured; zero is no reference.
pub proof fn lemma_read_slot(heap: &Heap, slot: JuliaVMSlot, r: Option<ObjectReference>)
    requires
        call_ensures(JuliaVMSlot::load, (&slot, heap), r),
    ensures
        ({
            let word = heap@.word(slot.address());
            &&& slot is Simple ==> (r is Some <==> word != 0)
            &&& slot is Simple ==> (r matches Some(o) ==> o.raw == word)
            &&& slot matches JuliaVMSlot::Offset(e) ==> e.offset < word ==> (r matches Some(o)
                && o.raw + e.offset == word)
            &&& slot is TypeTag ==> (r is Some <==> word >= 16)
            &&& slot is TypeTag ==> (r matches Some(o) ==> o.raw == word - word % 16)
            &&& slot matches JuliaVMSlot::Direct(o) ==> r == Some(o)
        }),
{
    match slot {
        JuliaVMSlot::Simple(_) => {},
        JuliaVMSlot::Direct(_) => {},
        JuliaVMSlot::Offset(e) => {
            let word = heap@.word(e.slot_addr);
            if e.offset <= word {
                assert(wrap(word - e.offset) == word - e.offset);
            }
        },
        JuliaVMSlot::TypeTag(e) => {
            lemma_header_slot_value(heap@, e, ObjectReference { raw: 0 });
            let word = heap@.word(e.address);
            assert(word & !0xf == word - word % 16) by (bit_vector);
        },
    }
}

} // verus!
