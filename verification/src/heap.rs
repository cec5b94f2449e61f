//! The heap as the scanner sees it: the readable bytes, the ranges that the collector manages,
//! and what the runtime answers about its objects.

use crate::julia_types::{JuliaAbi, KnownTypes, SmallTags};
use crate::memory::{
    byte_at, half_at, quad_at, with_word, word_at, word_readable, wrap, Address, Memory,
};
use std::collections::{HashMap, HashSet};
use vstd::prelude::*;

verus! {

/// A reference to an object: the address of its first byte after the header, never zero.
#[derive(Clone, Copy, PartialEq, Eq, Structural, Debug, Hash)]
pub struct ObjectReference {
    pub raw: Address,
}

impl ObjectReference {
    pub open spec fn wf(self) -> bool {
        self.raw != 0
    }

    /// The reference that an address stands for; zero stands for none.
    pub open spec fn of_address(addr: Address) -> Option<ObjectReference> {
        if addr == 0 {
            None
        } else {
            Some(ObjectReference { raw: addr })
        }
    }

    /// Makes a reference from an address; zero gives none.
    pub fn from_raw_address(addr: Address) -> (r: Option<ObjectReference>)
        ensures
            r == ObjectReference::of_address(addr),
    {
        if addr == 0 {
            None
        } else {
            Some(ObjectReference { raw: addr })
        }
    }

    /// The address of the object.
    pub fn to_raw_address(&self) -> (r: Address)
        ensures
            r == self.raw,
    {
        self.raw
    }
}

/// The addresses from `start` up to, but without, `end`.
#[derive(Clone, Copy, PartialEq, Eq, Structural, Debug)]
pub struct AddressRange {
    pub start: Address,
    pub end: Address,
}

impl AddressRange {
    pub open spec fn has(self, a: u64) -> bool {
        self.start <= a < self.end
    }
}

/// Whether some range of the list holds the address.
pub open spec fn covered(ranges: Seq<AddressRange>, a: u64) -> bool {
    exists|i: int| 0 <= i < ranges.len() && (#[trigger] ranges[i]).has(a)
}

/// Tests whether some range of the list holds the address.
fn is_covered(ranges: &Vec<AddressRange>, a: Address) -> (r: bool)
    ensures
        r == covered(ranges@, a),
{
    let mut i: usize = 0;
    while i < ranges.len()
        invariant
            i <= ranges.len(),
            forall|j: int| 0 <= j < i ==> !(#[trigger] ranges@[j]).has(a),
        decreases ranges.len() - i,
    {
        if ranges[i].start <= a && a < ranges[i].end {
            assert(ranges@[i as int].has(a));
            return true;
        }
        i = i + 1;
    }
    false
}

/// Settings that are fixed once the runtime and the collector are up.
#[derive(Clone, Copy, PartialEq, Eq, Structural, Debug)]
pub struct JuliaConfig {
    pub abi: JuliaAbi,
    pub tags: SmallTags,
    pub types: KnownTypes,
    /// The size of an object header.
    pub header_size: u64,
    /// The type tag that marks a buffer.
    pub buff_tag: u64,
    /// Start of the collector's three spaces; zero before it is known.
    pub heap_start: Address,
    /// End of the collector's three spaces; zero before it is known.
    pub heap_end: Address,
}

impl JuliaConfig {
    pub open spec fn wf(self) -> bool {
        &&& self.abi.wf()
        &&& self.tags.wf()
        &&& self.has_heap_range()
    }

    /// Whether the range of the spaces is in order, or not set up yet: a bound that is zero is not
    /// known.
    pub open spec fn has_heap_range(self) -> bool {
        self.heap_start == 0 || self.heap_end == 0 || self.heap_start <= self.heap_end
    }

    /// Checks the settings.
    pub fn is_well_formed(&self) -> (r: bool)
        ensures
            r == self.wf(),
    {
        self.abi.is_well_formed() && self.tags.is_well_formed() && (self.heap_start == 0
            || self.heap_end == 0 || self.heap_start <= self.heap_end)
    }
}

/// The contents of a heap.
pub struct HeapView {
    pub memory: Map<u64, u8>,
    pub config: JuliaConfig,
    pub small_typeof: Seq<u64>,
    pub mapped: Seq<AddressRange>,
    pub spaces: Seq<AddressRange>,
    pub memory_kinds: Map<u64, u8>,
    pub owner_fields: Map<u64, u64>,
    pub forwarded: Set<u64>,
    pub stack_bases: Map<u16, u64>,
    pub exception_slots: Map<u64, Vec<u64>>,
}

impl HeapView {
    pub open spec fn wf(self) -> bool {
        &&& self.config.wf()
        &&& self.small_typeof.len() == crate::julia_types::SMALL_TYPEOF_LEN
    }

    /// Whether a word can be read at the address.
    pub open spec fn readable(self, a: u64) -> bool {
        word_readable(self.memory, a)
    }

    pub open spec fn byte(self, a: u64) -> u8 {
        byte_at(self.memory, a)
    }

    pub open spec fn half(self, a: u64) -> u16 {
        half_at(self.memory, a)
    }

    pub open spec fn quad(self, a: u64) -> u32 {
        quad_at(self.memory, a)
    }

    pub open spec fn word(self, a: u64) -> u64 {
        word_at(self.memory, a)
    }

    /// The word at an offset from an address.
    pub open spec fn field(self, a: u64, offset: u64) -> u64 {
        self.word(wrap(a + offset))
    }

    /// Whether the collector has mapped the address.
    pub open spec fn is_mapped(self, a: u64) -> bool {
        covered(self.mapped, a)
    }

    /// Whether the address lies in one of the collector's spaces.
    pub open spec fn is_in_spaces(self, a: u64) -> bool {
        covered(self.spaces, a)
    }

    /// How the data of a generic memory is held, by the runtime's own numbering; an object of
    /// which the runtime says nothing holds its data inline.
    pub open spec fn memory_kind(self, a: u64) -> u8 {
        if self.memory_kinds.contains_key(a) {
            self.memory_kinds[a]
        } else {
            0
        }
    }

    /// Where a generic memory keeps the owner of its data; zero if the runtime names no place.
    pub open spec fn owner_field(self, a: u64) -> u64 {
        if self.owner_fields.contains_key(a) {
            self.owner_fields[a]
        } else {
            0
        }
    }

    /// The base of the stack of a thread; zero if there is no such thread.
    pub open spec fn stack_base(self, tid: u16) -> u64 {
        if self.stack_bases.contains_key(tid) {
            self.stack_bases[tid]
        } else {
            0
        }
    }

    /// The slots that the runtime finds in the exception stack of a task.
    pub open spec fn exception_slots_of(self, task: u64) -> Seq<u64> {
        if self.exception_slots.contains_key(task) {
            self.exception_slots[task]@
        } else {
            Seq::empty()
        }
    }

    /// The same heap after a word was stored.
    pub open spec fn with_word(self, a: u64, v: u64) -> HeapView {
        HeapView { memory: with_word(self.memory, a, v), ..self }
    }

    /// The same heap with other bytes.
    pub open spec fn with_memory(self, memory: Map<u64, u8>) -> HeapView {
        HeapView { memory, ..self }
    }
}

/// The heap that the scanner works on.
pub struct Heap {
    pub memory: Memory,
    pub config: JuliaConfig,
    /// The type of every small tag, two entries to a tag.
    pub small_typeof: Vec<u64>,
    /// What the collector has mapped.
    pub mapped: Vec<AddressRange>,
    /// The collector's spaces.
    pub spaces: Vec<AddressRange>,
    /// How each generic memory holds its data.
    pub memory_kinds: HashMap<u64, u8>,
    /// Where each generic memory keeps the owner of its data.
    pub owner_fields: HashMap<u64, u64>,
    /// The objects whose forwarding state says that they have been moved.
    pub forwarded: HashSet<u64>,
    /// The stack base of each thread.
    pub stack_bases: HashMap<u16, u64>,
    /// The slots in the exception stack of each task.
    pub exception_slots: HashMap<u64, Vec<u64>>,
}

impl View for Heap {
    type V = HeapView;

    open spec fn view(&self) -> HeapView {
        HeapView {
            memory: self.memory@,
            config: self.config,
            small_typeof: self.small_typeof@,
            mapped: self.mapped@,
            spaces: self.spaces@,
            memory_kinds: self.memory_kinds@,
            owner_fields: self.owner_fields@,
            forwarded: self.forwarded@,
            stack_bases: self.stack_bases@,
            exception_slots: self.exception_slots@,
        }
    }
}

impl Heap {
    /// A heap with nothing in it.
    pub fn new(config: JuliaConfig) -> (r: Heap)
        ensures
            r@.memory == Map::<u64, u8>::empty(),
            r@.config == config,
            r@.small_typeof == Seq::new(128, |i: int| 0u64),
            r@.mapped.len() == 0,
            r@.spaces.len() == 0,
            r@.memory_kinds == Map::<u64, u8>::empty(),
            r@.owner_fields == Map::<u64, u64>::empty(),
            r@.forwarded == Set::<u64>::empty(),
            r@.stack_bases == Map::<u16, u64>::empty(),
            r@.exception_slots == Map::<u64, Vec<u64>>::empty(),
            config.wf() ==> r@.wf(),
    {
        let mut table: Vec<u64> = Vec::new();
        while table.len() < 128
            invariant
                table.len() <= 128,
                forall|i: int| 0 <= i < table.len() ==> table@[i] == 0,
            decreases 128 - table.len(),
        {
            table.push(0);
        }
        assert(table@ =~= Seq::new(128, |i: int| 0u64));
        Heap {
            memory: Memory::new(),
            config,
            small_typeof: table,
            mapped: Vec::new(),
            spaces: Vec::new(),
            memory_kinds: HashMap::new(),
            owner_fields: HashMap::new(),
            forwarded: HashSet::new(),
            stack_bases: HashMap::new(),
            exception_slots: HashMap::new(),
        }
    }

    /// Checks the settings and the size of the table of types.
    pub fn is_well_formed(&self) -> (r: bool)
        ensures
            r == self@.wf(),
    {
        self.config.is_well_formed() && self.small_typeof.len() == 128
    }

    pub fn is_readable(&self, a: Address) -> (r: bool)
        ensures
            r == self@.readable(a),
    {
        self.memory.is_readable(a)
    }

    pub fn load_u8(&self, a: Address) -> (r: u8)
        ensures
            r == self@.byte(a),
    {
        self.memory.load_u8(a)
    }

    pub fn load_u16(&self, a: Address) -> (r: u16)
        ensures
            r == self@.half(a),
    {
        self.memory.load_u16(a)
    }

    pub fn load_u32(&self, a: Address) -> (r: u32)
        ensures
            r == self@.quad(a),
    {
        self.memory.load_u32(a)
    }

    pub fn load_u64(&self, a: Address) -> (r: u64)
        ensures
            r == self@.word(a),
    {
        self.memory.load_u64(a)
    }

    /// The word at an offset from an address.
    pub fn load_field(&self, a: Address, offset: u64) -> (r: u64)
        ensures
            r == self@.field(a, offset),
    {
        self.memory.load_u64(crate::memory::offset_by(a, offset))
    }

    pub fn store_u64(&mut self, a: Address, v: u64)
        ensures
            final(self)@ == old(self)@.with_word(a, v),
    {
        self.memory.store_u64(a, v);
    }

    pub fn is_mapped(&self, a: Address) -> (r: bool)
        ensures
            r == self@.is_mapped(a),
    {
        is_covered(&self.mapped, a)
    }

    pub fn is_in_spaces(&self, a: Address) -> (r: bool)
        ensures
            r == self@.is_in_spaces(a),
    {
        is_covered(&self.spaces, a)
    }

    pub fn memory_kind(&self, a: Address) -> (r: u8)
        ensures
            r == self@.memory_kind(a),
    {
        broadcast use vstd::std_specs::hash::group_hash_axioms;

        match self.memory_kinds.get(&a) {
            Some(k) => *k,
            None => 0,
        }
    }

    pub fn owner_field(&self, a: Address) -> (r: Address)
        ensures
            r == self@.owner_field(a),
    {
        broadcast use vstd::std_specs::hash::group_hash_axioms;

        match self.owner_fields.get(&a) {
            Some(k) => *k,
            None => 0,
        }
    }

    pub fn stack_base(&self, tid: u16) -> (r: Address)
        ensures
            r == self@.stack_base(tid),
    {
        broadcast use vstd::std_specs::hash::group_hash_axioms;

        match self.stack_bases.get(&tid) {
            Some(k) => *k,
            None => 0,
        }
    }

    /// Lists the slots that the runtime finds in the exception stack of a task.
    pub fn exception_slots_of(&self, task: Address) -> (r: Vec<Address>)
        ensures
            r@ == self@.exception_slots_of(task),
    {
        broadcast use vstd::std_specs::hash::group_hash_axioms;

        let mut r: Vec<u64> = Vec::new();
        match self.exception_slots.get(&task) {
            Some(slots) => {
                let mut i: usize = 0;
                while i < slots.len()
                    invariant
                        i <= slots.len(),
                        r@ == slots@.take(i as int),
                    decreases slots.len() - i,
                {
                    r.push(slots[i]);
                    i = i + 1;
                    assert(r@ =~= slots@.take(i as int));
                }
                assert(slots@.take(slots@.len() as int) =~= slots@);
            },
            None => {},
        }
        r
    }

    pub fn is_forwarded(&self, a: Address) -> (r: bool)
        ensures
            r == self@.forwarded.contains(a),
    {
        broadcast use vstd::std_specs::hash::group_hash_axioms;

        self.forwarded.contains(&a)
    }
}

} // verus!
