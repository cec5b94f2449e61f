//! The roots of a compiled program: its stack of references, and the global slots that it has
//! registered.

use crate::heap::ObjectReference;
use crate::julia_mlir::model::JuliaMlirScanning;
use crate::memory::{
    disjoint, lemma_word_after_store, lemma_word_store_frame, offset_words, with_word, word_at, wrap,
    Address, Memory,
};
use crate::scanning::{packs, root_packets};
use crate::slots::SimpleSlot;
use vstd::prelude::*;

verus! {

/// Where the stack of references is. The stack grows upwards; its top is kept by the program in a
/// variable of its own.
#[derive(Clone, Copy, PartialEq, Eq, Structural, Debug)]
pub struct RootStack {
    /// Where the stack starts; zero before it is set up.
    pub base: Address,
    /// Where the program keeps the top of the stack; zero before it is set up.
    pub top_addr: Address,
}

impl RootStack {
    /// The number of words on the stack.
    pub open spec fn depth(self, m: Map<u64, u8>) -> int {
        let top = word_at(m, self.top_addr);
        if self.top_addr == 0 || self.base == 0 || top <= self.base {
            0
        } else {
            (top - self.base + 7) / 8
        }
    }

    /// The slots of the stack, from the bottom up.
    pub open spec fn slots(self, m: Map<u64, u8>) -> Seq<SimpleSlot> {
        Seq::new(
            self.depth(m) as nat,
            |i: int| SimpleSlot { address: (self.base + 8 * i) as u64 },
        )
    }

    /// Sets the stack up.
    pub fn jlmlir_gc_set_root_stack(&mut self, base: Address, top_addr: Address)
        ensures
            *final(self) == (RootStack { base, top_addr }),
    {
        self.base = base;
        self.top_addr = top_addr;
    }

    /// Lists the slots of the stack.
    fn list_slots(&self, memory: &Memory) -> (r: Vec<SimpleSlot>)
        ensures
            r@ == self.slots(memory@),
    {
        let mut slots: Vec<SimpleSlot> = Vec::new();
        if self.top_addr == 0 || self.base == 0 {
            assert(slots@ =~= self.slots(memory@));
            return slots;
        }
        let top: u64 = memory.load_u64(self.top_addr);
        if top <= self.base {
            assert(slots@ =~= self.slots(memory@));
            return slots;
        }
        let depth: u64 = (top - self.base - 1) / 8 + 1;
        let mut i: u64 = 0;
        while i < depth
            invariant
                i <= depth,
                depth == self.depth(memory@),
                depth == (top - self.base + 7) / 8,
                self.base < top,
                slots@ =~= self.slots(memory@).take(i as int),
            decreases depth - i,
        {
            slots.push(SimpleSlot::from_address(self.base + 8 * i));
            i = i + 1;
        }
        assert(self.slots(memory@).take(depth as int) =~= self.slots(memory@));
        slots
    }
}

/// The objects that the slots of a list refer to, in order; empty slots are left out.
pub open spec fn referents(m: Map<u64, u8>, slots: Seq<SimpleSlot>) -> Seq<ObjectReference>
    decreases slots.len(),
{
    if slots.len() == 0 {
        Seq::empty()
    } else {
        let before = referents(m, slots.drop_last());
        let raw = word_at(m, slots.last().address);
        if raw == 0 {
            before
        } else {
            before.push(ObjectReference { raw })
        }
    }
}

/// Lists the objects that slots refer to.
fn load_referents(memory: &Memory, slots: &Vec<SimpleSlot>) -> (r: Vec<ObjectReference>)
    ensures
        r@ == referents(memory@, slots@),
{
    let mut roots: Vec<ObjectReference> = Vec::new();
    let mut i: usize = 0;
    assert(slots@.take(0) =~= Seq::<SimpleSlot>::empty());
    while i < slots.len()
        invariant
            i <= slots.len(),
            roots@ == referents(memory@, slots@.take(i as int)),
        decreases slots.len() - i,
    {
        let raw: u64 = memory.load_u64(slots[i].address);
        if let Some(object) = ObjectReference::from_raw_address(raw) {
            roots.push(object);
        }
        proof {
            assert(slots@.take(i + 1).drop_last() =~= slots@.take(i as int));
            assert(slots@.take(i + 1).last() == slots@[i as int]);
        }
        i = i + 1;
    }
    assert(slots@.take(slots@.len() as int) =~= slots@);
    roots
}

/// The table of the global slots that a program has registered.
#[derive(Clone, Copy, PartialEq, Eq, Structural, Debug)]
pub struct GlobalRoots {
    /// Where the table is; zero before it is set up.
    pub base: Address,
    /// The number of registered slots.
    pub count: u64,
}

impl GlobalRoots {
    /// The registered slots, in the order of registration.
    pub open spec fn registered(self, m: Map<u64, u8>) -> Seq<u64> {
        Seq::new(self.count as nat, |i: int| word_at(m, wrap(self.base + 8 * i)))
    }

    /// Sets the table up, with nothing in it.
    pub fn jlmlir_gc_init_global_roots(&mut self, table_addr: Address, _capacity: u64)
        ensures
            *final(self) == (GlobalRoots { base: table_addr, count: 0 }),
    {
        self.base = table_addr;
        self.count = 0;
    }

    /// Registers the address of a slot that holds a reference. Without a table the slot is only
    /// counted.
    pub fn jlmlir_gc_add_global_root(&mut self, memory: &mut Memory, slot_addr: Address)
        ensures
            final(self).base == old(self).base,
            final(self).count == wrap(old(self).count + 1),
            final(memory)@ == (if old(self).base == 0 {
                old(memory)@
            } else {
                with_word(old(memory)@, wrap(old(self).base + 8 * old(self).count), slot_addr)
            }),
    {
        let idx: u64 = self.count;
        self.count = idx.wrapping_add(1);
        if self.base != 0 {
            memory.store_u64(offset_words(self.base, idx), slot_addr);
        }
    }

    /// The registered slots that are slots at all.
    pub open spec fn slots(self, m: Map<u64, u8>) -> Seq<SimpleSlot> {
        if self.base == 0 {
            Seq::empty()
        } else {
            real_slots(self.registered(m))
        }
    }
}

/// The addresses of a list that are not zero, as slots.
pub open spec fn real_slots(addresses: Seq<u64>) -> Seq<SimpleSlot>
    decreases addresses.len(),
{
    if addresses.len() == 0 {
        Seq::empty()
    } else if addresses.last() == 0 {
        real_slots(addresses.drop_last())
    } else {
        real_slots(addresses.drop_last()).push(SimpleSlot { address: addresses.last() })
    }
}

/// Registering a slot adds it behind the slots that are registered already, as long as the table
/// has room for it.
pub proof fn lemma_registration_appends(g: GlobalRoots, m: Map<u64, u8>, slot_addr: u64)
    requires
        g.base != 0,
        g.base + 8 * (g.count + 1) <= u64::MAX,
    ensures
        (GlobalRoots { count: (g.count + 1) as u64, ..g }).registered(
            with_word(m, wrap(g.base + 8 * g.count), slot_addr),
        ) == g.registered(m).push(slot_addr),
{
    let place = wrap(g.base + 8 * g.count);
    let after = with_word(m, place, slot_addr);
    let next = GlobalRoots { count: (g.count + 1) as u64, ..g };
    lemma_word_after_store(m, place, slot_addr);
    assert forall|i: int| 0 <= i < g.count implies #[trigger] next.registered(after)[i]
        == g.registered(m)[i] by {
        let entry = wrap(g.base + 8 * i);
        assert(place - entry == 8 * (g.count - i));
        assert(disjoint(place, 8, entry, 8));
        lemma_word_store_frame(m, place, slot_addr, entry);
    }
    assert(next.registered(after) =~= g.registered(m).push(slot_addr));
}

impl JuliaMlirScanning {
    /// Lists the objects on the stack of references, in packets. These objects must not move.
    pub fn scan_roots_in_mutator_thread(memory: &Memory, stack: &RootStack) -> (r: Vec<
        Vec<ObjectReference>,
    >)
        ensures
            packs(r@, referents(memory@, stack.slots(memory@))),
    {
        let slots: Vec<SimpleSlot> = stack.list_slots(memory);
        let roots: Vec<ObjectReference> = load_referents(memory, &slots);
        root_packets(&roots)
    }

    /// Lists the slots of the stack of references, in packets.
    pub fn scan_multiple_thread_root(memory: &Memory, stack: &RootStack) -> (r: Vec<
        Vec<SimpleSlot>,
    >)
        ensures
            packs(r@, stack.slots(memory@)),
    {
        let slots: Vec<SimpleSlot> = stack.list_slots(memory);
        root_packets(&slots)
    }

    /// Lists the objects that the registered slots refer to, in packets. These objects must not
    /// move.
    pub fn scan_vm_specific_roots(memory: &Memory, globals: &GlobalRoots) -> (r: Vec<
        Vec<ObjectReference>,
    >)
        ensures
            packs(r@, referents(memory@, globals.slots(memory@))),
    {
        let ghost m = memory@;
        let mut slots: Vec<SimpleSlot> = Vec::new();
        if globals.base != 0 {
            let ghost all = globals.registered(m);
            let mut i: u64 = 0;
            assert(all.take(0) =~= Seq::<u64>::empty());
            while i < globals.count
                invariant
                    i <= globals.count,
                    m == memory@,
                    all == globals.registered(m),
                    slots@ == real_slots(all.take(i as int)),
                decreases globals.count - i,
            {
                let address: u64 = memory.load_u64(offset_words(globals.base, i));
                if address != 0 {
                    slots.push(SimpleSlot::from_address(address));
                }
                proof {
                    assert(all.take(i + 1).drop_last() =~= all.take(i as int));
                    assert(all.take(i + 1).last() == address);
                }
                i = i + 1;
            }
            assert(all.take(all.len() as int) =~= all);
        }
        let roots: Vec<ObjectReference> = load_referents(memory, &slots);
        root_packets(&roots)
    }
}

} // verus!
