//! What the scan of a shadow stack finds, frame by frame and root by root.

use crate::gcstack::{
    chain_bound, chain_steps, chain_within, copied_size, exception_steps, frame_steps,
    gcstack_steps, next_frame, root_steps, slot_report, stack_addr, stack_scannable,
    stack_scannable_within, stack_window, stack_word, task_frame_steps, StackWindow,
};
use crate::heap::HeapView;
use crate::memory::{lemma_wrap_twice, wrap};
use crate::object_steps::offset_slot_steps;
use crate::slots::{simple, JuliaVMSlot, OffsetSlot};
use crate::steps::Step;
use crate::walk_laws::lemma_either_list;
use vstd::prelude::*;

verus! {

/// The number of bytes of the stack of a task that were copied out.
pub open spec fn bytes_copied_out(h: HeapView, ta: u64) -> u32 {
    h.quad(wrap(ta + h.config.abi.task_copy_stack)) & h.config.abi.task_copy_stack_mask
}

/// Whether the stack of a task was copied into a buffer.
pub open spec fn was_copied_out(h: HeapView, ta: u64) -> bool {
    h.word(wrap(ta + h.config.abi.task_stkbuf)) != 0 && bytes_copied_out(h, ta) != 0
}

/// Whether the stack of a task lies where its frames say: stacks are not copied, or this one was
/// not, or a thread is running on it.
pub open spec fn is_in_place(h: HeapView, ta: u64, copy_stacks: bool) -> bool {
    !copy_stacks || !was_copied_out(h, ta) || h.word(wrap(ta + h.config.abi.task_ptls)) != 0
}

/// A stack that lies in place is read where it lies.
pub proof fn lemma_stack_in_place(h: HeapView, ta: u64, copy_stacks: bool, a: u64)
    requires
        is_in_place(h, ta, copy_stacks),
    ensures
        ({
            let w = stack_window(h, ta, copy_stacks);
            &&& stack_addr(w, a) == a
            &&& h.readable(a) ==> stack_word(h, w, a) == h.word(a)
            &&& !h.readable(a) ==> stack_word(h, w, a) == 0
        }),
{
}

/// A stack that was copied out is read from its buffer: the byte so many bytes below the base of
/// the stack of its thread lies as many bytes below the end of the buffer. Other addresses are read
/// where they are.
pub proof fn lemma_stack_copied_out(h: HeapView, ta: u64, a: u64, below: int)
    requires
        was_copied_out(h, ta),
        h.word(wrap(ta + h.config.abi.task_ptls)) == 0,
        ({
            let base = h.stack_base(h.half(wrap(ta + h.config.abi.task_tid)));
            let buffer = h.word(wrap(ta + h.config.abi.task_stkbuf));
            let size = bytes_copied_out(h, ta);
            &&& size <= base
            &&& buffer + size <= u64::MAX
            &&& a + below == base
        }),
    ensures
        ({
            let w = stack_window(h, ta, true);
            let buffer = h.word(wrap(ta + h.config.abi.task_stkbuf));
            let size = bytes_copied_out(h, ta);
            &&& 0 < below <= size ==> stack_addr(w, a) + below == buffer + size
            &&& !(0 < below <= size) ==> stack_addr(w, a) == a
            &&& h.readable(stack_addr(w, a)) ==> stack_word(h, w, a) == h.word(stack_addr(w, a))
            &&& !h.readable(stack_addr(w, a)) ==> stack_word(h, w, a) == 0
        }),
{
    let base = h.stack_base(h.half(wrap(ta + h.config.abi.task_tid)));
    let buffer = h.word(wrap(ta + h.config.abi.task_stkbuf));
    let size = bytes_copied_out(h, ta);
    assert(copied_size(h, ta) == size);
    let lb = (base - size) as u64;
    assert(wrap(base - size) == lb);
    let offset = wrap(buffer - lb);
    lemma_wrap_twice(buffer - lb, a as int);
    if 0 < below <= size {
        assert(wrap(a + (buffer - lb)) == a + buffer - lb);
    }
}

/// The frames from `first` on: each but the first is the one that the frame before it names as its
/// enclosing frame, in a word that can be read.
pub open spec fn is_chain(h: HeapView, w: StackWindow, first: u64, frames: Seq<u64>) -> bool {
    &&& frames.len() > 0
    &&& frames[0] == first
    &&& forall|k: int|
        0 <= k < frames.len() - 1 ==> {
            let prev = stack_word(h, w, wrap(#[trigger] frames[k] + h.config.abi.gcframe_prev));
            &&& frames[k + 1] == prev
            &&& prev != 0 && h.readable(prev)
        }
}

#[verifier::rlimit(40)]
proof fn lemma_chain_reaches(
    h: HeapView,
    w: StackWindow,
    frames: Seq<u64>,
    n: nat,
    x: Step,
)
    requires
        is_chain(h, w, frames[0], frames),
        chain_within(h, w, frames[0], n),
        frame_steps(h, w, frames.last()).contains(x),
    ensures
        chain_steps(h, w, frames[0], n).contains(x),
    decreases n,
{
    let s = frames[0];
    let own = frame_steps(h, w, s);
    if frames.len() == 1 {
        match next_frame(h, w, s) {
            None => {
                lemma_either_list(own, Seq::empty(), x);
            },
            Some(prev) => {
                lemma_either_list(own, chain_steps(h, w, prev, (n - 1) as nat), x);
            },
        }
    } else {
        let rest = frames.drop_first();
        assert(frames[0] == s);
        let prev = frames[1];
        assert(next_frame(h, w, s) == Some(prev));
        assert forall|k: int| 0 <= k < rest.len() - 1 implies {
            let prev = stack_word(h, w, wrap(#[trigger] rest[k] + h.config.abi.gcframe_prev));
            &&& rest[k + 1] == prev
            &&& prev != 0 && h.readable(prev)
        } by {
            assert(rest[k] == frames[k + 1]);
        }
        assert(rest.last() == frames.last());
        lemma_chain_reaches(h, w, rest, (n - 1) as nat, x);
        lemma_either_list(own, chain_steps(h, w, prev, (n - 1) as nat), x);
    }
}

proof fn lemma_chain_found(h: HeapView, w: StackWindow, s: u64, n: nat, x: Step) -> (frames: Seq<
    u64,
>)
    requires
        chain_steps(h, w, s, n).contains(x),
    ensures
        is_chain(h, w, s, frames),
        frame_steps(h, w, frames.last()).contains(x),
    decreases n,
{
    let own = frame_steps(h, w, s);
    match next_frame(h, w, s) {
        None => {
            lemma_either_list(own, Seq::empty(), x);
            seq![s]
        },
        Some(prev) => {
            lemma_either_list(own, chain_steps(h, w, prev, (n - 1) as nat), x);
            if own.contains(x) {
                seq![s]
            } else {
                let rest = lemma_chain_found(h, w, prev, (n - 1) as nat, x);
                let frames = seq![s] + rest;
                assert forall|k: int| 0 <= k < frames.len() - 1 implies {
                    let prev = stack_word(
                        h,
                        w,
                        wrap(#[trigger] frames[k] + h.config.abi.gcframe_prev),
                    );
                    &&& frames[k + 1] == prev
                    &&& prev != 0 && h.readable(prev)
                } by {
                    if k > 0 {
                        assert(frames[k] == rest[k - 1]);
                        assert(frames[k + 1] == rest[k]);
                    }
                }
                frames
            }
        },
    }
}

/// The scan of a shadow stack takes the steps of a frame if and only if the frame is in the chain
/// that starts at the top of the stack; besides that it hands on the place of a stack buffer that
/// is in use and the slots of the exception stack, if there is one.
#[verifier::rlimit(40)]
pub proof fn lemma_stack_scan(h: HeapView, ta: u64, copy_stacks: bool, x: Step)
    requires
        stack_scannable(h, ta, copy_stacks),
    ensures
        ({
            let abi = h.config.abi;
            let w = stack_window(h, ta, copy_stacks);
            let top = h.word(wrap(ta + abi.task_gcstack));
            let exceptions = h.exception_slots_of(ta);
            gcstack_steps(h, ta, copy_stacks).contains(x) <==> {
                ||| copy_stacks && was_copied_out(h, ta) && x == Step::Slot(
                    wrap(ta + abi.task_stkbuf),
                )
                ||| top != 0 && h.readable(top) && exists|frames: Seq<u64>|
                    #[trigger] is_chain(h, w, top, frames) && frame_steps(
                        h,
                        w,
                        frames.last(),
                    ).contains(x)
                ||| h.word(wrap(ta + abi.task_excstack)) != 0 && exists|i: int|
                    0 <= i < exceptions.len() && x == Step::Slot(#[trigger] exceptions[i])
            }
        }),
{
    let abi = h.config.abi;
    let w = stack_window(h, ta, copy_stacks);
    let top = h.word(wrap(ta + abi.task_gcstack));
    let exceptions = h.exception_slots_of(ta);
    let first: Seq<Step> = if copy_stacks && was_copied_out(h, ta) {
        seq![Step::Slot(wrap(ta + abi.task_stkbuf))]
    } else {
        Seq::empty()
    };
    let middle = task_frame_steps(h, ta, copy_stacks);
    let last = exception_steps(h, ta);
    assert(copied_size(h, ta) == bytes_copied_out(h, ta));
    assert(gcstack_steps(h, ta, copy_stacks) == first + middle + last);
    lemma_either_list(first + middle, last, x);
    lemma_either_list(first, middle, x);
    if first.len() > 0 {
        assert(first[0] == Step::Slot(wrap(ta + abi.task_stkbuf)));
    }
    if top != 0 && h.readable(top) {
        let n = chain_bound(h, w, top);
        assert(chain_within(h, w, top, n));
        if middle.contains(x) {
            let frames = lemma_chain_found(h, w, top, n, x);
            assert(is_chain(h, w, top, frames));
        }
        if exists|frames: Seq<u64>|
            #[trigger] is_chain(h, w, top, frames) && frame_steps(h, w, frames.last()).contains(x) {
            let frames = choose|frames: Seq<u64>|
                #[trigger] is_chain(h, w, top, frames) && frame_steps(
                    h,
                    w,
                    frames.last(),
                ).contains(x);
            lemma_chain_reaches(h, w, frames, n, x);
        }
    }
    if exists|i: int| 0 <= i < exceptions.len() && x == Step::Slot(#[trigger] exceptions[i]) {
        let i = choose|i: int|
            0 <= i < exceptions.len() && x == Step::Slot(#[trigger] exceptions[i]);
        if h.word(wrap(ta + abi.task_excstack)) != 0 {
            assert(last[i] == x);
        }
    }
}

/// The number of roots of a frame: the word behind its first, without its two low bits, in fours.
pub open spec fn root_word(h: HeapView, w: StackWindow, s: u64) -> u64 {
    stack_word(h, w, wrap(s + h.config.abi.gcframe_nroots))
}

/// The `i`-th root of a frame, sixteen bytes and `i` words into the frame.
pub open spec fn root_at(h: HeapView, w: StackWindow, s: u64, i: int) -> u64 {
    stack_word(h, w, wrap(s + 16 + 8 * i))
}

proof fn lemma_root_place(s: u64, i: int)
    ensures
        wrap(wrap(s + 16) + 8 * i) == wrap(s + 16 + 8 * i),
{
    lemma_wrap_twice(s + 16, 8 * i);
}

proof fn lemma_indirect_roots(h: HeapView, w: StackWindow, s: u64, i: int, x: Step)
    requires
        0 <= i,
        root_word(h, w, s) % 2 == 1,
    ensures
        root_steps(h, w, wrap(s + 16), root_word(h, w, s), i).contains(x) <==> exists|k: int|
            {
                &&& i <= k < root_word(h, w, s) / 4
                &&& stack_addr(w, #[trigger] root_at(h, w, s, k)) != 0
                &&& x == Step::Visit(simple(stack_addr(w, root_at(h, w, s, k))))
            },
    decreases root_word(h, w, s) / 4 + 1 - i,
{
    let n = root_word(h, w, s);
    let steps = root_steps(h, w, wrap(s + 16), n, i);
    assert(n & 1 == n % 2) by (bit_vector);
    lemma_root_place(s, i);
    if i < n / 4 {
        let value = root_at(h, w, s, i);
        let own = slot_report(stack_addr(w, value));
        let rest = root_steps(h, w, wrap(s + 16), n, i + 1);
        lemma_indirect_roots(h, w, s, i + 1, x);
        assert(steps == own + rest);
        lemma_either_list(own, rest, x);
        if stack_addr(w, value) != 0 {
            assert(own[0] == Step::Visit(simple(stack_addr(w, value))));
        }
    }
}

/// In a frame of slots, which an odd root word marks, each root is the address of a slot: that slot
/// is reported, unless there is none, and nothing else is.
pub proof fn lemma_frame_of_slots(h: HeapView, w: StackWindow, s: u64, x: Step)
    requires
        root_word(h, w, s) % 2 == 1,
    ensures
        frame_steps(h, w, s).contains(x) <==> exists|k: int|
            {
                &&& 0 <= k < root_word(h, w, s) / 4
                &&& stack_addr(w, #[trigger] root_at(h, w, s, k)) != 0
                &&& x == Step::Visit(simple(stack_addr(w, root_at(h, w, s, k))))
            },
{
    lemma_indirect_roots(h, w, s, 0, x);
}

/// A walk over the roots of a frame of values: after a root with its lowest bit set the next one is
/// passed over.
pub open spec fn is_walk(h: HeapView, w: StackWindow, s: u64, at: Seq<int>) -> bool {
    &&& at.len() > 0
    &&& at[0] == 0
    &&& forall|k: int|
        0 <= k < at.len() - 1 ==> at[k + 1] == #[trigger] at[k] + (if root_at(h, w, s, at[k]) % 2
            == 0 {
            1int
        } else {
            2
        })
}

/// What the root of a frame of values at an index gives rise to: a plain root is reported as the
/// slot that it is, a root with its lowest bit alone is reported as a pointer one byte into its
/// object, if it can be read, and a root with both low bits is passed over.
pub open spec fn is_root_report(h: HeapView, w: StackWindow, s: u64, i: int, x: Step) -> bool {
    let value = root_at(h, w, s, i);
    let place = stack_addr(w, wrap(s + 16 + 8 * i));
    ||| value % 2 == 0 && x == Step::Visit(simple(place))
    ||| {
        &&& value % 4 == 1
        &&& place != 0
        &&& h.is_in_spaces(place) || h.readable(place)
        &&& x == Step::Visit(JuliaVMSlot::Offset(OffsetSlot { slot_addr: place, offset: 1 }))
    }
}

proof fn lemma_low_bits(value: u64)
    ensures
        value & 3 == value % 4,
        value & 1 == value % 2,
{
    assert(value & 3 == value % 4) by (bit_vector);
    assert(value & 1 == value % 2) by (bit_vector);
}

/// The roots of a frame of values are taken in order: a plain root is reported and the next one
/// follows; a root with its lowest bit alone is reported as a pointer into its object and the next
/// one is passed over; a root with both low bits is passed over with the next one.
pub proof fn lemma_roots_unfold(h: HeapView, w: StackWindow, s: u64, i: int)
    requires
        0 <= i < root_word(h, w, s) / 4,
        root_word(h, w, s) % 2 == 0,
    ensures
        ({
            let n = root_word(h, w, s);
            let roots = wrap(s + 16);
            let value = root_at(h, w, s, i);
            let place = stack_addr(w, wrap(s + 16 + 8 * i));
            &&& value % 4 == 3 ==> root_steps(h, w, roots, n, i) == root_steps(
                h,
                w,
                roots,
                n,
                i + 2,
            )
            &&& value % 4 == 1 ==> root_steps(h, w, roots, n, i) == offset_slot_steps(h, place, 1)
                + root_steps(h, w, roots, n, i + 2)
            &&& value % 2 == 0 ==> root_steps(h, w, roots, n, i) == seq![Step::Visit(simple(place))]
                + root_steps(h, w, roots, n, i + 1)
        }),
{
    lemma_root_place(s, i);
    lemma_low_bits(root_word(h, w, s));
    lemma_low_bits(root_at(h, w, s, i));
}

/// Where a walk over the roots of a frame of values goes on behind a root.
pub open spec fn behind(h: HeapView, w: StackWindow, s: u64, i: int) -> int {
    if root_at(h, w, s, i) % 2 == 0 {
        i + 1
    } else {
        i + 2
    }
}

/// Whether a step is among those for the roots of a frame from one of them on.
#[verifier::opaque]
spec fn is_later(h: HeapView, w: StackWindow, s: u64, i: int, x: Step) -> bool {
    root_steps(h, w, wrap(s + 16), root_word(h, w, s), i).contains(x)
}

proof fn lemma_skipped_root(h: HeapView, w: StackWindow, s: u64, i: int, x: Step)
    requires
        0 <= i < root_word(h, w, s) / 4,
        root_word(h, w, s) % 2 == 0,
        root_at(h, w, s, i) % 4 == 3,
    ensures
        is_later(h, w, s, i, x) <==> is_later(h, w, s, i + 2, x),
{
    reveal(is_later);
    lemma_roots_unfold(h, w, s, i);
}

proof fn lemma_tagged_root(h: HeapView, w: StackWindow, s: u64, i: int, x: Step)
    requires
        0 <= i < root_word(h, w, s) / 4,
        root_word(h, w, s) % 2 == 0,
        root_at(h, w, s, i) % 4 == 1,
    ensures
        is_later(h, w, s, i, x) <==> offset_slot_steps(
            h,
            stack_addr(w, wrap(s + 16 + 8 * i)),
            1,
        ).contains(x) || is_later(h, w, s, i + 2, x),
{
    reveal(is_later);
    let n = root_word(h, w, s);
    let place = stack_addr(w, wrap(s + 16 + 8 * i));
    lemma_roots_unfold(h, w, s, i);
    lemma_either_list(
        offset_slot_steps(h, place, 1),
        root_steps(h, w, wrap(s + 16), n, i + 2),
        x,
    );
}

proof fn lemma_plain_root(h: HeapView, w: StackWindow, s: u64, i: int, x: Step)
    requires
        0 <= i < root_word(h, w, s) / 4,
        root_word(h, w, s) % 2 == 0,
        root_at(h, w, s, i) % 2 == 0,
    ensures
        is_later(h, w, s, i, x) <==> x == Step::Visit(
            simple(stack_addr(w, wrap(s + 16 + 8 * i))),
        ) || is_later(h, w, s, i + 1, x),
{
    reveal(is_later);
    let n = root_word(h, w, s);
    let place = stack_addr(w, wrap(s + 16 + 8 * i));
    lemma_roots_unfold(h, w, s, i);
    lemma_either_list(
        seq![Step::Visit(simple(place))],
        root_steps(h, w, wrap(s + 16), n, i + 1),
        x,
    );
    lemma_lone_step(Step::Visit(simple(place)), x);
}

/// One root of a frame of values: what it gives rise to, and where the walk goes on.
proof fn lemma_one_root(h: HeapView, w: StackWindow, s: u64, i: int, x: Step)
    requires
        0 <= i < root_word(h, w, s) / 4,
        root_word(h, w, s) % 2 == 0,
    ensures
        is_later(h, w, s, i, x) <==> is_root_report(h, w, s, i, x) || is_later(
            h,
            w,
            s,
            behind(h, w, s, i),
            x,
        ),
{
    let value = root_at(h, w, s, i);
    if value % 2 == 0 {
        lemma_plain_root(h, w, s, i, x);
    } else if value % 4 == 1 {
        lemma_tagged_root(h, w, s, i, x);
        lemma_offset_report(h, stack_addr(w, wrap(s + 16 + 8 * i)), x);
    } else {
        lemma_skipped_root(h, w, s, i, x);
    }
}

proof fn lemma_lone_step(y: Step, x: Step)
    ensures
        seq![y].contains(x) <==> x == y,
{
    assert(seq![y][0] == y);
}

proof fn lemma_offset_report(h: HeapView, place: u64, x: Step)
    ensures
        offset_slot_steps(h, place, 1).contains(x) <==> {
            &&& place != 0
            &&& h.is_in_spaces(place) || h.readable(place)
            &&& x == Step::Visit(JuliaVMSlot::Offset(OffsetSlot { slot_addr: place, offset: 1 }))
        },
{
    lemma_lone_step(
        Step::Visit(JuliaVMSlot::Offset(OffsetSlot { slot_addr: place, offset: 1 })),
        x,
    );
}

proof fn lemma_walk_found(h: HeapView, w: StackWindow, s: u64, at: Seq<int>, x: Step) -> (r: Seq<
    int,
>)
    requires
        root_word(h, w, s) % 2 == 0,
        is_walk(h, w, s, at),
        at.last() >= 0,
        is_later(h, w, s, at.last(), x),
    ensures
        is_walk(h, w, s, r),
        0 <= r.last() < root_word(h, w, s) / 4,
        is_root_report(h, w, s, r.last(), x),
    decreases root_word(h, w, s) / 4 + 2 - at.last(),
{
    let i = at.last();
    assert(i < root_word(h, w, s) / 4) by {
        reveal(is_later);
    }
    lemma_one_root(h, w, s, i, x);
    if is_root_report(h, w, s, i, x) {
        at
    } else {
        let next = behind(h, w, s, i);
        let longer = at.push(next);
        assert forall|k: int| 0 <= k < longer.len() - 1 implies longer[k + 1]
            == #[trigger] longer[k] + (if root_at(h, w, s, longer[k]) % 2 == 0 {
            1int
        } else {
            2
        }) by {
            assert(longer[k] == at[k]);
        }
        lemma_walk_found(h, w, s, longer, x)
    }
}

proof fn lemma_walk_counts(h: HeapView, w: StackWindow, s: u64, at: Seq<int>, k: int, x: Step)
    requires
        root_word(h, w, s) % 2 == 0,
        is_walk(h, w, s, at),
        0 <= k < at.len(),
        at.last() < root_word(h, w, s) / 4,
        is_root_report(h, w, s, at.last(), x),
    ensures
        0 <= at[k] <= at.last(),
        is_later(h, w, s, at[k], x),
    decreases at.len() - k,
{
    lemma_walk_rises(h, w, s, at, 0, k);
    lemma_walk_rises(h, w, s, at, k, at.len() - 1);
    lemma_one_root(h, w, s, at[k], x);
    if k < at.len() - 1 {
        lemma_walk_counts(h, w, s, at, k + 1, x);
    }
}

proof fn lemma_walk_rises(h: HeapView, w: StackWindow, s: u64, at: Seq<int>, j: int, k: int)
    requires
        is_walk(h, w, s, at),
        0 <= j <= k < at.len(),
    ensures
        at[j] <= at[k],
    decreases k - j,
{
    if j < k {
        lemma_walk_rises(h, w, s, at, j, k - 1);
        assert(at[k - 1 + 1] == at[k]);
    }
}

/// In a frame of values, which an even root word marks, the roots that a walk reaches are reported,
/// each as its low bits say, and nothing else is.
pub proof fn lemma_frame_of_values(h: HeapView, w: StackWindow, s: u64, x: Step)
    requires
        root_word(h, w, s) % 2 == 0,
    ensures
        frame_steps(h, w, s).contains(x) <==> exists|at: Seq<int>|
            {
                &&& #[trigger] is_walk(h, w, s, at)
                &&& 0 <= at.last() < root_word(h, w, s) / 4
                &&& is_root_report(h, w, s, at.last(), x)
            },
{
    assert(frame_steps(h, w, s).contains(x) == is_later(h, w, s, 0, x)) by {
        reveal(is_later);
    }
    if frame_steps(h, w, s).contains(x) {
        let start = seq![0int];
        assert(is_walk(h, w, s, start));
        let at = lemma_walk_found(h, w, s, start, x);
        assert(is_walk(h, w, s, at));
    }
    if exists|at: Seq<int>|
        {
            &&& #[trigger] is_walk(h, w, s, at)
            &&& 0 <= at.last() < root_word(h, w, s) / 4
            &&& is_root_report(h, w, s, at.last(), x)
        } {
        let at = choose|at: Seq<int>|
            {
                &&& #[trigger] is_walk(h, w, s, at)
                &&& 0 <= at.last() < root_word(h, w, s) / 4
                &&& is_root_report(h, w, s, at.last(), x)
            };
        lemma_walk_counts(h, w, s, at, 0, x);
    }
}

/// Every root of a frame of values without low bits is reported with its actual address.
pub proof fn lemma_frame_of_plain_values(h: HeapView, w: StackWindow, s: u64, i: int)
    requires
        root_word(h, w, s) % 2 == 0,
        0 <= i < root_word(h, w, s) / 4,
        forall|k: int| 0 <= k <= i ==> #[trigger] root_at(h, w, s, k) % 2 == 0,
    ensures
        frame_steps(h, w, s).contains(Step::Visit(simple(stack_addr(w, wrap(s + 16 + 8 * i))))),
{
    let at = Seq::new((i + 1) as nat, |k: int| k);
    assert forall|k: int| 0 <= k < at.len() - 1 implies at[k + 1] == #[trigger] at[k] + (if root_at(
        h,
        w,
        s,
        at[k],
    ) % 2 == 0 {
        1int
    } else {
        2
    }) by {
        assert(root_at(h, w, s, k) % 2 == 0);
    }
    assert(is_walk(h, w, s, at));
    assert(at.last() == i);
    assert(root_at(h, w, s, i) % 2 == 0);
    lemma_frame_of_values(h, w, s, Step::Visit(simple(stack_addr(w, wrap(s + 16 + 8 * i)))));
}

/// Whether a frame encloses no other: the word that would name it is zero or names what cannot be
/// read.
pub open spec fn is_outermost(h: HeapView, w: StackWindow, s: u64) -> bool {
    let prev = stack_word(h, w, wrap(s + h.config.abi.gcframe_prev));
    prev == 0 || !h.readable(prev)
}

/// Whether some chain of at most `n` frames leads from a frame to an outermost one.
pub open spec fn ends_within(h: HeapView, w: StackWindow, s: u64, n: nat) -> bool {
    exists|frames: Seq<u64>|
        {
            &&& #[trigger] is_chain(h, w, s, frames)
            &&& frames.len() <= n
            &&& is_outermost(h, w, frames.last())
        }
}

proof fn lemma_chain_ends(h: HeapView, w: StackWindow, s: u64, n: nat)
    ensures
        chain_within(h, w, s, n) <==> ends_within(h, w, s, n),
    decreases n,
{
    if n > 0 {
        match next_frame(h, w, s) {
            None => {
                let frames = seq![s];
                assert(is_chain(h, w, s, frames));
                assert(is_outermost(h, w, frames.last()));
            },
            Some(prev) => {
                let m = (n - 1) as nat;
                lemma_chain_ends(h, w, prev, m);
                if ends_within(h, w, prev, m) {
                    let rest = choose|frames: Seq<u64>|
                        {
                            &&& #[trigger] is_chain(h, w, prev, frames)
                            &&& frames.len() <= m
                            &&& is_outermost(h, w, frames.last())
                        };
                    let frames = seq![s] + rest;
                    assert forall|k: int| 0 <= k < frames.len() - 1 implies {
                        let prev = stack_word(
                            h,
                            w,
                            wrap(#[trigger] frames[k] + h.config.abi.gcframe_prev),
                        );
                        &&& frames[k + 1] == prev
                        &&& prev != 0 && h.readable(prev)
                    } by {
                        if k > 0 {
                            assert(frames[k] == rest[k - 1]);
                            assert(frames[k + 1] == rest[k]);
                        }
                    }
                    assert(is_chain(h, w, s, frames));
                    assert(frames.last() == rest.last());
                }
                if ends_within(h, w, s, n) {
                    let frames = choose|frames: Seq<u64>|
                        {
                            &&& #[trigger] is_chain(h, w, s, frames)
                            &&& frames.len() <= n
                            &&& is_outermost(h, w, frames.last())
                        };
                    assert(frames[0] == s);
                    assert(frames.len() > 1);
                    let rest = frames.drop_first();
                    assert forall|k: int| 0 <= k < rest.len() - 1 implies {
                        let prev = stack_word(
                            h,
                            w,
                            wrap(#[trigger] rest[k] + h.config.abi.gcframe_prev),
                        );
                        &&& rest[k + 1] == prev
                        &&& prev != 0 && h.readable(prev)
                    } by {
                        assert(rest[k] == frames[k + 1]);
                    }
                    assert(is_chain(h, w, prev, rest));
                    assert(rest.last() == frames.last());
                }
            },
        }
    } else if ends_within(h, w, s, n) {
        let frames = choose|frames: Seq<u64>|
            {
                &&& #[trigger] is_chain(h, w, s, frames)
                &&& frames.len() <= n
                &&& is_outermost(h, w, frames.last())
            };
        assert(frames.len() > 0);
    }
}

/// A shadow stack passes the test for a number of frames if and only if its frames end within that
/// number and, where it is read from a buffer, its task belongs to a thread: a negative id, with
/// its highest bit set, is that of none.
pub proof fn lemma_stack_test(h: HeapView, ta: u64, copy_stacks: bool, n: nat)
    ensures
        ({
            let w = stack_window(h, ta, copy_stacks);
            let top = h.word(wrap(ta + h.config.abi.task_gcstack));
            stack_scannable_within(h, ta, copy_stacks, n) <==> {
                &&& is_in_place(h, ta, copy_stacks) || h.half(wrap(ta + h.config.abi.task_tid))
                    < 0x8000
                &&& top == 0 || !h.readable(top) || ends_within(h, w, top, n)
            }
        }),
        stack_scannable_within(h, ta, copy_stacks, n) ==> stack_scannable(h, ta, copy_stacks),
{
    let w = stack_window(h, ta, copy_stacks);
    let top = h.word(wrap(ta + h.config.abi.task_gcstack));
    lemma_chain_ends(h, w, top, n);
    assert(copied_size(h, ta) == bytes_copied_out(h, ta));
}

/// The roots of a frame end behind the number that the root word names; in a frame of slots each
/// root is followed by the next.
pub proof fn lemma_order_of_slots(h: HeapView, w: StackWindow, s: u64, i: int)
    requires
        0 <= i,
    ensures
        ({
            let n = root_word(h, w, s);
            let roots = wrap(s + 16);
            let place = stack_addr(w, root_at(h, w, s, i));
            let steps = root_steps(h, w, roots, n, i);
            &&& i >= n / 4 ==> steps.len() == 0
            &&& i < n / 4 && n % 2 == 1 && place == 0 ==> steps == root_steps(
                h,
                w,
                roots,
                n,
                i + 1,
            )
            &&& i < n / 4 && n % 2 == 1 && place != 0 ==> steps == seq![
                Step::Visit(simple(place)),
            ] + root_steps(h, w, roots, n, i + 1)
            &&& frame_steps(h, w, s) == root_steps(h, w, roots, n, 0)
        }),
{
    lemma_root_place(s, i);
    lemma_low_bits(root_word(h, w, s));
    let rest = root_steps(h, w, wrap(s + 16), root_word(h, w, s), i + 1);
    assert(Seq::<Step>::empty() + rest =~= rest);
}

/// The steps of frames, one frame after the other.
pub open spec fn steps_of_frames(h: HeapView, w: StackWindow, frames: Seq<u64>) -> Seq<Step>
    decreases frames.len(),
{
    if frames.len() == 0 {
        seq![]
    } else {
        frame_steps(h, w, frames[0]) + steps_of_frames(h, w, frames.drop_first())
    }
}

proof fn lemma_frames_in_order(h: HeapView, w: StackWindow, frames: Seq<u64>, n: nat)
    requires
        is_chain(h, w, frames[0], frames),
        is_outermost(h, w, frames.last()),
        chain_within(h, w, frames[0], n),
    ensures
        chain_steps(h, w, frames[0], n) == steps_of_frames(h, w, frames),
    decreases n,
{
    let s = frames[0];
    let own = frame_steps(h, w, s);
    let rest = frames.drop_first();
    if frames.len() == 1 {
        assert(next_frame(h, w, s) is None);
        assert(steps_of_frames(h, w, rest) =~= Seq::<Step>::empty());
    } else {
        assert(frames[0] == s);
        assert(next_frame(h, w, s) == Some(frames[1]));
        assert forall|k: int| 0 <= k < rest.len() - 1 implies {
            let prev = stack_word(h, w, wrap(#[trigger] rest[k] + h.config.abi.gcframe_prev));
            &&& rest[k + 1] == prev
            &&& prev != 0 && h.readable(prev)
        } by {
            assert(rest[k] == frames[k + 1]);
        }
        assert(rest[0] == frames[1]);
        assert(rest.last() == frames.last());
        lemma_frames_in_order(h, w, rest, (n - 1) as nat);
    }
}

/// A shadow stack is scanned in this order: the place of its buffer, if that is in use, its frames
/// from the innermost out, and its exceptions; each once.
#[verifier::rlimit(40)]
pub proof fn lemma_order_in_a_stack(h: HeapView, ta: u64, copy_stacks: bool, frames: Seq<u64>)
    requires
        stack_scannable(h, ta, copy_stacks),
        ({
            let w = stack_window(h, ta, copy_stacks);
            let top = h.word(wrap(ta + h.config.abi.task_gcstack));
            if top != 0 && h.readable(top) {
                is_chain(h, w, top, frames) && is_outermost(h, w, frames.last())
            } else {
                frames.len() == 0
            }
        }),
    ensures
        ({
            let abi = h.config.abi;
            let w = stack_window(h, ta, copy_stacks);
            let buffer = if copy_stacks && was_copied_out(h, ta) {
                seq![Step::Slot(wrap(ta + abi.task_stkbuf))]
            } else {
                seq![]
            };
            let exceptions = if h.word(wrap(ta + abi.task_excstack)) != 0 {
                h.exception_slots_of(ta).map_values(|a: u64| Step::Slot(a))
            } else {
                seq![]
            };
            gcstack_steps(h, ta, copy_stacks) == buffer + steps_of_frames(h, w, frames) + exceptions
        }),
{
    let abi = h.config.abi;
    let w = stack_window(h, ta, copy_stacks);
    let top = h.word(wrap(ta + abi.task_gcstack));
    assert(copied_size(h, ta) == bytes_copied_out(h, ta));
    if top != 0 && h.readable(top) {
        let n = chain_bound(h, w, top);
        assert(chain_within(h, w, top, n));
        lemma_frames_in_order(h, w, frames, n);
        assert(task_frame_steps(h, ta, copy_stacks) == steps_of_frames(h, w, frames));
    } else {
        assert(task_frame_steps(h, ta, copy_stacks) =~= steps_of_frames(h, w, frames));
    }
    if h.word(wrap(ta + abi.task_excstack)) != 0 {
        assert(exception_steps(h, ta) =~= h.exception_slots_of(ta).map_values(
            |a: u64| Step::Slot(a),
        ));
    } else {
        assert(exception_steps(h, ta) =~= Seq::<Step>::empty());
    }
}

} // verus!
