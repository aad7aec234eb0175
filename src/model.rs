//! An abstract page: the reservation counter, the slot cells and the record
//! buffer as plain values, changed by pushes and by readers that meet the
//! terminator exactly as a data page changes them. The laws of the page are
//! stated and proved over it.
use vstd::arithmetic::div_mod::lemma_fundamental_div_mod_converse;
use vstd::prelude::*;

use crate::datapage::{slot_read, SlotRead};
use crate::frame::{frame, frame_at, lemma_frame_round_trip, lemma_frame_untouched, overwrite};
use crate::layout::{
    count_of, push_plan, reservation_delta, salted, slot_state, word, write_idx_of, Geometry,
    PushPlan, SlotState, TERMINATOR,
};

verus! {

/// The shared state of one page.
pub struct PageModel {
    pub counter: u64,
    pub slots: Seq<u32>,
    pub buf: Seq<u8>,
}

/// A freshly created page: every cell and byte is zero.
pub open spec fn fresh_page(g: Geometry) -> PageModel {
    PageModel {
        counter: 0,
        slots: Seq::new(g.max_messages as nat, |i: int| 0u32),
        buf: Seq::new(g.max_bytes as nat, |i: int| 0u8),
    }
}

/// Length of the stored frame of a payload of `len` bytes.
pub open spec fn full_len(len: nat) -> u32 {
    (len + 4) as u32
}

/// One push of `d`: the atomic add on the counter, then what the plan for
/// the reservation says.
pub open spec fn model_push(m: PageModel, d: Seq<u8>, g: Geometry) -> PageModel {
    let full = full_len(d.len());
    let counter = ((m.counter as int + reservation_delta(full) as int) % (word() * word())) as u64;
    match push_plan(write_idx_of(m.counter), count_of(m.counter), full, g) {
        PushPlan::SlotsExhausted => PageModel { counter, slots: m.slots, buf: m.buf },
        PushPlan::BytesExhausted { slot } => PageModel {
            counter,
            slots: m.slots.update(slot as int, TERMINATOR),
            buf: m.buf,
        },
        PushPlan::Write { slot, offset } => PageModel {
            counter,
            slots: m.slots.update(slot as int, salted(offset)),
            buf: overwrite(m.buf, offset as int, frame(d)),
        },
    }
}

/// A read of slot `c`, ignoring the hand-on of the terminator.
pub open spec fn model_read(m: PageModel, c: int, g: Geometry) -> SlotRead {
    if c < 0 || c >= g.max_messages {
        SlotRead::End
    } else {
        slot_read(m.buf, m.slots[c], g.max_bytes)
    }
}

/// A reader of slot `c` that meets the terminator hands it on to `c + 1`.
pub open spec fn model_observe(m: PageModel, c: int, g: Geometry) -> PageModel {
    if 0 <= c && c + 1 < g.max_messages && slot_state(m.slots[c], g.max_bytes)
        == SlotState::Terminated {
        PageModel { counter: m.counter, slots: m.slots.update(c + 1, TERMINATOR), buf: m.buf }
    } else {
        m
    }
}

/// Readers of slots `c`, `c + 1`, ..., `last - 1`, one after another.
pub open spec fn model_cascade(m: PageModel, c: int, last: int, g: Geometry) -> PageModel
    decreases last - c,
{
    if last <= c {
        m
    } else {
        model_observe(model_cascade(m, c, last - 1, g), last - 1, g)
    }
}

/// The page after the first `k` of the pushes `ds`, on a fresh page.
pub open spec fn state_after(ds: Seq<Seq<u8>>, k: int, g: Geometry) -> PageModel
    decreases k,
{
    if k <= 0 {
        fresh_page(g)
    } else {
        model_push(state_after(ds, k - 1, g), ds[k - 1], g)
    }
}

/// Bytes reserved by the first `k` pushes of `ds`.
pub open spec fn frames_before(ds: Seq<Seq<u8>>, k: int) -> int
    decreases k,
{
    if k <= 0 {
        0
    } else {
        frames_before(ds, k - 1) + ds[k - 1].len() + 4
    }
}

/// The reservation `(write_idx, count)` that push `k` of `ds` obtained.
pub open spec fn reservation(ds: Seq<Seq<u8>>, k: int, g: Geometry) -> (u32, u32) {
    let prior = state_after(ds, k, g).counter;
    (write_idx_of(prior), count_of(prior))
}

/// The pushes `ds` stay clear of counter overflow: their frames together fit
/// the 32-bit write index and their number fits the 32-bit slot count.
pub open spec fn no_wrap(ds: Seq<Seq<u8>>) -> bool {
    &&& frames_before(ds, ds.len() as int) < word()
    &&& ds.len() < word()
}

proof fn lemma_frames_monotone(ds: Seq<Seq<u8>>, i: int, j: int)
    requires
        0 <= i <= j <= ds.len(),
    ensures
        frames_before(ds, i) <= frames_before(ds, j),
    decreases j - i,
{
    if i < j {
        lemma_frames_monotone(ds, i, j - 1);
    }
}

proof fn lemma_counter(ds: Seq<Seq<u8>>, k: int, g: Geometry)
    requires
        0 <= k <= ds.len(),
        no_wrap(ds),
    ensures
        state_after(ds, k, g).counter as int == frames_before(ds, k) * word() + k,
        reservation(ds, k, g) == (frames_before(ds, k) as u32, k as u32),
    decreases k,
{
    lemma_frames_monotone(ds, k, ds.len() as int);
    if k > 0 {
        lemma_counter(ds, k - 1, g);
        lemma_frames_monotone(ds, k - 1, k);
        let fb = frames_before(ds, k - 1);
        let f = ds[k - 1].len() + 4;
        assert(fb * word() + f * word() == (fb + f) * word()) by (nonlinear_arith);
        assert(frames_before(ds, k) * word() + k < word() * word()) by (nonlinear_arith)
            requires
                frames_before(ds, k) < word(),
                k < word(),
                word() == 0x1_0000_0000,
        ;
    }
    let c = state_after(ds, k, g).counter as int;
    lemma_fundamental_div_mod_converse(c, word(), frames_before(ds, k), k);
}

/// Reservations never collide: two pushes get different slots, and the
/// byte range `[write_idx, write_idx + frame length)` of the earlier one ends
/// where the later one's can start at the earliest.
pub proof fn lemma_reservations_disjoint(ds: Seq<Seq<u8>>, i: int, j: int, g: Geometry)
    requires
        0 <= i < j < ds.len(),
        no_wrap(ds),
    ensures
        reservation(ds, i, g).1 != reservation(ds, j, g).1,
        reservation(ds, i, g).0 + ds[i].len() + 4 <= reservation(ds, j, g).0,
{
    lemma_counter(ds, i, g);
    lemma_counter(ds, j, g);
    lemma_frames_monotone(ds, i + 1, j);
    lemma_frames_monotone(ds, j, ds.len() as int);
}

/// The plan that push `k` of `ds` carried out.
pub open spec fn plan_of(ds: Seq<Seq<u8>>, k: int, g: Geometry) -> PushPlan {
    push_plan(reservation(ds, k, g).0, reservation(ds, k, g).1, full_len(ds[k].len()), g)
}

proof fn lemma_shape(ds: Seq<Seq<u8>>, k: int, g: Geometry)
    requires
        0 <= k <= ds.len(),
    ensures
        state_after(ds, k, g).slots.len() == g.max_messages,
        state_after(ds, k, g).buf.len() == g.max_bytes,
    decreases k,
{
    if k > 0 {
        lemma_shape(ds, k - 1, g);
    }
}

proof fn lemma_frame_fits(ds: Seq<Seq<u8>>, k: int)
    requires
        0 <= k < ds.len(),
        no_wrap(ds),
    ensures
        frames_before(ds, k) + ds[k].len() + 4 < word(),
        full_len(ds[k].len()) as int == ds[k].len() + 4,
{
    lemma_frames_monotone(ds, k + 1, ds.len() as int);
    lemma_frames_monotone(ds, 0, k);
}

/// What slot cell `c` holds after the first `k` pushes: zero until a push
/// reserves the slot, then the salted offset or the terminator.
proof fn lemma_slot_value(ds: Seq<Seq<u8>>, k: int, c: int, g: Geometry)
    requires
        0 <= k <= ds.len(),
        0 <= c < g.max_messages,
        no_wrap(ds),
    ensures
        state_after(ds, k, g).slots[c] == if c < k {
            match plan_of(ds, c, g) {
                PushPlan::Write { slot, offset } => salted(offset),
                _ => TERMINATOR,
            }
        } else {
            0u32
        },
    decreases k,
{
    if k > 0 {
        lemma_slot_value(ds, k - 1, c, g);
        lemma_counter(ds, k - 1, g);
        lemma_shape(ds, k - 1, g);
        if c == k - 1 {
            lemma_frame_fits(ds, c);
        }
    }
}

/// On a page that only pushes have touched, a slot that no push has
/// reserved yet reads as unpublished; in particular every slot of a fresh
/// page does.
pub proof fn lemma_unreserved_slot_pending(ds: Seq<Seq<u8>>, k: int, c: int, g: Geometry)
    requires
        0 <= k <= ds.len(),
        k <= c < g.max_messages,
        no_wrap(ds),
    ensures
        model_read(state_after(ds, k, g), c, g) == SlotRead::Pending,
{
    lemma_slot_value(ds, k, c, g);
}

/// A message that a push published reads back, unchanged, from its slot
/// after any number of further pushes.
pub proof fn lemma_payload_fidelity(ds: Seq<Seq<u8>>, i: int, k: int, g: Geometry)
    requires
        0 <= i < k <= ds.len(),
        no_wrap(ds),
        plan_of(ds, i, g) is Write,
    ensures
        reservation(ds, i, g).1 == i,
        model_read(state_after(ds, k, g), i, g) == SlotRead::Message(ds[i]),
    decreases k,
{
    lemma_counter(ds, i, g);
    lemma_frame_fits(ds, i);
    lemma_shape(ds, k - 1, g);
    lemma_slot_value(ds, k, i, g);
    lemma_slot_value(ds, k - 1, i, g);
    let off = frames_before(ds, i);
    if k == i + 1 {
        lemma_frame_round_trip(state_after(ds, i, g).buf, off, ds[i]);
    } else {
        lemma_payload_fidelity(ds, i, k - 1, g);
        lemma_counter(ds, k - 1, g);
        lemma_frame_fits(ds, k - 1);
        lemma_frames_monotone(ds, i + 1, k - 1);
        let prev = state_after(ds, k - 1, g);
        assert(frame_at(prev.buf, off) == Some(ds[i]));
        match plan_of(ds, k - 1, g) {
            PushPlan::Write { slot, offset } => {
                lemma_frame_untouched(prev.buf, off, offset as int, frame(ds[k - 1]));
            },
            _ => {},
        }
    }
}

/// Pushes that all succeed on one page are all recoverable from it, each
/// from the slot of its turn.
pub proof fn lemma_no_message_loss(ds: Seq<Seq<u8>>, g: Geometry)
    requires
        no_wrap(ds),
        forall|i: int| 0 <= i < ds.len() ==> (#[trigger] plan_of(ds, i, g)) is Write,
    ensures
        forall|i: int|
            0 <= i < ds.len() ==> #[trigger] model_read(state_after(ds, ds.len() as int, g), i, g)
                == SlotRead::Message(ds[i]),
{
    assert forall|i: int| 0 <= i < ds.len() implies #[trigger] model_read(
        state_after(ds, ds.len() as int, g),
        i,
        g,
    ) == SlotRead::Message(ds[i]) by {
        assert(plan_of(ds, i, g) is Write);
        lemma_payload_fidelity(ds, i, ds.len() as int, g);
    }
}

/// Once a push has made slot `c` the terminator, no later slot of the page
/// ever holds a published message.
pub proof fn lemma_nothing_published_past_terminator(
    ds: Seq<Seq<u8>>,
    k: int,
    c: int,
    j: int,
    g: Geometry,
)
    requires
        0 <= k <= ds.len(),
        0 <= c < j < g.max_messages,
        no_wrap(ds),
        slot_state(state_after(ds, k, g).slots[c], g.max_bytes) == SlotState::Terminated,
    ensures
        !(slot_state(state_after(ds, k, g).slots[j], g.max_bytes) is Published),
{
    lemma_slot_value(ds, k, c, g);
    lemma_slot_value(ds, k, j, g);
    if j < k {
        lemma_counter(ds, c, g);
        lemma_counter(ds, j, g);
        lemma_frame_fits(ds, c);
        lemma_frame_fits(ds, j);
        lemma_frames_monotone(ds, c + 1, j);
        match plan_of(ds, c, g) {
            PushPlan::Write { slot, offset } => {
                assert(slot_state(salted(offset), g.max_bytes) is Published);
            },
            _ => {},
        }
    }
}

/// Readers that meet the terminator at `c` and hand it on carry it to every
/// later slot in turn.
pub proof fn lemma_cascade_reaches(m: PageModel, c: int, last: int, g: Geometry)
    requires
        0 <= c < last < g.max_messages,
        m.slots.len() == g.max_messages,
        slot_state(m.slots[c], g.max_bytes) == SlotState::Terminated,
    ensures
        model_cascade(m, c, last, g).slots.len() == g.max_messages,
        slot_state(model_cascade(m, c, last, g).slots[last], g.max_bytes) == SlotState::Terminated,
        model_read(model_cascade(m, c, last, g), last, g) == SlotRead::End,
    decreases last - c,
{
    if last - 1 > c {
        lemma_cascade_reaches(m, c, last - 1, g);
    } else {
        assert(model_cascade(m, c, c, g) == m);
    }
}

/// The terminator closes the page: after a push made slot `c` the
/// terminator, no later slot holds a message, and readers that hand it on
/// make every later slot read as the end of the page.
pub proof fn lemma_terminator_closure(ds: Seq<Seq<u8>>, k: int, c: int, last: int, g: Geometry)
    requires
        0 <= k <= ds.len(),
        0 <= c < last < g.max_messages,
        no_wrap(ds),
        slot_state(state_after(ds, k, g).slots[c], g.max_bytes) == SlotState::Terminated,
    ensures
        forall|j: int|
            c < j < g.max_messages ==> !(#[trigger] slot_state(
                state_after(ds, k, g).slots[j],
                g.max_bytes,
            ) is Published),
        model_read(model_cascade(state_after(ds, k, g), c, last, g), last, g) == SlotRead::End,
{
    assert forall|j: int| c < j < g.max_messages implies !(#[trigger] slot_state(
        state_after(ds, k, g).slots[j],
        g.max_bytes,
    ) is Published) by {
        lemma_nothing_published_past_terminator(ds, k, c, j, g);
    }
    lemma_shape(ds, k, g);
    lemma_cascade_reaches(state_after(ds, k, g), c, last, g);
}

/// The counter after the first `k` of the atomic adds that reserve frames
/// of `fs[0]`, `fs[1]`, ... bytes, starting from value `start`. The add is
/// atomic, so however the calls interleave across threads and processes
/// they take effect one after another; `fs` lists them in that order.
pub open spec fn counter_after(start: u64, fs: Seq<u32>, k: int) -> u64
    decreases k,
{
    if k <= 0 {
        start
    } else {
        ((counter_after(start, fs, k - 1) as int + reservation_delta(fs[k - 1]) as int) % (word()
            * word())) as u64
    }
}

/// Bytes reserved by the first `k` adds of `fs`.
pub open spec fn bytes_before(fs: Seq<u32>, k: int) -> int
    decreases k,
{
    if k <= 0 {
        0
    } else {
        bytes_before(fs, k - 1) + fs[k - 1]
    }
}

proof fn lemma_bytes_monotone(fs: Seq<u32>, i: int, j: int)
    requires
        0 <= i <= j <= fs.len(),
    ensures
        0 <= bytes_before(fs, i) <= bytes_before(fs, j),
    decreases j,
{
    if j > 0 {
        if i < j {
            lemma_bytes_monotone(fs, i, j - 1);
        } else {
            lemma_bytes_monotone(fs, 0, j - 1);
        }
    }
}

/// Concurrent reservations on one counter, from any starting value whose
/// halves do not overflow: the `k`-th add in effect order returns slot
/// `count0 + k` and byte offset `write_idx0 + (bytes of the earlier adds)`,
/// so the slots are all different and the byte ranges tile the space from
/// `write_idx0` without overlap.
pub proof fn lemma_interleaved_reservations(start: u64, fs: Seq<u32>, k: int)
    requires
        0 <= k <= fs.len(),
        count_of(start) + fs.len() <= u32::MAX,
        write_idx_of(start) + bytes_before(fs, fs.len() as int) <= u32::MAX,
    ensures
        count_of(counter_after(start, fs, k)) == count_of(start) + k,
        write_idx_of(counter_after(start, fs, k)) == write_idx_of(start) + bytes_before(fs, k),
        forall|i: int|
            0 <= i < k ==> write_idx_of(#[trigger] counter_after(start, fs, i)) + fs[i]
                <= write_idx_of(counter_after(start, fs, k)),
    decreases k,
{
    lemma_bytes_monotone(fs, k, fs.len() as int);
    let s = start as int;
    let w0 = write_idx_of(start) as int;
    let c0 = count_of(start) as int;
    lemma_fundamental_div_mod_converse(s, word(), w0, c0);
    assert(s == w0 * word() + c0) by {
        vstd::arithmetic::div_mod::lemma_fundamental_div_mod(s, word());
    }
    if k > 0 {
        lemma_interleaved_reservations(start, fs, k - 1);
        lemma_bytes_monotone(fs, k - 1, k);
        let prev = counter_after(start, fs, k - 1) as int;
        let b = bytes_before(fs, k - 1);
        let f = fs[k - 1] as int;
        assert(prev == (w0 + b) * word() + (c0 + k - 1)) by {
            vstd::arithmetic::div_mod::lemma_fundamental_div_mod(prev, word());
        }
        assert((w0 + b) * word() + f * word() == (w0 + b + f) * word()) by (nonlinear_arith);
        assert((w0 + b + f) * word() + (c0 + k) < word() * word()) by (nonlinear_arith)
            requires
                w0 + b + f <= u32::MAX,
                c0 + k <= u32::MAX,
                word() == 0x1_0000_0000,
        ;
        let cur = counter_after(start, fs, k) as int;
        assert(cur == (w0 + b + f) * word() + (c0 + k));
        lemma_fundamental_div_mod_converse(cur, word(), w0 + b + f, c0 + k);
        assert forall|i: int| 0 <= i < k implies write_idx_of(#[trigger] counter_after(start, fs, i))
            + fs[i] <= write_idx_of(counter_after(start, fs, k)) by {
            if i < k - 1 {
                assert(write_idx_of(counter_after(start, fs, i)) + fs[i] <= write_idx_of(
                    counter_after(start, fs, k - 1),
                ));
            }
        }
    }
}

} // verus!
