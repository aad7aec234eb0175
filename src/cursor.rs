//! How receivers pick the slot they read next: grouped receivers share a
//! counter on the page, anonymous ones keep their own.
use vstd::prelude::*;

use crate::datapage::SlotRead;
use crate::layout::{word, Geometry, MAX_MESSAGES_PER_PAGE};
use crate::model::{model_read, no_wrap, plan_of, state_after, lemma_payload_fidelity};

verus! {

/// Marker for receivers that share the messages of a group among them.
#[derive(Clone, Copy, Debug)]
pub struct Grouped;

/// Marker for receivers that each see every message.
#[derive(Clone, Copy, Debug)]
pub struct Anonymous;

/// The next slot of an anonymous receiver on its current page.
#[derive(Clone, Copy, Debug)]
pub struct AnonCursor {
    count: u32,
}

/// The cursor position after one claim from position `c`: one further,
/// stopping past the last slot, where every read ends the page.
pub open spec fn anon_step(c: u32) -> u32 {
    if c < MAX_MESSAGES_PER_PAGE {
        (c + 1) as u32
    } else {
        c
    }
}

/// The cursor position after `k` claims from position `start`.
pub open spec fn anon_position(start: u32, k: nat) -> u32
    decreases k,
{
    if k == 0 {
        start
    } else {
        anon_step(anon_position(start, (k - 1) as nat))
    }
}

/// The slots that `k` successive claims from position `start` return.
pub open spec fn anon_claims(start: u32, k: nat) -> Seq<u32>
    decreases k,
{
    if k == 0 {
        Seq::empty()
    } else {
        anon_claims(start, (k - 1) as nat).push(anon_position(start, (k - 1) as nat))
    }
}

/// The slot that the `j`-th claim (from `0`) on a group counter of a fresh
/// page returns: the counter's value before the add, which wraps at `2^32`.
pub open spec fn group_claim(j: int) -> u32 {
    (j % word()) as u32
}

impl View for AnonCursor {
    type V = u32;

    closed spec fn view(&self) -> u32 {
        self.count
    }
}

impl AnonCursor {
    /// A cursor at the first slot of a page.
    pub fn new() -> (r: AnonCursor)
        ensures
            r@ == 0,
    {
        AnonCursor { count: 0 }
    }

    /// Returns the slot to read and moves on to the next one.
    pub fn next_slot(&mut self) -> (r: u32)
        ensures
            r == old(self)@,
            final(self)@ == anon_step(old(self)@),
    {
        let c = self.count;
        if c < MAX_MESSAGES_PER_PAGE {
            self.count = c + 1;
        }
        c
    }

    /// Moves back to the first slot, for a new page.
    pub fn reset(&mut self)
        ensures
            final(self)@ == 0,
    {
        self.count = 0;
    }
}

proof fn lemma_anon_counts_up(k: nat)
    requires
        k <= MAX_MESSAGES_PER_PAGE,
    ensures
        anon_position(0, k) == k,
        anon_claims(0, k).len() == k,
        forall|i: int| 0 <= i < k ==> #[trigger] anon_claims(0, k)[i] == i,
    decreases k,
{
    if k > 0 {
        lemma_anon_counts_up((k - 1) as nat);
    }
}

/// An anonymous receiver that starts a page where `k` messages were
/// published reads all of them, in slot order.
pub proof fn lemma_anonymous_universality(ds: Seq<Seq<u8>>, g: Geometry)
    requires
        no_wrap(ds),
        ds.len() <= MAX_MESSAGES_PER_PAGE,
        forall|i: int| 0 <= i < ds.len() ==> (#[trigger] plan_of(ds, i, g)) is Write,
    ensures
        anon_claims(0, ds.len()).len() == ds.len(),
        forall|i: int|
            0 <= i < ds.len() ==> #[trigger] anon_claims(0, ds.len())[i] == i && model_read(
                state_after(ds, ds.len() as int, g),
                anon_claims(0, ds.len())[i] as int,
                g,
            ) == SlotRead::Message(ds[i]),
{
    lemma_anon_counts_up(ds.len());
    assert forall|i: int| 0 <= i < ds.len() implies #[trigger] anon_claims(0, ds.len())[i] == i
        && model_read(
        state_after(ds, ds.len() as int, g),
        anon_claims(0, ds.len())[i] as int,
        g,
    ) == SlotRead::Message(ds[i]) by {
        assert(plan_of(ds, i, g) is Write);
        lemma_payload_fidelity(ds, i, ds.len() as int, g);
    }
}

/// Receivers of one group never claim the same slot, and the slots they
/// claim on a page cover every published message, each read by the
/// receiver that claimed its slot.
pub proof fn lemma_group_exclusivity(ds: Seq<Seq<u8>>, m: int, g: Geometry)
    requires
        no_wrap(ds),
        ds.len() <= m <= word(),
        forall|i: int| 0 <= i < ds.len() ==> (#[trigger] plan_of(ds, i, g)) is Write,
    ensures
        forall|i: int, j: int|
            0 <= i < m && 0 <= j < m && i != j ==> #[trigger] group_claim(i) != #[trigger] group_claim(j),
        forall|c: int|
            0 <= c < ds.len() ==> #[trigger] group_claim(c) == c && model_read(
                state_after(ds, ds.len() as int, g),
                group_claim(c) as int,
                g,
            ) == SlotRead::Message(ds[c]),
{
    assert forall|c: int| 0 <= c < ds.len() implies #[trigger] group_claim(c) == c && model_read(
        state_after(ds, ds.len() as int, g),
        group_claim(c) as int,
        g,
    ) == SlotRead::Message(ds[c]) by {
        assert(plan_of(ds, c, g) is Write);
        lemma_payload_fidelity(ds, c, ds.len() as int, g);
    }
}

} // verus!
