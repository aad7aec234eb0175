//! What a sender or receiver does after each attempt on its cached page:
//! finish, or move on to the page after it. The loop around this runs where
//! the page manager can create and map page files.
use vstd::prelude::*;

use crate::cursor::{anon_step, AnonCursor};

verus! {

/// What follows an attempt on the cached page.
#[derive(Clone, Copy, Debug, PartialEq, Eq)]
pub enum Next {
    /// The attempt succeeded: the push or pop is over.
    Done,
    /// The page is full or ended: ask the manager for page `seq` (or the
    /// first page it has after it) and try again there.
    Advance { seq: usize },
}

/// The page that follows page `seq`, wrapping at the end of `usize`.
pub open spec fn following(seq: usize) -> usize {
    if seq == usize::MAX {
        0
    } else {
        (seq + 1) as usize
    }
}

/// The state a sender or receiver keeps between attempts: the sequence
/// number of its cached page and, for an anonymous receiver, its next slot
/// on that page.
#[derive(Clone, Copy, Debug)]
pub struct HandleState {
    seq: usize,
    cursor: AnonCursor,
}

impl View for HandleState {
    type V = (usize, u32);

    closed spec fn view(&self) -> (usize, u32) {
        (self.seq, self.cursor@)
    }
}

impl HandleState {
    /// The state of a handle that caches page `seq` and has read nothing on
    /// it yet.
    pub fn new(seq: usize) -> (r: HandleState)
        ensures
            r@ == (seq, 0u32),
    {
        HandleState { seq, cursor: AnonCursor::new() }
    }

    /// Sequence number of the cached page.
    pub fn seq(&self) -> (r: usize)
        ensures
            r == self@.0,
    {
        self.seq
    }

    /// The slot an anonymous receiver reads next on the cached page; the
    /// cursor moves on past it.
    pub fn next_anon_slot(&mut self) -> (r: u32)
        ensures
            r == old(self)@.1,
            final(self)@ == (old(self)@.0, anon_step(old(self)@.1)),
    {
        self.cursor.next_slot()
    }

    /// Decides what follows an attempt. `page_done` says that the attempt
    /// reported the page full (a push) or ended (a pop). Then the handle
    /// asks for the following page and starts it from its first slot;
    /// otherwise the attempt stands and nothing changes.
    pub fn after_attempt(&mut self, page_done: bool) -> (n: Next)
        ensures
            !page_done ==> n == Next::Done && final(self)@ == old(self)@,
            page_done ==> n == (Next::Advance { seq: following(old(self)@.0) }) && final(self)@ == (
            old(self)@.0, 0u32),
    {
        if !page_done {
            return Next::Done;
        }
        self.cursor.reset();
        Next::Advance { seq: self.seq.wrapping_add(1) }
    }

    /// The manager answered with page `seq`: cache it.
    pub fn adopt(&mut self, seq: usize)
        ensures
            final(self)@ == (seq, old(self)@.1),
    {
        self.seq = seq;
    }
}

} // verus!
