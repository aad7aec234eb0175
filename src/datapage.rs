//! The data page: a fixed-layout record container shared through a memory
//! mapping, with lock-free append and reads by slot number.
use std::sync::atomic::{AtomicU32, AtomicU64, Ordering};
use std::time::Duration;

use linux_futex::{AsFutex, Private};
use vstd::prelude::*;

use crate::frame::{frame, frame_at, frame_payload, overwrite, write_frame};
use crate::layout::{
    classify_slot, counter_delta, plan_push, push_plan, salt_offset, slot_state, split_counter,
    Geometry, PushPlan, SlotState, MAX_BYTES_PER_PAGE,
    MAX_MESSAGES_PER_PAGE, MAX_RECEIVER_GROUPS, SIZE_OF_LEN, TERMINATOR,
};

verus! {

/// Number of slot cells on a page.
pub const SLOT_COUNT: usize = 65535;

/// Number of bytes in a page's record buffer.
pub const BUF_LEN: usize = 134215680;

/// A push found no room left on the page.
#[derive(Debug)]
pub struct DataPageFull;

/// A read reached the end of the page.
#[derive(Debug)]
pub struct EndOfDataPage;

/// What a read of one slot found.
pub enum SlotRead {
    /// Nothing is published in the slot yet.
    Pending,
    /// The slot holds this message.
    Message(Seq<u8>),
    /// The page ends at or before this slot.
    End,
}

/// What a read of slot cell value `v` yields against record buffer `buf`.
pub open spec fn slot_read(buf: Seq<u8>, v: u32, max_bytes: u32) -> SlotRead {
    match slot_state(v, max_bytes) {
        SlotState::Unpublished => SlotRead::Pending,
        SlotState::Terminated => SlotRead::End,
        SlotState::Published(off) => match frame_at(buf, off as int) {
            Some(p) => SlotRead::Message(p),
            None => SlotRead::End,
        },
    }
}

/// The outcome that a read result reports.
pub open spec fn read_outcome(r: Result<Option<&[u8]>, EndOfDataPage>) -> SlotRead {
    match r {
        Ok(Some(s)) => SlotRead::Message(s@),
        Ok(None) => SlotRead::Pending,
        Err(_) => SlotRead::End,
    }
}

/// Seconds of a duration, as `Duration::as_secs` reports them.
pub uninterp spec fn secs_of(d: Duration) -> u64;

/// Relies on `Duration::as_secs`, a function of the duration alone.
pub assume_specification[ Duration::as_secs ](d: &Duration) -> (r: u64)
    ensures
        r == secs_of(*d),
;

/// Relies on linux_futex's `Futex::wake` (through `AsFutex::as_futex`): wakes
/// every thread waiting on the cell.
#[verifier::external_body]
fn wake_all(cell: &AtomicU32) {
    let _ = AsFutex::<Private>::as_futex(cell).wake(i32::MAX);
}

/// Relies on linux_futex's `Futex::wait` (through `AsFutex::as_futex`):
/// sleeps while the cell holds `expected`, until a wake; returns at once
/// otherwise.
#[verifier::external_body]
fn wait_while(cell: &AtomicU32, expected: u32) {
    let _ = AsFutex::<Private>::as_futex(cell).wait(expected);
}

/// Relies on linux_futex's `Futex::wait_for` (through `AsFutex::as_futex`):
/// as `wait_while`, for at most `timeout`. The kernel refuses a timeout whose
/// seconds do not fit an `i64`, on which the crate panics.
#[verifier::external_body]
fn wait_while_for(cell: &AtomicU32, expected: u32, timeout: Duration)
    requires
        secs_of(timeout) <= i64::MAX,
{
    let _ = AsFutex::<Private>::as_futex(cell).wait_for(expected, timeout);
}

/// The packed reservation counter: the write index in the high 32 bits, the
/// slot count in the low 32 bits.
pub struct CountWriteIdx {
    write_idx: AtomicU64,
}

impl CountWriteIdx {
    /// Reserves one slot and `val` bytes in a single atomic add, and returns
    /// the `(write_idx, count)` that stood before it.
    pub fn fetch_add(&self, val: u32) -> (u32, u32) {
        let prior = self.write_idx.fetch_add(counter_delta(val), Ordering::Release);
        split_counter(prior)
    }
}

/// One page of the queue, laid out as it is stored in its file.
pub struct DataPage {
    count_write_idx: CountWriteIdx,
    receiver_group_count: [AtomicU32; MAX_RECEIVER_GROUPS],
    idx_map_with_salt: [AtomicU32; SLOT_COUNT],
    buf: [u8; BUF_LEN],
}

impl View for DataPage {
    type V = Seq<u8>;

    /// The record buffer.
    closed spec fn view(&self) -> Seq<u8> {
        self.buf@
    }
}

impl DataPage {
    /// Adds `val` to the counter of `group` and returns the value before the
    /// add: the next slot that group has not claimed on this page.
    pub fn increment_group_count(&self, group: usize, val: u32) -> u32
        requires
            group < MAX_RECEIVER_GROUPS,
    {
        self.receiver_group_count[group].fetch_add(val, Ordering::Release)
    }

    /// Appends `data` to the page. On success the message is framed in a
    /// byte range that no other push reserved, and published to readers.
    pub fn push(&mut self, data: &[u8]) -> (r: Result<(), DataPageFull>)
        ensures
            r is Err ==> final(self)@ == old(self)@,
            r is Ok ==> exists|offset: u32|
                offset + SIZE_OF_LEN + data@.len() < MAX_BYTES_PER_PAGE
                && final(self)@ == overwrite(old(self)@, offset as int, frame(data@)),
            data@.len() + SIZE_OF_LEN > u32::MAX ==> r is Err,
    {
        if data.len() > (u32::MAX - SIZE_OF_LEN) as usize {
            return Err(DataPageFull);
        }
        let full_len = data.len() as u32 + SIZE_OF_LEN;
        let (write_idx, count) = self.count_write_idx.fetch_add(full_len);
        self.publish(write_idx, count, data)
    }

    /// Carries out the reservation `(write_idx, count)` that a push of `data`
    /// obtained: frames and publishes the message, or marks the slot as the
    /// terminator, or does nothing, as the plan for it says.
    pub fn publish(&mut self, write_idx: u32, count: u32, data: &[u8]) -> (r: Result<(), DataPageFull>)
        requires
            data@.len() + SIZE_OF_LEN <= u32::MAX,
        ensures
            match push_plan(
                write_idx,
                count,
                (data@.len() + SIZE_OF_LEN) as u32,
                Geometry { max_messages: MAX_MESSAGES_PER_PAGE, max_bytes: MAX_BYTES_PER_PAGE },
            ) {
                PushPlan::Write { slot, offset } => r is Ok && final(self)@ == overwrite(
                    old(self)@,
                    offset as int,
                    frame(data@),
                ),
                _ => r is Err && final(self)@ == old(self)@,
            },
    {
        let full_len = data.len() as u32 + SIZE_OF_LEN;
        match plan_push(write_idx, count, full_len, Geometry::standard()) {
            PushPlan::SlotsExhausted => Err(DataPageFull),
            PushPlan::BytesExhausted { slot } => {
                let cell = &self.idx_map_with_salt[slot as usize];
                cell.store(TERMINATOR, Ordering::Release);
                wake_all(cell);
                Err(DataPageFull)
            },
            PushPlan::Write { slot, offset } => {
                write_frame(&mut self.buf, offset as usize, data);
                let cell = &self.idx_map_with_salt[slot as usize];
                cell.store(salt_offset(offset, MAX_BYTES_PER_PAGE), Ordering::Release);
                wake_all(cell);
                Ok(())
            },
        }
    }

    /// What slot cell value `v` designates on this page: `None` for an
    /// unpublished slot, the message for a published one, and the end of the
    /// page for the terminator or a frame that does not fit the buffer.
    pub fn decode_slot(&self, v: u32) -> (r: Result<Option<&[u8]>, EndOfDataPage>)
        ensures
            read_outcome(r) == slot_read(self@, v, MAX_BYTES_PER_PAGE),
    {
        match classify_slot(v, MAX_BYTES_PER_PAGE) {
            SlotState::Unpublished => Ok(None),
            SlotState::Terminated => Err(EndOfDataPage),
            SlotState::Published(offset) => match frame_payload(&self.buf, offset) {
                Some(p) => Ok(Some(p)),
                None => Err(EndOfDataPage),
            },
        }
    }

    /// Reads slot `count` once its cell value `v` is known: a reader that
    /// meets the terminator hands it on to the next slot and wakes whoever
    /// waits there, so that no reader past the end sleeps forever.
    pub fn settle(&self, count: u32, v: u32) -> (r: Result<Option<&[u8]>, EndOfDataPage>)
        requires
            count < MAX_MESSAGES_PER_PAGE,
        ensures
            read_outcome(r) == slot_read(self@, v, MAX_BYTES_PER_PAGE),
    {
        if v != 0 && v >= MAX_BYTES_PER_PAGE && count + 1 < MAX_MESSAGES_PER_PAGE {
            let next = &self.idx_map_with_salt[(count + 1) as usize];
            next.store(TERMINATOR, Ordering::Release);
            wake_all(next);
        }
        self.decode_slot(v)
    }

    /// Looks at slot `count` without waiting: `None` if nothing is published
    /// there yet.
    pub fn try_get(&self, count: u32) -> (r: Result<Option<&[u8]>, EndOfDataPage>)
        ensures
            count >= MAX_MESSAGES_PER_PAGE ==> r is Err,
            count < MAX_MESSAGES_PER_PAGE ==> exists|v: u32|
                read_outcome(r) == slot_read(self@, v, MAX_BYTES_PER_PAGE),
    {
        if count >= MAX_MESSAGES_PER_PAGE {
            return Err(EndOfDataPage);
        }
        let v = self.idx_map_with_salt[count as usize].load(Ordering::Acquire);
        self.settle(count, v)
    }

    /// Reads slot `count`, waiting at most `timeout` for it to be published;
    /// `None` if it still is not. A timeout too long for the kernel to take
    /// waits without bound.
    pub fn get_with_timeout(&self, count: u32, timeout: Duration) -> (r: Result<
        Option<&[u8]>,
        EndOfDataPage,
    >)
        ensures
            count >= MAX_MESSAGES_PER_PAGE ==> r is Err,
            count < MAX_MESSAGES_PER_PAGE ==> exists|v: u32|
                read_outcome(r) == slot_read(self@, v, MAX_BYTES_PER_PAGE),
    {
        if count >= MAX_MESSAGES_PER_PAGE {
            return Err(EndOfDataPage);
        }
        let cell = &self.idx_map_with_salt[count as usize];
        let mut v = cell.load(Ordering::Acquire);
        if v == 0 {
            if timeout.as_secs() <= i64::MAX as u64 {
                wait_while_for(cell, 0, timeout);
            } else {
                wait_while(cell, 0);
            }
            v = cell.load(Ordering::Acquire);
        }
        self.settle(count, v)
    }

    /// Reads slot `count`, sleeping until its cell changes if nothing is
    /// published there yet; `None` if the wake-up was spurious and the slot
    /// is still unpublished. A blocking read repeats this until it is not
    /// `None`.
    pub fn wait_get(&self, count: u32) -> (r: Result<Option<&[u8]>, EndOfDataPage>)
        ensures
            count >= MAX_MESSAGES_PER_PAGE ==> r is Err,
            count < MAX_MESSAGES_PER_PAGE ==> exists|v: u32|
                read_outcome(r) == slot_read(self@, v, MAX_BYTES_PER_PAGE),
    {
        if count >= MAX_MESSAGES_PER_PAGE {
            return Err(EndOfDataPage);
        }
        let cell = &self.idx_map_with_salt[count as usize];
        let mut v = cell.load(Ordering::Acquire);
        if v == 0 {
            wait_while(cell, 0);
            v = cell.load(Ordering::Acquire);
        }
        self.settle(count, v)
    }
}

} // verus!
