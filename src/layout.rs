//! Fixed geometry of a data page and the pure arithmetic behind it: the
//! packed reservation counter and the salted slot cells.
use vstd::prelude::*;

verus! {

/// Salt added to a byte offset before it is published in a slot cell, so
/// that `0` always means "not yet published".
pub const IDX_SALT: u32 = 1;

/// Number of grouped-consumer counters on each page.
pub const MAX_RECEIVER_GROUPS: usize = 64;

/// Number of message slots on each page.
pub const MAX_MESSAGES_PER_PAGE: u32 = 65535;

/// Expected size of one message, which sizes the record buffer.
pub const EXPECTED_MESSAGE_SIZE_BYTES: u32 = 2048;

/// Size of the record buffer of a page.
pub const MAX_BYTES_PER_PAGE: u32 = MAX_MESSAGES_PER_PAGE * EXPECTED_MESSAGE_SIZE_BYTES;

/// Size of the little-endian length prefix of a stored message.
pub const SIZE_OF_LEN: u32 = 4;

/// Canonical slot value marking the early end of a page.
pub const TERMINATOR: u32 = 0xffff_ffff;

/// `2^32`: the weight of the write index inside the packed counter.
pub open spec fn word() -> int {
    0x1_0000_0000
}

/// The write index held in the high half of a packed counter value.
pub open spec fn write_idx_of(v: u64) -> u32 {
    (v as int / word()) as u32
}

/// The slot count held in the low half of a packed counter value.
pub open spec fn count_of(v: u64) -> u32 {
    (v as int % word()) as u32
}

/// The amount added to the packed counter to reserve one slot and
/// `full_len` bytes.
pub open spec fn reservation_delta(full_len: u32) -> u64 {
    (full_len as int * word() + 1) as u64
}

/// Splits a packed counter value into `(write_idx, count)`.
pub fn split_counter(v: u64) -> (r: (u32, u32))
    ensures
        r.0 == write_idx_of(v),
        r.1 == count_of(v),
{
    assert(v >> 32u64 == v / 0x1_0000_0000u64) by (bit_vector);
    assert(v & 0xffff_ffffu64 == v % 0x1_0000_0000u64) by (bit_vector);
    ((v >> 32u64) as u32, (v & 0xffff_ffffu64) as u32)
}

/// The packed amount that reserves one slot and `full_len` bytes.
pub fn counter_delta(full_len: u32) -> (r: u64)
    ensures
        r == reservation_delta(full_len),
{
    let wide: u64 = full_len as u64;
    assert(wide << 32u64 == wide * 0x1_0000_0000u64) by (bit_vector)
        requires
            wide <= 0xffff_ffffu64,
    ;
    assert(wide * 0x1_0000_0000u64 <= 0xffff_ffff_0000_0000u64) by (nonlinear_arith)
        requires
            wide <= 0xffff_ffffu64,
    ;
    (wide << 32u64) + 1
}

/// The bounds of one page: how many slots it has and how many bytes its
/// record buffer holds.
#[derive(Clone, Copy, Debug, PartialEq, Eq)]
pub struct Geometry {
    pub max_messages: u32,
    pub max_bytes: u32,
}

impl Geometry {
    /// The geometry of every page this crate maps.
    pub fn standard() -> (g: Geometry)
        ensures
            g.max_messages == MAX_MESSAGES_PER_PAGE,
            g.max_bytes == MAX_BYTES_PER_PAGE,
    {
        Geometry { max_messages: MAX_MESSAGES_PER_PAGE, max_bytes: MAX_BYTES_PER_PAGE }
    }
}

/// What a slot cell says about its slot.
#[derive(Clone, Copy, Debug, PartialEq, Eq)]
pub enum SlotState {
    /// The cell still holds `0`: nothing was published there.
    Unpublished,
    /// A message was published; its length prefix starts at this offset.
    Published(u32),
    /// The page ended early before this slot was filled.
    Terminated,
}

/// The meaning of slot cell value `v` on a page with `max_bytes` of buffer.
pub open spec fn slot_state(v: u32, max_bytes: u32) -> SlotState {
    if v == 0 {
        SlotState::Unpublished
    } else if v >= max_bytes {
        SlotState::Terminated
    } else {
        SlotState::Published((v - IDX_SALT) as u32)
    }
}

/// Reads a slot cell value.
pub fn classify_slot(v: u32, max_bytes: u32) -> (r: SlotState)
    ensures
        r == slot_state(v, max_bytes),
{
    if v == 0 {
        SlotState::Unpublished
    } else if v >= max_bytes {
        SlotState::Terminated
    } else {
        SlotState::Published(v - IDX_SALT)
    }
}

/// The cell value that publishes a message whose length prefix is at
/// `offset`.
pub open spec fn salted(offset: u32) -> u32 {
    (offset + IDX_SALT) as u32
}

/// What a producer does with the reservation it obtained.
#[derive(Clone, Copy, Debug, PartialEq, Eq)]
pub enum PushPlan {
    /// Every slot of the page is taken: the page is full, nothing is written.
    SlotsExhausted,
    /// The slot was reserved but its bytes do not fit: the slot becomes the
    /// terminator and the page is full.
    BytesExhausted { slot: u32 },
    /// The message is framed at `offset` and published in `slot`.
    Write { slot: u32, offset: u32 },
}

/// The plan for a reservation that returned `(write_idx, count)` for a frame
/// of `full_len` bytes.
pub open spec fn push_plan(write_idx: u32, count: u32, full_len: u32, g: Geometry) -> PushPlan {
    if count >= g.max_messages {
        PushPlan::SlotsExhausted
    } else if write_idx as int + full_len as int >= g.max_bytes as int {
        PushPlan::BytesExhausted { slot: count }
    } else {
        PushPlan::Write { slot: count, offset: write_idx }
    }
}

/// Decides what a producer does with its reservation.
pub fn plan_push(write_idx: u32, count: u32, full_len: u32, g: Geometry) -> (r: PushPlan)
    ensures
        r == push_plan(write_idx, count, full_len, g),
{
    if count >= g.max_messages {
        PushPlan::SlotsExhausted
    } else if write_idx as u64 + full_len as u64 >= g.max_bytes as u64 {
        PushPlan::BytesExhausted { slot: count }
    } else {
        PushPlan::Write { slot: count, offset: write_idx }
    }
}

/// The salted cell value for a message framed at `offset`, below the page's
/// byte bound.
pub fn salt_offset(offset: u32, max_bytes: u32) -> (r: u32)
    requires
        offset as int + IDX_SALT < max_bytes as int,
    ensures
        r == salted(offset),
        slot_state(r, max_bytes) == SlotState::Published(offset),
{
    offset + IDX_SALT
}

/// Whether a message of `len` bytes fits an empty page. A larger one can
/// never be pushed: every page would report itself full.
pub fn frame_fits_page(len: usize) -> (r: bool)
    ensures
        r == (len + SIZE_OF_LEN < MAX_BYTES_PER_PAGE),
{
    len < (MAX_BYTES_PER_PAGE - SIZE_OF_LEN) as usize
}

} // verus!
