//! How a message is stored in a page's record buffer: a little-endian `u32`
//! length followed by the payload.
use vstd::bytes::{spec_u32_from_le_bytes, spec_u32_to_le_bytes, u32_from_le_bytes, u32_to_le_bytes};
use vstd::bytes::lemma_auto_spec_u32_to_from_le_bytes;
use vstd::prelude::*;
use vstd::slice::slice_subrange;

verus! {

/// The stored form of payload `d`.
pub open spec fn frame(d: Seq<u8>) -> Seq<u8> {
    spec_u32_to_le_bytes(d.len() as u32) + d
}

/// `buf` with `bytes` written over it from `off` on.
pub open spec fn overwrite(buf: Seq<u8>, off: int, bytes: Seq<u8>) -> Seq<u8> {
    Seq::new(
        buf.len(),
        |i: int|
            if off <= i < off + bytes.len() {
                bytes[i - off]
            } else {
                buf[i]
            },
    )
}

/// The payload of the frame whose length prefix starts at `off`, if the
/// whole frame lies inside `buf`.
pub open spec fn frame_at(buf: Seq<u8>, off: int) -> Option<Seq<u8>> {
    if 0 <= off && off + 4 <= buf.len() {
        let len = spec_u32_from_le_bytes(buf.subrange(off, off + 4)) as int;
        if off + 4 + len <= buf.len() {
            Some(buf.subrange(off + 4, off + 4 + len))
        } else {
            None
        }
    } else {
        None
    }
}

/// The view of an optional borrowed payload.
pub open spec fn payload_view(r: Option<&[u8]>) -> Option<Seq<u8>> {
    match r {
        Some(s) => Some(s@),
        None => None,
    }
}

/// Writes the frame of `data` into `buf` at `offset`.
pub fn write_frame(buf: &mut [u8], offset: usize, data: &[u8])
    requires
        data@.len() <= u32::MAX,
        offset + 4 + data@.len() <= old(buf)@.len(),
    ensures
        final(buf)@ == overwrite(old(buf)@, offset as int, frame(data@)),
{
    proof {
        lemma_auto_spec_u32_to_from_le_bytes();
    }
    let ghost whole = frame(data@);
    let prefix = u32_to_le_bytes(data.len() as u32);
    let blen = buf.len();
    let mut i: usize = 0;
    while i < 4
        invariant
            0 <= i <= 4,
            prefix@ == spec_u32_to_le_bytes(data@.len() as u32),
            prefix@.len() == 4,
            buf@.len() == blen,
            whole == frame(data@),
            offset + 4 + data@.len() <= buf@.len(),
            buf@.len() == old(buf)@.len(),
            forall|j: int|
                0 <= j < buf@.len() ==> #[trigger] buf@[j] == if offset <= j < offset + i {
                    whole[j - offset]
                } else {
                    old(buf)@[j]
                },
        decreases 4 - i,
    {
        buf[offset + i] = prefix[i];
        i = i + 1;
    }
    let mut k: usize = 0;
    while k < data.len()
        invariant
            0 <= k <= data@.len(),
            whole == frame(data@),
            whole.len() == 4 + data@.len(),
            buf@.len() == blen,
            offset + 4 + data@.len() <= buf@.len(),
            buf@.len() == old(buf)@.len(),
            forall|j: int|
                0 <= j < buf@.len() ==> #[trigger] buf@[j] == if offset <= j < offset + 4 + k {
                    whole[j - offset]
                } else {
                    old(buf)@[j]
                },
        decreases data@.len() - k,
    {
        buf[offset + 4 + k] = data[k];
        k = k + 1;
    }
    assert(buf@ =~= overwrite(old(buf)@, offset as int, whole));
}

/// The payload of the frame at `offset`, or `None` if that frame does not
/// lie inside `buf`.
pub fn frame_payload(buf: &[u8], offset: u32) -> (r: Option<&[u8]>)
    ensures
        payload_view(r) == frame_at(buf@, offset as int),
{
    let off = offset as usize;
    if off > buf.len() || buf.len() - off < 4 {
        return None;
    }
    let len = u32_from_le_bytes(slice_subrange(buf, off, off + 4)) as usize;
    if buf.len() - off - 4 < len {
        return None;
    }
    Some(slice_subrange(buf, off + 4, off + 4 + len))
}

/// A frame written at `off` reads back as its payload.
pub proof fn lemma_frame_round_trip(buf: Seq<u8>, off: int, d: Seq<u8>)
    requires
        0 <= off,
        d.len() <= u32::MAX,
        off + 4 + d.len() <= buf.len(),
    ensures
        frame_at(overwrite(buf, off, frame(d)), off) == Some(d),
{
    lemma_auto_spec_u32_to_from_le_bytes();
    let w = overwrite(buf, off, frame(d));
    assert(w.subrange(off, off + 4) =~= spec_u32_to_le_bytes(d.len() as u32));
    assert(w.subrange(off + 4, off + 4 + d.len()) =~= d);
}

/// Writing outside a frame leaves that frame readable as before.
pub proof fn lemma_frame_untouched(buf: Seq<u8>, off: int, other: int, bytes: Seq<u8>)
    requires
        frame_at(buf, off) is Some,
        other + bytes.len() <= off || off + 4 + frame_at(buf, off)->0.len() <= other,
    ensures
        frame_at(overwrite(buf, other, bytes), off) == frame_at(buf, off),
{
    let w = overwrite(buf, other, bytes);
    assert(w.subrange(off, off + 4) =~= buf.subrange(off, off + 4));
    let len = spec_u32_from_le_bytes(buf.subrange(off, off + 4)) as int;
    assert(w.subrange(off + 4, off + 4 + len) =~= buf.subrange(off + 4, off + 4 + len));
}

} // verus!
