//! Length-prefixed framing: each frame is a 4-byte big-endian payload
//! length followed by the payload itself, with payloads capped at 64 MiB.

use crate::codec::{lemma_subrange_split, push_u32, read_u32, spec_enc_u32};
use vstd::prelude::*;

verus! {

/// Largest payload a frame may carry: 64 MiB.
pub const MAX_FRAME_PAYLOAD: usize = 67108864;

/// The frame carrying a payload: 4-byte big-endian length, then the bytes.
pub open spec fn spec_frame(payload: Seq<u8>) -> Seq<u8> {
    spec_enc_u32(payload.len() as u32) + payload
}

/// What the head of a receive buffer holds.
#[derive(Debug, Clone, PartialEq)]
pub enum FrameStatus {
    /// A whole frame: its payload and how many bytes of the buffer it took.
    Ready { payload: Vec<u8>, consumed: usize },
    /// The buffer does not yet hold a whole frame.
    Incomplete,
    /// The announced payload length exceeds `MAX_FRAME_PAYLOAD`.
    TooLong,
}

/// Builds the frame for `payload`, or `None` when it exceeds the cap.
pub fn encode_frame(payload: &Vec<u8>) -> (r: Option<Vec<u8>>)
    ensures
        match r {
            Some(f) => payload@.len() <= MAX_FRAME_PAYLOAD && f@ == spec_frame(payload@),
            None => payload@.len() > MAX_FRAME_PAYLOAD,
        },
{
    if payload.len() > MAX_FRAME_PAYLOAD {
        return None;
    }
    let mut out: Vec<u8> = Vec::new();
    push_u32(&mut out, payload.len() as u32);
    let mut i: usize = 0;
    while i < payload.len()
        invariant
            i <= payload@.len(),
            payload@.len() <= MAX_FRAME_PAYLOAD,
            out@ == spec_enc_u32(payload@.len() as u32) + payload@.subrange(0, i as int),
        decreases payload@.len() - i,
    {
        out.push(payload[i]);
        proof {
            assert(out@ =~= spec_enc_u32(payload@.len() as u32) + payload@.subrange(
                0,
                i + 1,
            ));
        }
        i = i + 1;
    }
    proof {
        assert(payload@.subrange(0, payload@.len() as int) =~= payload@);
    }
    Some(out)
}

/// Examines the head of `buf` for one frame, without consuming the buffer.
///
/// A `Ready` result re-encodes to exactly the bytes it consumed, and the
/// verdict is pinned both ways: a whole in-cap frame at the head is always
/// returned, a short buffer is always `Incomplete`, an over-cap length is
/// always `TooLong`.
pub fn try_decode_frame(buf: &Vec<u8>) -> (r: FrameStatus)
    ensures
        match r {
            FrameStatus::Ready { payload, consumed } => {
                &&& consumed <= buf@.len()
                &&& consumed == 4 + payload@.len()
                &&& payload@.len() <= MAX_FRAME_PAYLOAD
                &&& buf@.subrange(0, consumed as int) == spec_frame(payload@)
            },
            FrameStatus::Incomplete => buf@.len() < 4 || exists|n: u32|
                buf@.subrange(0, 4) == spec_enc_u32(n) && n <= MAX_FRAME_PAYLOAD && 4 + n
                    > buf@.len(),
            FrameStatus::TooLong => exists|n: u32|
                buf@.subrange(0, 4) == spec_enc_u32(n) && n > MAX_FRAME_PAYLOAD,
        },
{
    match read_u32(buf, 0) {
        None => FrameStatus::Incomplete,
        Some((n, p)) => {
            if n as usize > MAX_FRAME_PAYLOAD {
                proof {
                    assert(buf@.subrange(0, 4) == spec_enc_u32(n) && n > MAX_FRAME_PAYLOAD);
                }
                return FrameStatus::TooLong;
            }
            let need = n as usize;
            if buf.len() < 4 + need {
                proof {
                    assert(buf@.subrange(0, 4) == spec_enc_u32(n) && n <= MAX_FRAME_PAYLOAD && 4
                        + n > buf@.len());
                }
                return FrameStatus::Incomplete;
            }
            let mut payload: Vec<u8> = Vec::new();
            let mut i: usize = 0;
            while i < need
                invariant
                    i <= need,
                    need <= MAX_FRAME_PAYLOAD,
                    4 + need <= buf@.len(),
                    payload@ == buf@.subrange(4, 4 + i as int),
                decreases need - i,
            {
                payload.push(buf[4 + i]);
                proof {
                    assert(payload@ =~= buf@.subrange(4, 4 + (i + 1)));
                }
                i = i + 1;
            }
            proof {
                lemma_subrange_split(buf@, 0, 4, 4 + need as int);
                assert(payload@.len() == n);
                assert(buf@.subrange(0, 4 + need as int) == spec_frame(payload@));
            }
            FrameStatus::Ready { payload, consumed: 4 + need }
        },
    }
}

} // verus!
