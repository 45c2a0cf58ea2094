//! Length-prefixed wire frames: a big-endian `u32` payload length followed by
//! exactly that many payload bytes, with a hard size cap in both directions.

use vstd::prelude::*;

use crate::wire::{
    lemma_u32_be_bytes_roundtrip, push_u32_be, spec_u32_from_be_bytes, spec_u32_to_be_bytes,
    u32_from_be_at,
};
use crate::MAX_FRAME_SIZE;

verus! {

#[derive(Clone, Copy, Debug, PartialEq, Eq, Structural)]
pub enum FrameError {
    /// The payload length exceeds `MAX_FRAME_SIZE`.
    FrameTooLarge { len: usize, max: usize },
    /// The buffer ends before the frame does.
    Truncated,
}

/// The encoded form of one frame holding `p`.
pub open spec fn spec_frame(p: Seq<u8>) -> Seq<u8>
    recommends
        p.len() <= u32::MAX,
{
    spec_u32_to_be_bytes(p.len() as u32) + p
}

/// What reading one frame from the front of `b` yields.
pub open spec fn spec_read_frame(b: Seq<u8>) -> Result<Seq<u8>, FrameError> {
    if b.len() < 4 {
        Err(FrameError::Truncated)
    } else {
        let len = spec_u32_from_be_bytes(b.subrange(0, 4)) as int;
        if len > MAX_FRAME_SIZE {
            Err(FrameError::FrameTooLarge { len: len as usize, max: MAX_FRAME_SIZE })
        } else if b.len() < 4 + len {
            Err(FrameError::Truncated)
        } else {
            Ok(b.subrange(4, 4 + len))
        }
    }
}

/// Encode `payload` as one frame: length header, then the payload verbatim.
/// Refused outright when the payload exceeds `MAX_FRAME_SIZE`.
pub fn write_frame(payload: &[u8]) -> (r: Result<Vec<u8>, FrameError>)
    ensures
        payload@.len() <= MAX_FRAME_SIZE ==> (r matches Ok(v) && v@ == spec_frame(payload@)),
        payload@.len() > MAX_FRAME_SIZE ==> r == Err::<Vec<u8>, FrameError>(
            FrameError::FrameTooLarge { len: payload@.len() as usize, max: MAX_FRAME_SIZE },
        ),
{
    if payload.len() > MAX_FRAME_SIZE {
        return Err(FrameError::FrameTooLarge { len: payload.len(), max: MAX_FRAME_SIZE });
    }
    let mut out: Vec<u8> = Vec::new();
    push_u32_be(&mut out, payload.len() as u32);
    out.extend_from_slice(payload);
    proof {
        assert(out@ =~= spec_frame(payload@));
    }
    Ok(out)
}

/// Read the frame at the front of `b`; bytes past the frame are left alone.
/// A header announcing more than `MAX_FRAME_SIZE` bytes is refused without
/// looking at the body.
pub fn read_frame(b: &[u8]) -> (r: Result<Vec<u8>, FrameError>)
    ensures
        match r {
            Ok(v) => spec_read_frame(b@) matches Ok(p) && v@ == p,
            Err(e) => spec_read_frame(b@) matches Err(e2) && e == e2,
        },
{
    if b.len() < 4 {
        return Err(FrameError::Truncated);
    }
    let len_u32 = u32_from_be_at(b, 0);
    let len = len_u32 as usize;
    if len > MAX_FRAME_SIZE {
        return Err(FrameError::FrameTooLarge { len, max: MAX_FRAME_SIZE });
    }
    if b.len() - 4 < len {
        return Err(FrameError::Truncated);
    }
    let payload = vstd::slice::slice_to_vec(vstd::slice::slice_subrange(b, 4, 4 + len));
    Ok(payload)
}

/// Law: a frame written from any payload within the cap reads back as exactly
/// that payload.
pub proof fn lemma_frame_roundtrip(p: Seq<u8>)
    requires
        p.len() <= MAX_FRAME_SIZE,
    ensures
        spec_read_frame(spec_frame(p)) == Ok::<Seq<u8>, FrameError>(p),
{
    lemma_u32_be_bytes_roundtrip();
    let b = spec_frame(p);
    assert(b.subrange(0, 4) =~= spec_u32_to_be_bytes(p.len() as u32));
    assert(b.subrange(4, 4 + p.len() as int) =~= p);
}

/// Law: a frame whose header announces more than `MAX_FRAME_SIZE` bytes is
/// refused at the header, whatever follows it.
pub proof fn lemma_frame_rejects_oversize(p: Seq<u8>)
    requires
        MAX_FRAME_SIZE < p.len() <= u32::MAX,
    ensures
        spec_read_frame(spec_frame(p)) == Err::<Seq<u8>, FrameError>(
            FrameError::FrameTooLarge { len: p.len() as usize, max: MAX_FRAME_SIZE },
        ),
{
    lemma_u32_be_bytes_roundtrip();
    let b = spec_frame(p);
    assert(b.subrange(0, 4) =~= spec_u32_to_be_bytes(p.len() as u32));
}

} // verus!
