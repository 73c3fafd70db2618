//! Length-prefixed framing: four bytes of big-endian length, then the payload.

use crate::endian::{be32_bytes, be32_value, lemma_be32_roundtrip};
use crate::error::BonkError;
use vstd::prelude::*;

verus! {

/// Number of bytes in the length prefix of a frame.
pub const HEADER_LEN: usize = 4;

/// Largest payload a relay accepts unless configured otherwise (1 MiB).
pub const DEFAULT_MAX_FRAME: u32 = 1048576;

/// The frame that carries `payload`: its length, then its bytes.
pub open spec fn frame_bytes(payload: Seq<u8>) -> Seq<u8>
    recommends
        payload.len() <= u32::MAX,
{
    be32_bytes(payload.len()) + payload
}

/// What a reader finds at the start of `stream` under the limit `max`:
/// the payload of the first frame and the number of bytes the frame took,
/// or nothing where the frame is cut short or declares more than `max`.
pub open spec fn first_frame(stream: Seq<u8>, max: nat) -> Option<(Seq<u8>, nat)> {
    if stream.len() < 4 {
        None
    } else {
        let declared = be32_value(stream.subrange(0, 4));
        if declared > max || stream.len() < 4 + declared {
            None
        } else {
            Some((stream.subrange(4, 4 + declared as int), 4 + declared))
        }
    }
}

/// Frame exactness: a reader that meets the frame of `payload` at the head
/// of a stream, whatever follows it, gets back exactly `payload` and has
/// consumed exactly the frame, for every payload within the limit.
pub proof fn lemma_frame_exact(payload: Seq<u8>, rest: Seq<u8>, max: nat)
    requires
        payload.len() <= max,
        max <= u32::MAX,
    ensures
        first_frame(frame_bytes(payload) + rest, max) == Some(
            (payload, (4 + payload.len()) as nat),
        ),
{
    let stream = frame_bytes(payload) + rest;
    lemma_be32_roundtrip(payload.len());
    assert(stream.subrange(0, 4) =~= be32_bytes(payload.len()));
    assert(stream.subrange(4, 4 + payload.len() as int) =~= payload);
}

/// Oversized frames are refused: a declared length above the limit never
/// yields a payload, however many bytes follow the prefix.
pub proof fn lemma_oversized_refused(stream: Seq<u8>, max: nat)
    requires
        stream.len() >= 4,
        be32_value(stream.subrange(0, 4)) > max,
    ensures
        first_frame(stream, max) is None,
{
}

/// The length prefix for a payload of `len` bytes.
pub fn length_prefix(len: u32) -> (header: [u8; 4])
    ensures
        header@ == be32_bytes(len as nat),
{
    let header: [u8; 4] = [
        (len / 16777216) as u8,
        (len / 65536 % 256) as u8,
        (len / 256 % 256) as u8,
        (len % 256) as u8,
    ];
    assert(header@ =~= be32_bytes(len as nat));
    header
}

/// The length that a prefix declares.
pub fn declared_length(header: &[u8; 4]) -> (len: u32)
    ensures
        len == be32_value(header@),
{
    (header[0] as u32) * 16777216 + (header[1] as u32) * 65536 + (header[2] as u32) * 256 + (
    header[3] as u32)
}

/// Checks a length prefix against the limit before any buffer is made for
/// the payload: the number of payload bytes to read next, or
/// `MalformedFrame` when the prefix declares more than `max`.
pub fn payload_length(header: &[u8; 4], max: u32) -> (r: Result<u32, BonkError>)
    ensures
        r == if be32_value(header@) <= max {
            Ok::<u32, BonkError>(be32_value(header@) as u32)
        } else {
            Err::<u32, BonkError>(BonkError::MalformedFrame)
        },
{
    let declared: u32 = declared_length(header);
    if declared > max {
        Err(BonkError::MalformedFrame)
    } else {
        Ok(declared)
    }
}

/// Wraps `payload` in a frame.
///
/// Fails with `WriterFailure` exactly when the payload is too long for its
/// length to be written in four bytes.
pub fn encode(payload: &[u8]) -> (r: Result<Vec<u8>, BonkError>)
    ensures
        payload@.len() <= u32::MAX ==> r is Ok && r->Ok_0@ == frame_bytes(payload@),
        payload@.len() > u32::MAX ==> r == Err::<Vec<u8>, BonkError>(BonkError::WriterFailure),
{
    if payload.len() > u32::MAX as usize {
        return Err(BonkError::WriterFailure);
    }
    let header: [u8; 4] = length_prefix(payload.len() as u32);
    let mut out: Vec<u8> = Vec::with_capacity(payload.len());
    out.push(header[0]);
    out.push(header[1]);
    out.push(header[2]);
    out.push(header[3]);
    assert(out@ =~= be32_bytes(payload@.len()));
    out.extend_from_slice(payload);
    Ok(out)
}

/// Takes the first frame off the head of `stream`.
///
/// Returns the payload and the number of bytes consumed. Fails with
/// `MalformedFrame` exactly when fewer than four bytes are there, when the
/// declared length is above `max`, or when the payload is cut short. The
/// limit is checked before the payload is copied.
pub fn decode(stream: &[u8], max: u32) -> (r: Result<(Vec<u8>, usize), BonkError>)
    ensures
        match first_frame(stream@, max as nat) {
            Some((payload, used)) => r is Ok && r->Ok_0.0@ == payload && r->Ok_0.1 == used,
            None => r == Err::<(Vec<u8>, usize), BonkError>(BonkError::MalformedFrame),
        },
{
    if stream.len() < HEADER_LEN {
        return Err(BonkError::MalformedFrame);
    }
    let header: [u8; 4] = [stream[0], stream[1], stream[2], stream[3]];
    assert(header@ =~= stream@.subrange(0, 4));
    let declared: u32 = match payload_length(&header, max) {
        Ok(n) => n,
        Err(e) => {
            return Err(e);
        },
    };
    if stream.len() - HEADER_LEN < declared as usize {
        return Err(BonkError::MalformedFrame);
    }
    let end: usize = HEADER_LEN + declared as usize;
    let mut payload: Vec<u8> = Vec::with_capacity(declared as usize);
    let mut i: usize = HEADER_LEN;
    while i < end
        invariant
            HEADER_LEN <= i <= end <= stream.len(),
            payload@ == stream@.subrange(HEADER_LEN as int, i as int),
        decreases end - i,
    {
        payload.push(stream[i]);
        i += 1;
        assert(payload@ =~= stream@.subrange(HEADER_LEN as int, i as int));
    }
    Ok((payload, end))
}

} // verus!
