//! Wire framing: a four-byte little-endian length prefix followed by exactly
//! that many payload bytes.

use vstd::prelude::*;
use vstd::utf8::{decode_utf8, encode_utf8, valid_utf8};

verus! {

/// The largest payload, in bytes, that a frame may declare in either direction.
pub const NATIVE_MESSAGING_BUFFER_SIZE: usize = 1024 * 1024;

/// Width of the length prefix in bytes.
pub const LENGTH_PREFIX_SIZE: usize = 4;

/// The four prefix bytes that declare a payload of `n` bytes, least significant first.
pub open spec fn length_prefix(n: nat) -> Seq<u8> {
    seq![
        (n % 256) as u8,
        ((n / 256) % 256) as u8,
        ((n / 65536) % 256) as u8,
        ((n / 16777216) % 256) as u8,
    ]
}

/// The payload length that the first four bytes of `buf` declare.
pub open spec fn declared_length(buf: Seq<u8>) -> nat
    recommends
        buf.len() >= 4,
{
    (buf[0] as nat) + 256 * (buf[1] as nat) + 65536 * (buf[2] as nat) + 16777216 * (buf[3] as nat)
}

/// The frame that carries `payload`.
pub open spec fn frame_of(payload: Seq<u8>) -> Seq<u8> {
    length_prefix(payload.len()) + payload
}

/// What the head of a byte stream decodes to.
pub ghost enum Decoded {
    /// More bytes are needed before anything can be said.
    Incomplete,
    /// The prefix declares more than the cap allows.
    Oversized,
    /// One whole frame, and the bytes that follow it.
    Frame { payload: Seq<u8>, rest: Seq<u8> },
}

/// Decodes the first frame of `buf`.
pub open spec fn decode(buf: Seq<u8>) -> Decoded {
    if buf.len() < 4 {
        Decoded::Incomplete
    } else if declared_length(buf) > NATIVE_MESSAGING_BUFFER_SIZE {
        Decoded::Oversized
    } else if buf.len() < 4 + declared_length(buf) {
        Decoded::Incomplete
    } else {
        Decoded::Frame {
            payload: buf.subrange(4, 4 + declared_length(buf) as int),
            rest: buf.subrange(4 + declared_length(buf) as int, buf.len() as int),
        }
    }
}

/// What the head of a byte stream reads as, once a payload must also be text.
pub ghost enum ReadOutcome {
    /// More bytes are needed before anything can be said.
    Pending,
    /// One whole frame of text, and the bytes that follow it.
    Text { text: Seq<char>, rest: Seq<u8> },
    /// The stream broke the protocol and cannot be read any further.
    Violation { error: FrameError },
}

/// Reads the first frame of `buf` as text.
pub open spec fn read_outcome(buf: Seq<u8>) -> ReadOutcome {
    match decode(buf) {
        Decoded::Incomplete => ReadOutcome::Pending,
        Decoded::Oversized => ReadOutcome::Violation { error: FrameError::TooLarge },
        Decoded::Frame { payload, rest } => if valid_utf8(payload) {
            ReadOutcome::Text { text: decode_utf8(payload), rest }
        } else {
            ReadOutcome::Violation { error: FrameError::InvalidEncoding }
        },
    }
}

/// Why a payload or a frame was refused.
#[derive(Clone, Copy, Debug, PartialEq, Eq, Structural)]
pub enum FrameError {
    /// The payload, or the declared length, exceeds the cap.
    TooLarge,
    /// The payload is not valid UTF-8 text.
    InvalidEncoding,
}

/// The outcome of one decoding step on buffered bytes.
#[derive(Debug)]
pub enum DecodeStep {
    /// The buffer does not hold a whole frame yet.
    Incomplete,
    /// The prefix declares more than the cap allows.
    Oversized,
    /// A whole frame: its payload, and how many buffered bytes it occupied.
    Frame { payload: Vec<u8>, consumed: usize },
}

impl DecodeStep {
    /// The decoding result that this step stands for, given the buffer it was taken from.
    pub open spec fn matches_decoded(self, buf: Seq<u8>, d: Decoded) -> bool {
        match self {
            DecodeStep::Incomplete => d == Decoded::Incomplete,
            DecodeStep::Oversized => d == Decoded::Oversized,
            DecodeStep::Frame { payload, consumed } => d == (Decoded::Frame {
                payload: payload@,
                rest: buf.subrange(consumed as int, buf.len() as int),
            }) && consumed == 4 + payload@.len() && consumed <= buf.len(),
        }
    }
}

/// Encoding then decoding gives the payload back, with whatever followed the
/// frame left over, for every payload from empty up to the cap.
pub proof fn lemma_round_trip(payload: Seq<u8>, rest: Seq<u8>)
    requires
        payload.len() <= NATIVE_MESSAGING_BUFFER_SIZE,
    ensures
        decode(frame_of(payload) + rest) == (Decoded::Frame { payload, rest }),
        declared_length(frame_of(payload)) == payload.len(),
        frame_of(payload).len() == 4 + payload.len(),
{
    let buf = frame_of(payload) + rest;
    let n = payload.len() as int;
    assert(buf[0] == (n % 256) as u8);
    assert(buf[1] == ((n / 256) % 256) as u8);
    assert(buf[2] == ((n / 65536) % 256) as u8);
    assert(buf[3] == ((n / 16777216) % 256) as u8);
    assert(declared_length(buf) == n);
    assert(buf.subrange(4, 4 + n) =~= payload);
    assert(buf.subrange(4 + n, buf.len() as int) =~= rest);
}

/// A prefix that declares more than the cap never yields a frame, whatever follows it.
pub proof fn lemma_oversized_never_decodes(buf: Seq<u8>)
    requires
        buf.len() >= 4,
        declared_length(buf) > NATIVE_MESSAGING_BUFFER_SIZE,
    ensures
        decode(buf) == Decoded::Oversized,
{
}

/// A frame is decoded as soon as it is complete, and what is decoded does not
/// depend on the bytes that arrive after it.
pub proof fn lemma_decode_ignores_tail(buf: Seq<u8>, more: Seq<u8>)
    requires
        decode(buf) is Frame,
    ensures
        decode(buf + more) == (Decoded::Frame {
            payload: decode(buf)->payload,
            rest: decode(buf)->rest + more,
        }),
{
    let n = declared_length(buf) as int;
    let all = buf + more;
    assert(all[0] == buf[0] && all[1] == buf[1] && all[2] == buf[2] && all[3] == buf[3]);
    assert(all.subrange(4, 4 + n) =~= buf.subrange(4, 4 + n));
    assert(all.subrange(4 + n, all.len() as int) =~= buf.subrange(4 + n, buf.len() as int) + more);
}

/// Text that is framed is read back as it was, with whatever followed the
/// frame left over, as long as its encoding is within the cap.
pub proof fn lemma_text_round_trip(text: Seq<char>, rest: Seq<u8>)
    requires
        encode_utf8(text).len() <= NATIVE_MESSAGING_BUFFER_SIZE,
    ensures
        read_outcome(frame_of(encode_utf8(text)) + rest) == (ReadOutcome::Text { text, rest }),
{
    lemma_round_trip(encode_utf8(text), rest);
    vstd::utf8::encode_utf8_valid_utf8(text);
    vstd::utf8::encode_utf8_decode_utf8(text);
}

/// Builds the frame for `payload`, or refuses a payload above the cap.
pub fn encode_frame(payload: &[u8]) -> (result: Result<Vec<u8>, FrameError>)
    ensures
        payload@.len() <= NATIVE_MESSAGING_BUFFER_SIZE ==> result is Ok && result->Ok_0@
            == frame_of(payload@),
        payload@.len() > NATIVE_MESSAGING_BUFFER_SIZE ==> result == Err::<Vec<u8>, FrameError>(
            FrameError::TooLarge,
        ),
{
    let n: usize = payload.len();
    if n > NATIVE_MESSAGING_BUFFER_SIZE {
        return Err(FrameError::TooLarge);
    }
    let mut frame: Vec<u8> = Vec::new();
    frame.push((n % 256) as u8);
    frame.push(((n / 256) % 256) as u8);
    frame.push(((n / 65536) % 256) as u8);
    frame.push(((n / 16777216) % 256) as u8);
    let mut i: usize = 0;
    while i < n
        invariant
            i <= n,
            n == payload@.len(),
            frame@ == length_prefix(n as nat) + payload@.subrange(0, i as int),
        decreases n - i,
    {
        frame.push(payload[i]);
        i += 1;
    }
    assert(payload@.subrange(0, n as int) =~= payload@);
    Ok(frame)
}

/// Takes one decoding step on the bytes buffered so far.
pub fn decode_frame(buf: &[u8]) -> (step: DecodeStep)
    ensures
        step.matches_decoded(buf@, decode(buf@)),
{
    if buf.len() < LENGTH_PREFIX_SIZE {
        return DecodeStep::Incomplete;
    }
    let declared: u64 = (buf[0] as u64) + 256 * (buf[1] as u64) + 65536 * (buf[2] as u64) + 16777216
        * (buf[3] as u64);
    if declared > NATIVE_MESSAGING_BUFFER_SIZE as u64 {
        return DecodeStep::Oversized;
    }
    let n: usize = declared as usize;
    let total: usize = buf.len();
    if total - LENGTH_PREFIX_SIZE < n {
        return DecodeStep::Incomplete;
    }
    let mut payload: Vec<u8> = Vec::new();
    let mut i: usize = 0;
    while i < n
        invariant
            i <= n,
            total == buf@.len(),
            4 + n <= total,
            payload@ == buf@.subrange(4, 4 + i as int),
        decreases n - i,
    {
        payload.push(buf[LENGTH_PREFIX_SIZE + i]);
        i += 1;
    }
    DecodeStep::Frame { payload, consumed: LENGTH_PREFIX_SIZE + n }
}

/// Trusted: `String::from_utf8` of the standard library. It succeeds exactly
/// on well-formed UTF-8 and then yields the characters that the bytes encode.
#[verifier::external_body]
pub(crate) fn text_from_utf8(bytes: Vec<u8>) -> (text: Option<String>)
    ensures
        text is Some <==> valid_utf8(bytes@),
        text is Some ==> text->Some_0@ == decode_utf8(bytes@),
{
    String::from_utf8(bytes).ok()
}

} // verus!
