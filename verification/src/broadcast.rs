//! The binary message by which a transcribed sentence is broadcast to other
//! plugins: the magic `WDIS`, the start and end of the speech as Unix
//! milliseconds (`i64`, little-endian, 8 bytes each), then the text in
//! UTF-8.
use vstd::prelude::*;
use vstd::bytes::{spec_u64_to_le_bytes, spec_u64_from_le_bytes, u64_to_le_bytes, u64_from_le_bytes};
use vstd::string::StringSliceAdditionalSpecFns;
use crate::transcript::push_bytes;

verus! {

/// The magic number that opens every message: `b"WDIS"`.
pub open spec fn magic() -> Seq<u8> {
    seq![87u8, 68u8, 73u8, 83u8]
}

/// Length of the fixed part of a message: magic and both timestamps.
pub const HEADER_LEN: usize = 20;

/// The two's-complement bit pattern of `x`.
pub open spec fn twos(x: i64) -> u64 {
    if x >= 0 {
        x as u64
    } else {
        (x + 0x1_0000_0000_0000_0000int) as u64
    }
}

/// The `i64` whose two's-complement bit pattern is `u`.
pub open spec fn from_twos(u: u64) -> i64 {
    if u < 0x8000_0000_0000_0000 {
        u as i64
    } else {
        (u - 0x1_0000_0000_0000_0000int) as i64
    }
}

/// The little-endian bytes of `x`.
pub open spec fn i64_le(x: i64) -> Seq<u8> {
    spec_u64_to_le_bytes(twos(x))
}

/// The message for a sentence spoken from `start_ms` to `end_ms`.
pub open spec fn message(start_ms: i64, end_ms: i64, text: Seq<u8>) -> Seq<u8> {
    magic() + i64_le(start_ms) + i64_le(end_ms) + text
}

/// A decoded message.
pub struct TranscriptMessage {
    /// When the speech started, in Unix milliseconds.
    pub start_ms: i64,
    /// When the speech ended, in Unix milliseconds.
    pub end_ms: i64,
    /// The UTF-8 bytes of the text.
    pub text: Vec<u8>,
}

/// What a payload decodes to: None unless it has at least 20 bytes and
/// starts with the magic; otherwise the two timestamps and the rest as text.
pub open spec fn decoded(payload: Seq<u8>) -> Option<(i64, i64, Seq<u8>)> {
    if payload.len() < 20 || payload.take(4) != magic() {
        None
    } else {
        Some(
            (
                from_twos(spec_u64_from_le_bytes(payload.subrange(4, 12))),
                from_twos(spec_u64_from_le_bytes(payload.subrange(12, 20))),
                payload.skip(20),
            ),
        )
    }
}

fn to_twos(x: i64) -> (u: u64)
    ensures
        u == twos(x),
{
    if x >= 0 {
        x as u64
    } else {
        ((x + i64::MAX + 1) as u64) + 0x8000_0000_0000_0000u64
    }
}

fn of_twos(u: u64) -> (x: i64)
    ensures
        x == from_twos(u),
{
    if u < 0x8000_0000_0000_0000u64 {
        u as i64
    } else {
        ((u - 0x8000_0000_0000_0000u64) as i64) - i64::MAX - 1
    }
}

/// Encodes the broadcast of `text`, spoken from `start_ms` to `end_ms`.
pub fn encode_transcript(start_ms: i64, end_ms: i64, text: &str) -> (m: Vec<u8>)
    ensures
        m@ == message(start_ms, end_ms, text.spec_bytes()),
{
    let mut m: Vec<u8> = Vec::new();
    m.push(87u8);
    m.push(68u8);
    m.push(73u8);
    m.push(83u8);
    let s = u64_to_le_bytes(to_twos(start_ms));
    push_bytes(&mut m, s.as_slice());
    let e = u64_to_le_bytes(to_twos(end_ms));
    push_bytes(&mut m, e.as_slice());
    push_bytes(&mut m, text.as_bytes());
    assert(m@ =~= message(start_ms, end_ms, text.spec_bytes()));
    m
}

/// Decodes a broadcast payload: None when it is shorter than 20 bytes or
/// does not start with `WDIS`.
pub fn decode_transcript(payload: &[u8]) -> (r: Option<TranscriptMessage>)
    ensures
        match decoded(payload@) {
            None => r is None,
            Some((s, e, t)) => r matches Some(msg) && msg.start_ms == s && msg.end_ms == e
                && msg.text@ == t,
        },
{
    if payload.len() < HEADER_LEN {
        return None;
    }
    if payload[0] != 87u8 || payload[1] != 68u8 || payload[2] != 73u8 || payload[3] != 83u8 {
        assert(payload@.take(4) != magic()) by {
            if payload@.take(4) == magic() {
                assert(payload@.take(4)[0] == payload@[0]);
                assert(payload@.take(4)[1] == payload@[1]);
                assert(payload@.take(4)[2] == payload@[2]);
                assert(payload@.take(4)[3] == payload@[3]);
            }
        }
        return None;
    }
    assert(payload@.take(4) =~= magic());
    let s = u64_from_le_bytes(vstd::slice::slice_subrange(payload, 4, 12));
    let e = u64_from_le_bytes(vstd::slice::slice_subrange(payload, 12, 20));
    let rest = vstd::slice::slice_subrange(payload, 20, payload.len());
    assert(rest@ =~= payload@.skip(20));
    Some(TranscriptMessage { start_ms: of_twos(s), end_ms: of_twos(e), text: vstd::slice::slice_to_vec(rest) })
}

/// Unix milliseconds of the instant `nanos` nanoseconds after the epoch,
/// rounded down.
pub open spec fn millis(nanos: int) -> int {
    nanos / 1_000_000
}

/// The span of a speech segment in Unix milliseconds: it starts at
/// `start_nanos` (see `clock::segment_time_nanos`) and lasts
/// `n_samples` samples at 16 kHz. None when its end does not fit in a `u64`
/// of nanoseconds.
pub fn segment_span_ms(start_nanos: u64, n_samples: usize) -> (span: Option<(i64, i64)>)
    ensures
        start_nanos + n_samples * 62500 > u64::MAX ==> span is None,
        start_nanos + n_samples * 62500 <= u64::MAX ==> span == Some(
            (
                millis(start_nanos as int) as i64,
                millis(start_nanos + n_samples * 62500) as i64,
            ),
        ),
{
    let n = n_samples as u64;
    match n.checked_mul(62500u64) {
        None => None,
        Some(len) => match start_nanos.checked_add(len) {
            None => None,
            Some(end) => Some(((start_nanos / 1_000_000) as i64, (end / 1_000_000) as i64)),
        },
    }
}

proof fn lemma_twos_roundtrip(x: i64)
    ensures
        from_twos(twos(x)) == x,
{
}

/// Decoding gives back exactly what was encoded: both timestamps and the
/// text.
pub proof fn law_decode_encode(start_ms: i64, end_ms: i64, text: Seq<u8>)
    ensures
        decoded(message(start_ms, end_ms, text)) == Some((start_ms, end_ms, text)),
{
    vstd::bytes::lemma_auto_spec_u64_to_from_le_bytes();
    lemma_twos_roundtrip(start_ms);
    lemma_twos_roundtrip(end_ms);
    let m = message(start_ms, end_ms, text);
    assert(m.take(4) =~= magic());
    assert(m.subrange(4, 12) =~= i64_le(start_ms));
    assert(m.subrange(12, 20) =~= i64_le(end_ms));
    assert(m.skip(20) =~= text);
}

/// Every message is at least 20 bytes long and starts with the magic.
pub proof fn law_message_framing(start_ms: i64, end_ms: i64, text: Seq<u8>)
    ensures
        message(start_ms, end_ms, text).len() == 20 + text.len(),
        message(start_ms, end_ms, text).take(4) == magic(),
{
    vstd::bytes::lemma_auto_spec_u64_to_from_le_bytes();
    assert(message(start_ms, end_ms, text).take(4) =~= magic());
}

/// Whatever the text, a message carries the magic in bytes 0..4, the
/// start in bytes 4..12, the end in bytes 12..20 and the text after; each
/// timestamp reads back as itself.
pub proof fn law_message_layout(start_ms: i64, end_ms: i64, text: Seq<u8>)
    ensures
        message(start_ms, end_ms, text).take(4) == seq![87u8, 68u8, 73u8, 83u8],
        message(start_ms, end_ms, text).subrange(4, 12) == i64_le(start_ms),
        message(start_ms, end_ms, text).subrange(12, 20) == i64_le(end_ms),
        message(start_ms, end_ms, text).skip(20) == text,
        from_twos(spec_u64_from_le_bytes(i64_le(start_ms))) == start_ms,
        from_twos(spec_u64_from_le_bytes(i64_le(end_ms))) == end_ms,
        i64_le(start_ms).len() == 8,
{
    vstd::bytes::lemma_auto_spec_u64_to_from_le_bytes();
    lemma_twos_roundtrip(start_ms);
    lemma_twos_roundtrip(end_ms);
    let m = message(start_ms, end_ms, text);
    assert(m.take(4) =~= seq![87u8, 68u8, 73u8, 83u8]);
    assert(m.subrange(4, 12) =~= i64_le(start_ms));
    assert(m.subrange(12, 20) =~= i64_le(end_ms));
    assert(m.skip(20) =~= text);
}

/// Encoding what a payload decodes to gives the payload back: a decoded
/// message loses and reorders nothing.
pub proof fn law_encode_decoded(payload: Seq<u8>)
    ensures
        decoded(payload) matches Some((s, e, t)) ==> message(s, e, t) == payload,
{
    vstd::bytes::lemma_auto_spec_u64_to_from_le_bytes();
    if let Some((s, e, t)) = decoded(payload) {
        let sb = payload.subrange(4, 12);
        let eb = payload.subrange(12, 20);
        lemma_from_twos_roundtrip(spec_u64_from_le_bytes(sb));
        lemma_from_twos_roundtrip(spec_u64_from_le_bytes(eb));
        assert(spec_u64_to_le_bytes(spec_u64_from_le_bytes(sb)) == sb);
        assert(spec_u64_to_le_bytes(spec_u64_from_le_bytes(eb)) == eb);
        assert(message(s, e, t) =~= payload);
    }
}

proof fn lemma_from_twos_roundtrip(u: u64)
    ensures
        twos(from_twos(u)) == u,
{
}

} // verus!
