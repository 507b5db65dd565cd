//! The `AUD0` binary audio message: a 24-byte little-endian header
//! (magic, start time as IEEE-754 bits, sample rate, channel count, sample
//! count) followed by interleaved 16-bit samples.

use vstd::prelude::*;
use crate::endian::{
    le_u32, le_u64, le_i16, u32_of_le, u64_of_le, i16_of_le, push_le_u32, push_le_u64,
    push_le_i16, read_le_u32, read_le_u64, read_le_i16, lemma_le_u32_round_trip,
    lemma_le_u64_round_trip, lemma_le_i16_round_trip,
};

verus! {

/// Length of the fixed header that precedes the samples.
pub const HEADER_LEN: usize = 24;

/// The magic `"AUD0"` as bytes.
pub open spec fn magic() -> Seq<u8> {
    seq![0x41u8, 0x55u8, 0x44u8, 0x30u8]
}

/// One audio message as it travels on the wire. The start time is kept as the
/// bit pattern of the IEEE-754 double that the wire carries.
#[derive(Clone, Debug)]
pub struct AudioMessage {
    pub start_ms_bits: u64,
    pub sample_rate: u32,
    pub channels: u32,
    pub samples: Vec<i16>,
}

pub struct AudioMessageView {
    pub start_ms_bits: u64,
    pub sample_rate: u32,
    pub channels: u32,
    pub samples: Seq<i16>,
}

impl View for AudioMessage {
    type V = AudioMessageView;

    open spec fn view(&self) -> AudioMessageView {
        AudioMessageView {
            start_ms_bits: self.start_ms_bits,
            sample_rate: self.sample_rate,
            channels: self.channels,
            samples: self.samples@,
        }
    }
}

/// A chunk of captured audio, forwarded without a start time.
#[derive(Clone, Debug)]
pub struct AudioChunk {
    pub sample_rate: u32,
    pub channels: u32,
    pub samples: Vec<i16>,
}

/// The little-endian bytes of each sample, in order.
pub open spec fn samples_le(s: Seq<i16>) -> Seq<u8> {
    Seq::new(2 * s.len(), |j: int| le_i16(s[j / 2])[j % 2])
}

/// The wire bytes of a message.
pub open spec fn encode(m: AudioMessageView) -> Seq<u8> {
    magic() + le_u64(m.start_ms_bits) + le_u32(m.sample_rate) + le_u32(m.channels) + le_u32(
        m.samples.len() as u32,
    ) + samples_le(m.samples)
}

/// The sample count that a header declares.
pub open spec fn declared_count(b: Seq<u8>) -> u32 {
    u32_of_le(b[20], b[21], b[22], b[23])
}

/// Whether `b` holds a whole message: the magic, a full header and as many
/// sample bytes as the header declares.
pub open spec fn is_complete(b: Seq<u8>) -> bool {
    &&& b.len() >= 24
    &&& b.subrange(0, 4) == magic()
    &&& b.len() >= 24 + 2 * declared_count(b)
}

/// The message that a complete buffer holds; bytes past the declared samples are ignored.
pub open spec fn decode(b: Seq<u8>) -> Option<AudioMessageView> {
    if is_complete(b) {
        Some(
            AudioMessageView {
                start_ms_bits: u64_of_le(b.subrange(4, 12)),
                sample_rate: u32_of_le(b[12], b[13], b[14], b[15]),
                channels: u32_of_le(b[16], b[17], b[18], b[19]),
                samples: Seq::new(
                    declared_count(b) as nat,
                    |i: int| i16_of_le(b[24 + 2 * i], b[25 + 2 * i]),
                ),
            },
        )
    } else {
        None
    }
}

/// Whether the buffer starts with the `AUD0` magic.
pub fn is_audio_magic(buf: &[u8]) -> (r: bool)
    ensures
        r == (buf@.len() >= 4 && buf@.subrange(0, 4) == magic()),
{
    let r = buf.len() >= 4 && buf[0] == 0x41 && buf[1] == 0x55 && buf[2] == 0x44 && buf[3] == 0x30;
    proof {
        if buf@.len() >= 4 {
            if r {
                assert(buf@.subrange(0, 4) =~= magic());
            } else {
                assert(buf@.subrange(0, 4)[0] == buf@[0]);
                assert(buf@.subrange(0, 4)[1] == buf@[1]);
                assert(buf@.subrange(0, 4)[2] == buf@[2]);
                assert(buf@.subrange(0, 4)[3] == buf@[3]);
            }
        }
    }
    r
}

/// Parses an `AUD0` message. Returns `None` for a buffer without the magic,
/// shorter than the header, or shorter than the samples that the header declares.
pub fn parse_audio_chunk(buf: &[u8]) -> (r: Option<AudioMessage>)
    ensures
        r is Some <==> decode(buf@) is Some,
        r matches Some(m) ==> decode(buf@) == Some(m@),
{
    if !is_audio_magic(buf) || buf.len() < HEADER_LEN {
        return None;
    }
    let start_ms_bits = read_le_u64(buf, 4);
    let sample_rate = read_le_u32(buf, 12);
    let channels = read_le_u32(buf, 16);
    let sample_count = read_le_u32(buf, 20);
    let needed: u64 = 24 + (sample_count as u64) * 2;
    if (buf.len() as u64) < needed {
        return None;
    }
    let mut samples: Vec<i16> = Vec::with_capacity(sample_count as usize);
    let mut i: usize = 0;
    while i < sample_count as usize
        invariant
            needed == 24 + 2 * sample_count,
            needed <= buf@.len(),
            buf@.len() == buf.len(),
            i <= sample_count,
            samples@.len() == i,
            forall|k: int|
                0 <= k < i ==> samples@[k] == i16_of_le(buf@[24 + 2 * k], buf@[25 + 2 * k]),
        decreases sample_count - i,
    {
        let s = read_le_i16(buf, HEADER_LEN + 2 * i);
        samples.push(s);
        i = i + 1;
    }
    let m = AudioMessage { start_ms_bits, sample_rate, channels, samples };
    proof {
        let d = decode(buf@).unwrap();
        assert(d.samples =~= m@.samples);
        assert(d.start_ms_bits == m.start_ms_bits);
    }
    Some(m)
}

/// Serializes a message, with the sample count taken from the samples.
pub fn build_audio_chunk(msg: &AudioMessage) -> (r: Vec<u8>)
    requires
        msg.samples@.len() <= u32::MAX,
    ensures
        r@ == encode(msg@),
{
    let sample_count = msg.samples.len() as u32;
    let mut out: Vec<u8> = Vec::new();
    out.push(0x41);
    out.push(0x55);
    out.push(0x44);
    out.push(0x30);
    assert(out@ =~= magic());
    push_le_u64(&mut out, msg.start_ms_bits);
    push_le_u32(&mut out, msg.sample_rate);
    push_le_u32(&mut out, msg.channels);
    push_le_u32(&mut out, sample_count);
    let ghost head = out@;
    let mut i: usize = 0;
    while i < msg.samples.len()
        invariant
            i <= msg.samples@.len(),
            out@ == head + samples_le(msg.samples@.subrange(0, i as int)),
        decreases msg.samples@.len() - i,
    {
        push_le_i16(&mut out, msg.samples[i]);
        i = i + 1;
        assert(samples_le(msg.samples@.subrange(0, i as int)) =~= samples_le(
            msg.samples@.subrange(0, i - 1),
        ) + le_i16(msg.samples@[i - 1]));
    }
    assert(msg.samples@.subrange(0, msg.samples@.len() as int) =~= msg.samples@);
    out
}

/// Serializes captured audio; the start time is zero.
pub fn build_direct_audio_chunk(chunk: &AudioChunk) -> (r: Vec<u8>)
    requires
        chunk.samples@.len() <= u32::MAX,
    ensures
        r@ == encode(
            AudioMessageView {
                start_ms_bits: 0,
                sample_rate: chunk.sample_rate,
                channels: chunk.channels,
                samples: chunk.samples@,
            },
        ),
{
    let msg = AudioMessage {
        start_ms_bits: 0,
        sample_rate: chunk.sample_rate,
        channels: chunk.channels,
        samples: chunk.samples.clone(),
    };
    build_audio_chunk(&msg)
}

/// Building a message and parsing the bytes gives back every field and sample.
pub proof fn lemma_round_trip(m: AudioMessageView)
    requires
        m.samples.len() <= u32::MAX,
    ensures
        decode(encode(m)) == Some(m),
{
    let b = encode(m);
    let n = m.samples.len() as u32;
    lemma_le_u32_round_trip(m.sample_rate);
    lemma_le_u32_round_trip(m.channels);
    lemma_le_u32_round_trip(n);
    lemma_le_u64_round_trip(m.start_ms_bits);
    assert(b.subrange(0, 4) =~= magic());
    assert(b.subrange(4, 12) =~= le_u64(m.start_ms_bits));
    assert(declared_count(b) == n);
    let d = decode(b).unwrap();
    assert forall|i: int| 0 <= i < n implies d.samples[i] == m.samples[i] by {
        assert(b[24 + 2 * i] == le_i16(m.samples[i])[0]);
        assert(b[25 + 2 * i] == le_i16(m.samples[i])[1]);
        lemma_le_i16_round_trip(m.samples[i]);
    }
    assert(d.samples =~= m.samples);
}

/// A buffer shorter than its header plus the samples it declares is refused.
pub proof fn lemma_short_buffer_refused(b: Seq<u8>)
    requires
        b.len() >= 24,
        b.len() < 24 + 2 * declared_count(b),
    ensures
        decode(b) is None,
{
}

} // verus!
