//! Paced playback decisions: which samples are sent from a start offset,
//! how long after the start each is due, and how the decoded audio between
//! two video frames is cut into chunks.

use vstd::prelude::*;
use crate::aud0::{AudioMessage, AudioMessageView, encode};

verus! {

/// Audio chunks last 40 ms: a 25th of a second of samples.
pub const AUDIO_CHUNKS_PER_SECOND: u64 = 25;

/// What to do with the next sample.
#[derive(Debug, Clone, Copy, PartialEq, Eq, Structural)]
pub enum FrameDecision {
    /// Not sent: before the start offset, or before the first keyframe at or after it.
    Skip,
    /// Sent once `due_us` microseconds have passed since playback started.
    Send { due_us: u64 },
}

/// Where a pass of playback stands.
pub struct PlaybackCursor {
    start_us: u64,
    found_keyframe: bool,
    last_audio_us: u64,
}

/// The decision for a sample at `ts_us`, and whether a keyframe has been seen
/// after it: samples before `start_us` are skipped, then every sample until
/// the first keyframe; later samples are due `ts_us - start_us` after the start.
pub open spec fn decide(start_us: u64, found: bool, ts_us: u64, is_keyframe: bool) -> (FrameDecision, bool) {
    if ts_us < start_us {
        (FrameDecision::Skip, found)
    } else if !found && !is_keyframe {
        (FrameDecision::Skip, false)
    } else {
        (FrameDecision::Send { due_us: (ts_us - start_us) as u64 }, true)
    }
}

/// Pacing: once a keyframe at or after the start offset `s` has been seen, a
/// sample at `t >= s` is sent, due `t - s` after playback started; samples
/// before `s` are never sent.
pub proof fn lemma_pacing_due(s: u64, t: u64, is_keyframe: bool, found: bool)
    ensures
        t >= s && (found || is_keyframe) ==> (decide(s, found, t, is_keyframe).0
            == (FrameDecision::Send { due_us: (t - s) as u64 })),
        t < s ==> (decide(s, found, t, is_keyframe).0 == FrameDecision::Skip),
{
}

/// The index of the interleaved sample at time `t_us`.
pub open spec fn sample_at(t_us: u64, sample_rate: u32, channels: u32) -> int {
    t_us * (sample_rate * channels) / 1_000_000
}

/// The chunk ranges from `pos` up to `stop`, each at most `chunk` long.
pub open spec fn chunks_from(pos: int, stop: int, chunk: int) -> Seq<(usize, usize)>
    decreases stop - pos,
{
    if chunk <= 0 || pos >= stop {
        Seq::empty()
    } else {
        let end = if pos + chunk < stop {
            pos + chunk
        } else {
            stop
        };
        seq![(pos as usize, end as usize)] + chunks_from(end, stop, chunk)
    }
}

fn audio_chunks(start: usize, stop: usize, chunk: u64) -> (r: Vec<(usize, usize)>)
    requires
        chunk >= 1,
    ensures
        r@ == chunks_from(start as int, stop as int, chunk as int),
{
    let mut out: Vec<(usize, usize)> = Vec::new();
    let mut pos = start;
    while pos < stop
        invariant
            chunk >= 1,
            pos >= start,
            pos < stop ==> out@ + chunks_from(pos as int, stop as int, chunk as int) == chunks_from(
                start as int,
                stop as int,
                chunk as int,
            ),
            pos >= stop ==> out@ == chunks_from(start as int, stop as int, chunk as int),
        decreases stop - pos,
    {
        let end = if (chunk as u128) < (stop - pos) as u128 {
            pos + chunk as usize
        } else {
            stop
        };
        let ghost before = out@;
        out.push((pos, end));
        proof {
            assert(chunks_from(pos as int, stop as int, chunk as int) == seq![(pos, end)] + chunks_from(end as int, stop as int, chunk as int));
            assert(before.push((pos, end)) + chunks_from(end as int, stop as int, chunk as int) =~= before + chunks_from(pos as int, stop as int, chunk as int));
            if end >= stop {
                assert(chunks_from(end as int, stop as int, chunk as int) =~= Seq::<(usize, usize)>::empty());
                assert(out@ =~= before + chunks_from(pos as int, stop as int, chunk as int));
            }
        }
        pos = end;
    }
    if start >= stop {
        assert(out@ =~= chunks_from(start as int, stop as int, chunk as int));
    }
    out
}

/// The number of interleaved samples in 40 ms of audio.
pub open spec fn chunk_len(sample_rate: u32, channels: u32) -> int {
    sample_rate * channels / (AUDIO_CHUNKS_PER_SECOND as int)
}

fn per_second(sample_rate: u32, channels: u32) -> (r: u64)
    ensures
        r == sample_rate * channels,
{
    assert((sample_rate as u64) * (channels as u64) <= 0xffff_ffffu64 * 0xffff_ffffu64) by (nonlinear_arith)
        requires
            sample_rate <= 0xffff_ffffu32,
            channels <= 0xffff_ffffu32,
    ;
    sample_rate as u64 * channels as u64
}

/// The number of interleaved samples in 40 ms of audio; the audio window
/// needs at least one.
pub fn audio_chunk_len(sample_rate: u32, channels: u32) -> (r: u64)
    ensures
        r == chunk_len(sample_rate, channels),
{
    per_second(sample_rate, channels) / AUDIO_CHUNKS_PER_SECOND
}

fn sample_index(t_us: u64, sample_rate: u32, channels: u32, total: usize) -> (r: usize)
    ensures
        r == if sample_at(t_us, sample_rate, channels) < total {
            sample_at(t_us, sample_rate, channels)
        } else {
            total as int
        },
{
    let per_second = per_second(sample_rate, channels);
    assert((t_us as u128) * (per_second as u128) <= 0xffff_ffff_ffff_ffffu128 * 0xffff_ffff_ffff_ffffu128) by (nonlinear_arith)
        requires
            t_us <= 0xffff_ffff_ffff_ffffu64,
            per_second <= 0xffff_ffff_ffff_ffffu64,
    ;
    let p: u128 = (t_us as u128) * (per_second as u128) / 1_000_000;
    if p < total as u128 {
        p as usize
    } else {
        total
    }
}

impl PlaybackCursor {
    pub closed spec fn start(&self) -> u64 {
        self.start_us
    }

    pub closed spec fn found_keyframe(&self) -> bool {
        self.found_keyframe
    }

    pub closed spec fn last_audio(&self) -> u64 {
        self.last_audio_us
    }

    /// A pass starting at `start_us`: no keyframe seen, audio sent up to the start.
    pub fn new(start_us: u64) -> (r: PlaybackCursor)
        ensures
            r.start() == start_us,
            !r.found_keyframe(),
            r.last_audio() == start_us,
    {
        PlaybackCursor { start_us, found_keyframe: false, last_audio_us: start_us }
    }

    /// Decides on the next sample of the pass.
    pub fn on_frame(&mut self, ts_us: u64, is_keyframe: bool) -> (r: FrameDecision)
        ensures
            (r, final(self).found_keyframe()) == decide(
                old(self).start(),
                old(self).found_keyframe(),
                ts_us,
                is_keyframe,
            ),
            final(self).start() == old(self).start(),
            final(self).last_audio() == old(self).last_audio(),
    {
        if ts_us < self.start_us {
            return FrameDecision::Skip;
        }
        if !self.found_keyframe {
            if !is_keyframe {
                return FrameDecision::Skip;
            }
            self.found_keyframe = true;
        }
        FrameDecision::Send { due_us: ts_us - self.start_us }
    }

    /// The ranges of the decoded audio (of `total` interleaved samples) to send
    /// before the video sample at `ts_us`: from where the last window ended to
    /// `ts_us`, in 40 ms chunks, within the samples there are. The next window
    /// starts at `ts_us`.
    pub fn audio_window(&mut self, ts_us: u64, sample_rate: u32, channels: u32, total: usize) -> (r: Vec<(usize, usize)>)
        requires
            chunk_len(sample_rate, channels) >= 1,
        ensures
            ({
                let from = sample_at(old(self).last_audio(), sample_rate, channels);
                let to = sample_at(ts_us, sample_rate, channels);
                let stop = if to < total { to } else { total as int };
                let first = if from < total { from } else { total as int };
                r@ == chunks_from(first, stop, chunk_len(sample_rate, channels))
            }),
            final(self).last_audio() == ts_us,
            final(self).start() == old(self).start(),
            final(self).found_keyframe() == old(self).found_keyframe(),
    {
        let from = sample_index(self.last_audio_us, sample_rate, channels, total);
        let to = sample_index(ts_us, sample_rate, channels, total);
        let chunk = per_second(sample_rate, channels) / AUDIO_CHUNKS_PER_SECOND;
        self.last_audio_us = ts_us;
        audio_chunks(from, to, chunk)
    }
}

/// An `AUD0` message for a chunk of decoded file audio; the start time is zero.
pub fn build_audio_chunk(samples: &[i16], sample_rate: u32, channels: u32) -> (r: Vec<u8>)
    requires
        samples@.len() <= u32::MAX,
    ensures
        r@ == encode(
            AudioMessageView { start_ms_bits: 0, sample_rate, channels, samples: samples@ },
        ),
{
    let msg = AudioMessage {
        start_ms_bits: 0,
        sample_rate,
        channels,
        samples: vstd::slice::slice_to_vec(samples),
    };
    crate::aud0::build_audio_chunk(&msg)
}

} // verus!
