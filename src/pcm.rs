//! Interleaved 16-bit PCM: the mono mixdown of captured audio, the
//! interleaving of decoded channel planes, and the decoded-audio record.

use vstd::prelude::*;

verus! {

/// The default sample rate when a track does not give one.
pub const DEFAULT_SAMPLE_RATE: u32 = 48000;

/// The default channel count when a track does not give one.
pub const DEFAULT_CHANNELS: u32 = 2;

/// A whole decoded audio track, interleaved.
#[derive(Debug)]
pub struct DecodedAudio {
    pub samples: Vec<i16>,
    pub sample_rate: u32,
    pub channels: u32,
}

/// `a / b` rounded toward zero, as integer division in Rust does.
pub open spec fn div_toward_zero(a: int, b: int) -> int {
    if a >= 0 {
        a / b
    } else {
        -((-a) / b)
    }
}

/// The sum of `k` samples from index `start`.
pub open spec fn run_sum(s: Seq<i16>, start: int, k: int) -> int
    decreases k,
{
    if k <= 0 {
        0
    } else {
        run_sum(s, start, k - 1) + s[start + k - 1]
    }
}

/// The number of frames of `ch` samples, the last one possibly short.
pub open spec fn frame_total(len: int, ch: int) -> int {
    (len + ch - 1) / ch
}

/// The samples in frame `i`: `ch`, or fewer in a short last frame.
pub open spec fn frame_width(len: int, ch: int, i: int) -> int {
    if len - i * ch < ch {
        len - i * ch
    } else {
        ch
    }
}

/// The mono sample of frame `i`: the frame's sum divided by the channel count.
pub open spec fn mono_sample(s: Seq<i16>, ch: int, i: int) -> int {
    div_toward_zero(run_sum(s, i * ch, frame_width(s.len() as int, ch, i)), ch)
}

proof fn lemma_run_sum_bounds(s: Seq<i16>, start: int, k: int)
    requires
        0 <= k,
        0 <= start,
        start + k <= s.len(),
    ensures
        -32768 * k <= run_sum(s, start, k) <= 32767 * k,
    decreases k,
{
    if k > 0 {
        lemma_run_sum_bounds(s, start, k - 1);
    }
}

/// Mixes interleaved samples down to mono: each frame of `channels` samples
/// becomes its sum divided by `channels`, rounded toward zero.
pub fn mixdown_mono(samples: &Vec<i16>, channels: u32) -> (r: Vec<i16>)
    requires
        1 <= channels <= 0xffff,
    ensures
        r@.len() == frame_total(samples@.len() as int, channels as int),
        forall|i: int| 0 <= i < r@.len() ==> #[trigger] r@[i] == mono_sample(samples@, channels as int, i),
{
    let ch = channels as usize;
    let len = samples.len();
    let mut out: Vec<i16> = Vec::new();
    let mut start: usize = 0;
    let ghost s = samples@;
    assert(frame_total(0, ch as int) == 0) by (nonlinear_arith)
        requires
            ch >= 1,
    ;
    while start < len
        invariant
            s == samples@,
            len == s.len(),
            ch == channels,
            1 <= ch <= 0xffff,
            start <= len,
            out@.len() == frame_total(start as int, ch as int),
            start < len ==> start == out@.len() * ch,
            forall|i: int| 0 <= i < out@.len() ==> #[trigger] out@[i] == mono_sample(s, ch as int, i),
        decreases len - start,
    {
        let i = out.len();
        let width: usize = if len - start < ch {
            len - start
        } else {
            ch
        };
        let mut sum: i32 = 0;
        let mut k: usize = 0;
        while k < width
            invariant
                s == samples@,
                len == s.len(),
                start + width <= len,
                width <= ch <= 0xffff,
                k <= width,
                sum == run_sum(s, start as int, k as int),
                -32768 * k <= sum <= 32767 * k,
            decreases width - k,
        {
            sum = sum + samples[start + k] as i32;
            k = k + 1;
        }
        let m: i32 = if sum >= 0 {
            sum / (ch as i32)
        } else {
            -((-sum) / (ch as i32))
        };
        proof {
            assert(width == frame_width(len as int, ch as int, i as int));
            assert(-32768 <= m <= 32767) by (nonlinear_arith)
                requires
                    -32768 * width <= sum <= 32767 * width,
                    width <= ch,
                    ch >= 1,
                    m == div_toward_zero(sum as int, ch as int),
            ;
        }
        out.push(m as i16);
        proof {
            assert(start == i * ch);
            assert(frame_total((start + width) as int, ch as int) == i + 1) by (nonlinear_arith)
                requires
                    start == i * ch,
                    1 <= width <= ch,
                    frame_total((start + width) as int, ch as int) == (start + width + ch - 1) / (
                    ch as int),
            ;
            if start + width < len {
                assert(width == ch);
                assert(start + width == out@.len() * ch) by (nonlinear_arith)
                    requires
                        start == i * ch,
                        width == ch,
                        out@.len() == i + 1,
                ;
            }
        }
        start = start + width;
    }
    out
}

/// The source plane that output channel `ch` takes: its own, or the last one
/// when the source has fewer channels.
pub open spec fn source_plane(ch: int, planes: int) -> int {
    if ch < planes {
        ch
    } else {
        planes - 1
    }
}

/// The 16-bit form of a 32-bit sample: its high half.
pub open spec fn s32_to_i16(x: i32) -> i16 {
    (x >> 16i32) as i16
}

/// Interleaves `frames` frames of 16-bit channel planes into `target`
/// channels, repeating the last plane for channels the source lacks.
pub fn interleave_s16(planes: &Vec<Vec<i16>>, frames: usize, target: usize) -> (r: Vec<i16>)
    requires
        planes@.len() >= 1,
        forall|p: int| 0 <= p < planes@.len() ==> #[trigger] planes@[p]@.len() >= frames,
        frames * target <= usize::MAX,
    ensures
        r@.len() == frames * target,
        forall|f: int, c: int|
            0 <= f < frames && 0 <= c < target ==> #[trigger] r@[f * target + c]
                == planes@[source_plane(c, planes@.len() as int)]@[f],
{
    let n = planes.len();
    let mut out: Vec<i16> = Vec::new();
    let mut f: usize = 0;
    while f < frames
        invariant
            n == planes@.len(),
            n >= 1,
            forall|p: int| 0 <= p < n ==> #[trigger] planes@[p]@.len() >= frames,
            frames * target <= usize::MAX,
            f <= frames,
            out@.len() == f * target,
            forall|ff: int, c: int|
                0 <= ff < f && 0 <= c < target ==> #[trigger] out@[ff * target + c]
                    == planes@[source_plane(c, n as int)]@[ff],
        decreases frames - f,
    {
        let mut c: usize = 0;
        while c < target
            invariant
                n == planes@.len(),
                n >= 1,
                forall|p: int| 0 <= p < n ==> #[trigger] planes@[p]@.len() >= frames,
                frames * target <= usize::MAX,
                f < frames,
                c <= target,
                out@.len() == f * target + c,
                forall|ff: int, cc: int|
                    0 <= ff < f && 0 <= cc < target ==> #[trigger] out@[ff * target + cc]
                        == planes@[source_plane(cc, n as int)]@[ff],
                forall|cc: int| 0 <= cc < c ==> #[trigger] out@[f * target + cc]
                    == planes@[source_plane(cc, n as int)]@[f as int],
            decreases target - c,
        {
            let p = if c < n {
                c
            } else {
                n - 1
            };
            let v = planes[p][f];
            let ghost before = out@;
            proof {
                assert(f * target + c < frames * target) by (nonlinear_arith)
                    requires
                        f < frames,
                        c < target,
                ;
            }
            out.push(v);
            proof {
                assert forall|ff: int, cc: int|
                    0 <= ff < f && 0 <= cc < target implies #[trigger] out@[ff * target + cc]
                        == planes@[source_plane(cc, n as int)]@[ff] by {
                    assert(ff * target + cc < f * target) by (nonlinear_arith)
                        requires
                            ff < f,
                            cc < target,
                    ;
                    assert(out@[ff * target + cc] == before[ff * target + cc]);
                }
            }
            c = c + 1;
        }
        proof {
            assert(f * target + target == (f + 1) * target) by (nonlinear_arith);
            assert forall|ff: int, cc: int|
                0 <= ff < f + 1 && 0 <= cc < target implies #[trigger] out@[ff * target + cc]
                    == planes@[source_plane(cc, n as int)]@[ff] by {}
        }
        f = f + 1;
    }
    out
}

/// Converts 32-bit channel planes to 16 bits by keeping each sample's high half.
pub fn planes_s32_to_s16(planes: &Vec<Vec<i32>>) -> (r: Vec<Vec<i16>>)
    ensures
        r@.len() == planes@.len(),
        forall|p: int| 0 <= p < r@.len() ==> #[trigger] r@[p]@.len() == planes@[p]@.len(),
        forall|p: int, i: int|
            0 <= p < r@.len() && 0 <= i < r@[p]@.len() ==> #[trigger] r@[p]@[i] == s32_to_i16(
                planes@[p]@[i],
            ),
{
    let mut out: Vec<Vec<i16>> = Vec::new();
    let mut p: usize = 0;
    while p < planes.len()
        invariant
            p <= planes@.len(),
            out@.len() == p,
            forall|q: int| 0 <= q < p ==> #[trigger] out@[q]@.len() == planes@[q]@.len(),
            forall|q: int, i: int|
                0 <= q < p && 0 <= i < out@[q]@.len() ==> #[trigger] out@[q]@[i] == s32_to_i16(
                    planes@[q]@[i],
                ),
        decreases planes@.len() - p,
    {
        let src = &planes[p];
        let mut plane: Vec<i16> = Vec::new();
        let mut i: usize = 0;
        while i < src.len()
            invariant
                i <= src@.len(),
                plane@.len() == i,
                forall|k: int| 0 <= k < i ==> #[trigger] plane@[k] == s32_to_i16(src@[k]),
            decreases src@.len() - i,
        {
            let x = src[i];
            plane.push((x >> 16i32) as i16);
            i = i + 1;
        }
        out.push(plane);
        p = p + 1;
    }
    out
}

/// The decoded track, or `None` when nothing was decoded; a missing sample
/// rate or channel count takes its default.
pub fn decoded_audio(samples: Vec<i16>, sample_rate: Option<u32>, channels: Option<u32>) -> (r: Option<DecodedAudio>)
    ensures
        samples@.len() == 0 <==> r is None,
        r matches Some(d) ==> d.samples@ == samples@ && d.sample_rate == (match sample_rate {
            Some(x) => x,
            None => DEFAULT_SAMPLE_RATE,
        }) && d.channels == (match channels {
            Some(x) => x,
            None => DEFAULT_CHANNELS,
        }),
{
    if samples.len() == 0 {
        return None;
    }
    let sample_rate = match sample_rate {
        Some(x) => x,
        None => DEFAULT_SAMPLE_RATE,
    };
    let channels = match channels {
        Some(x) => x,
        None => DEFAULT_CHANNELS,
    };
    Some(DecodedAudio { samples, sample_rate, channels })
}

} // verus!
