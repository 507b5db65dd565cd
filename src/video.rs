//! The decisions around an H.264 encoder: resolution tracking, IDR policy,
//! NAL normalization, AVCC output framing and configuration synthesis. The
//! encoder itself is driven by the caller, which reports what it emitted.

use vstd::prelude::*;
use crate::avcc::{
    avcc_frame, avcc_record_of, lemma_record_len, build_avcc_from_nals, lengths_fit, nals_to_avcc, normalize_nal,
    normalized,
};
use crate::text::{base64_of, encode_base64};

verus! {

pub const MIN_BITRATE: u32 = 500_000;

pub const MAX_BITRATE: u32 = 15_000_000;

/// The target frame rate that a rebuilt encoder is configured for.
pub const TARGET_FPS: u32 = 60;

#[derive(Debug, Clone, Copy, PartialEq, Eq, Structural)]
pub enum VideoCodec {
    Avc,
    Hevc,
}

/// What the session announces before the first video binary.
#[derive(Debug)]
pub struct VideoConfig {
    pub codec: VideoCodec,
    pub width: u32,
    pub height: u32,
    pub description_b64: String,
}

/// One encoded frame: NAL units in AVCC framing.
#[derive(Debug)]
pub struct EncodedChunk {
    pub data: Vec<u8>,
}

#[derive(Debug, PartialEq, Eq)]
pub enum EncoderError {
    /// Only AVC can be encoded.
    UnsupportedCodec,
}

/// The configuration of an encoder to build.
#[derive(Debug, Clone, Copy, PartialEq, Eq, Structural)]
pub struct EncoderSettings {
    pub width: u32,
    pub height: u32,
    pub bitrate_bps: u32,
}

/// What to do with a captured frame.
#[derive(Debug, Clone, Copy, PartialEq, Eq, Structural)]
pub enum FramePlan {
    /// A side is zero once made even: nothing is encoded.
    Skip,
    /// Encode at the tracked size; first rebuild the encoder with `rebuild`
    /// when given, and force an IDR when `force_idr` holds.
    Encode { rebuild: Option<EncoderSettings>, force_idr: bool },
}

/// What came of an encoded frame.
pub struct FrameOutcome {
    pub chunk: Option<EncodedChunk>,
    /// No configuration could be built from the frame's NAL units: the caller
    /// should ask the encoder for its parameter sets.
    pub needs_parameter_sets: bool,
}

/// The state of the encoder wrapper.
pub struct VideoPipeline {
    codec: VideoCodec,
    width: u32,
    height: u32,
    config_b64: String,
    pending_idr: bool,
}

pub struct PipelineView {
    pub codec: VideoCodec,
    pub width: u32,
    pub height: u32,
    pub config_b64: Seq<char>,
    pub pending_idr: bool,
}

impl View for VideoPipeline {
    type V = PipelineView;

    closed spec fn view(&self) -> PipelineView {
        PipelineView {
            codec: self.codec,
            width: self.width,
            height: self.height,
            config_b64: self.config_b64@,
            pending_idr: self.pending_idr,
        }
    }
}

/// `x` with its low bit cleared.
pub open spec fn even(x: u32) -> u32 {
    (x - x % 2) as u32
}

/// `w * h * 8` clamped to `[MIN_BITRATE, MAX_BITRATE]`.
pub open spec fn bitrate_for(w: u32, h: u32) -> u32 {
    let b = w * h * 8;
    if b < MIN_BITRATE {
        MIN_BITRATE
    } else if b > MAX_BITRATE {
        MAX_BITRATE
    } else {
        b as u32
    }
}

/// The payloads of the raw encoder NAL units that keep one, in order.
pub open spec fn normalize_all(raw: Seq<Seq<u8>>) -> Seq<Seq<u8>>
    decreases raw.len(),
{
    if raw.len() == 0 {
        Seq::empty()
    } else {
        let rest = normalize_all(raw.drop_last());
        match normalized(raw.last()) {
            Some(p) => rest.push(p),
            None => rest,
        }
    }
}

/// The configuration text after a set of NAL units was seen: kept when present;
/// otherwise the base64 of the record the units give, if any.
pub open spec fn config_after(config: Seq<char>, nals: Seq<Seq<u8>>) -> Seq<char> {
    if config.len() == 0 {
        match avcc_record_of(nals) {
            Some(rec) => base64_of(rec),
            None => config,
        }
    } else {
        config
    }
}

proof fn lemma_normalize_all_shorter(raw: Seq<Seq<u8>>)
    requires
        lengths_fit(raw),
    ensures
        lengths_fit(normalize_all(raw)),
        normalize_all(raw).len() <= raw.len(),
    decreases raw.len(),
{
    reveal(lengths_fit);
    if raw.len() > 0 {
        assert(lengths_fit(raw.drop_last())) by {
            reveal(lengths_fit);
            assert forall|i: int| 0 <= i < raw.drop_last().len() implies #[trigger] raw.drop_last()[i].len() <= u32::MAX by {
                assert(raw.drop_last()[i] == raw[i]);
            }
        }
        lemma_normalize_all_shorter(raw.drop_last());
        reveal(lengths_fit);
        assert(raw.last().len() <= u32::MAX);
    }
}

/// The payloads of the raw encoder NAL units, each stripped of its start code
/// or length prefix; empty ones are left out.
pub fn collect_nals(raw: &Vec<Vec<u8>>) -> (r: Vec<Vec<u8>>)
    ensures
        r.deep_view() == normalize_all(raw.deep_view()),
{
    let ghost dv = raw.deep_view();
    let mut out: Vec<Vec<u8>> = Vec::new();
    let mut i: usize = 0;
    while i < raw.len()
        invariant
            dv == raw.deep_view(),
            i <= dv.len(),
            out.deep_view() == normalize_all(dv.subrange(0, i as int)),
        decreases dv.len() - i,
    {
        let n = normalize_nal(raw[i].as_slice());
        proof {
            assert(dv.subrange(0, i + 1).drop_last() =~= dv.subrange(0, i as int));
            assert(dv.subrange(0, i + 1).last() == raw[i as int]@);
        }
        match n {
            Some(p) => {
                let ghost before = out.deep_view();
                out.push(p);
                assert(out.deep_view() =~= before.push(p.deep_view()));
                assert(p.deep_view() =~= p@);
            },
            None => {},
        }
        i = i + 1;
    }
    assert(dv.subrange(0, dv.len() as int) =~= dv);
    out
}

impl VideoPipeline {
    /// A wrapper for AVC with no size yet, an IDR pending and no configuration;
    /// HEVC is refused.
    pub fn new(codec: VideoCodec) -> (r: Result<VideoPipeline, EncoderError>)
        ensures
            codec == VideoCodec::Hevc <==> r is Err,
            r matches Ok(p) ==> p@.codec == codec && p@.width == 0 && p@.height == 0
                && p@.config_b64.len() == 0 && p@.pending_idr,
            r matches Err(e) ==> e == EncoderError::UnsupportedCodec,
    {
        if codec == VideoCodec::Hevc {
            return Err(EncoderError::UnsupportedCodec);
        }
        Ok(VideoPipeline { codec, width: 0, height: 0, config_b64: String::new(), pending_idr: true })
    }

    /// The configuration to announce: codec, tracked size and the base64 of the
    /// decoder configuration record (empty until one was built).
    pub fn config(&self) -> (r: VideoConfig)
        ensures
            r.codec == self@.codec,
            r.width == self@.width,
            r.height == self@.height,
            r.description_b64@ == self@.config_b64,
    {
        VideoConfig {
            codec: self.codec,
            width: self.width,
            height: self.height,
            description_b64: self.config_b64.clone(),
        }
    }

    /// Decides how a `frame_w`×`frame_h` frame is encoded. The size is made even;
    /// a new size rebuilds the encoder with the clamped bitrate, drops the
    /// configuration and makes an IDR pending. An IDR is forced when one is
    /// pending or the caller asks for one.
    pub fn begin_frame(&mut self, frame_w: u32, frame_h: u32, force_idr: bool) -> (r: FramePlan)
        ensures
            ({
                let ew = even(frame_w);
                let eh = even(frame_h);
                let resized = ew != old(self)@.width || eh != old(self)@.height;
                if ew == 0 || eh == 0 {
                    r == FramePlan::Skip && final(self)@ == old(self)@
                } else {
                    &&& r == FramePlan::Encode {
                        rebuild: if resized {
                            Some(EncoderSettings { width: ew, height: eh, bitrate_bps: bitrate_for(ew, eh) })
                        } else {
                            None
                        },
                        force_idr: resized || old(self)@.pending_idr || force_idr,
                    }
                    &&& final(self)@.codec == old(self)@.codec
                    &&& final(self)@.width == ew
                    &&& final(self)@.height == eh
                    &&& final(self)@.config_b64 == if resized {
                        Seq::<char>::empty()
                    } else {
                        old(self)@.config_b64
                    }
                    &&& !final(self)@.pending_idr
                }
            }),
    {
        let ew = frame_w & !1u32;
        let eh = frame_h & !1u32;
        assert(frame_w & !1u32 == frame_w - frame_w % 2) by (bit_vector);
        assert(frame_h & !1u32 == frame_h - frame_h % 2) by (bit_vector);
        if ew == 0 || eh == 0 {
            return FramePlan::Skip;
        }
        let mut rebuild: Option<EncoderSettings> = None;
        if self.width != ew || self.height != eh {
            assert((ew as u128) * (eh as u128) <= 0xffff_ffff_ffff_ffffu128 * 0xffff_ffffu128) by (nonlinear_arith)
                requires
                    ew <= 0xffff_ffffu32,
                    eh <= 0xffff_ffffu32,
            ;
            let b: u128 = ew as u128 * eh as u128 * 8;
            let bitrate: u32 = if b < MIN_BITRATE as u128 {
                MIN_BITRATE
            } else if b > MAX_BITRATE as u128 {
                MAX_BITRATE
            } else {
                b as u32
            };
            rebuild = Some(EncoderSettings { width: ew, height: eh, bitrate_bps: bitrate });
            self.width = ew;
            self.height = eh;
            self.config_b64 = String::new();
            self.pending_idr = true;
        }
        let idr = self.pending_idr || force_idr;
        self.pending_idr = false;
        FramePlan::Encode { rebuild, force_idr: idr }
    }

    /// Takes the raw NAL units the encoder emitted for a frame. They are
    /// normalized; while no configuration is held, one is built from their SPS
    /// and PPS. The chunk frames the surviving units, and is `None` when none survive.
    pub fn finish_frame(&mut self, raw_nals: &Vec<Vec<u8>>) -> (r: FrameOutcome)
        requires
            lengths_fit(raw_nals.deep_view()),
        ensures
            ({
                let nals = normalize_all(raw_nals.deep_view());
                &&& final(self)@.codec == old(self)@.codec
                &&& final(self)@.width == old(self)@.width
                &&& final(self)@.height == old(self)@.height
                &&& final(self)@.pending_idr == old(self)@.pending_idr
                &&& final(self)@.config_b64 == config_after(old(self)@.config_b64, nals)
                &&& r.needs_parameter_sets == (old(self)@.config_b64.len() == 0
                    && avcc_record_of(nals) is None)
                &&& nals.len() == 0 ==> r.chunk is None
                &&& nals.len() > 0 ==> (r.chunk matches Some(c) && c.data@ == avcc_frame(nals))
            }),
    {
        let nals = collect_nals(raw_nals);
        proof {
            lemma_normalize_all_shorter(raw_nals.deep_view());
        }
        let mut needs_parameter_sets = false;
        if self.config_b64.as_str().is_empty() {
            match build_avcc_from_nals(nals.as_slice()) {
                Some(rec) => {
                    proof {
                        lemma_record_len(nals.deep_view());
                    }
                    self.config_b64 = encode_base64(rec.as_slice());
                },
                None => {
                    needs_parameter_sets = true;
                },
            }
        }
        let chunk = if nals.len() == 0 {
            None
        } else {
            Some(EncodedChunk { data: nals_to_avcc(nals.as_slice()) })
        };
        FrameOutcome { chunk, needs_parameter_sets }
    }

    /// Takes the parameter sets the encoder produced on request: while no
    /// configuration is held, one is built from them.
    pub fn accept_parameter_sets(&mut self, raw_nals: &Vec<Vec<u8>>)
        ensures
            final(self)@.codec == old(self)@.codec,
            final(self)@.width == old(self)@.width,
            final(self)@.height == old(self)@.height,
            final(self)@.pending_idr == old(self)@.pending_idr,
            final(self)@.config_b64 == config_after(
                old(self)@.config_b64,
                normalize_all(raw_nals.deep_view()),
            ),
    {
        let nals = collect_nals(raw_nals);
        if self.config_b64.as_str().is_empty() {
            match build_avcc_from_nals(nals.as_slice()) {
                Some(rec) => {
                    proof {
                        lemma_record_len(nals.deep_view());
                    }
                    self.config_b64 = encode_base64(rec.as_slice());
                },
                None => {},
            }
        }
    }
}

/// Strips the alpha byte of each RGBA pixel of a `width`×`height` image.
pub fn rgba_to_rgb(src: &Vec<u8>, width: usize, height: usize) -> (r: Vec<u8>)
    requires
        src@.len() >= width * height * 4,
    ensures
        r@.len() == width * height * 3,
        forall|i: int, c: int|
            0 <= i < width * height && 0 <= c < 3 ==> #[trigger] r@[i * 3 + c] == src@[i * 4 + c],
{
    let len = src.len();
    assert(width * height <= len);
    let n = width * height;
    let mut out: Vec<u8> = Vec::new();
    let mut i: usize = 0;
    while i < n
        invariant
            n == width * height,
            src@.len() >= n * 4,
            len == src@.len(),
            i <= n,
            out@.len() == i * 3,
            forall|j: int, c: int| 0 <= j < i && 0 <= c < 3 ==> #[trigger] out@[j * 3 + c] == src@[j * 4 + c],
        decreases n - i,
    {
        let base = i * 4;
        out.push(src[base]);
        out.push(src[base + 1]);
        out.push(src[base + 2]);
        i = i + 1;
    }
    out
}

} // verus!
