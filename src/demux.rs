//! H.264 passthrough from an MP4 video track: the decoder configuration from
//! the track's `avcC` box, SPS/PPS re-injection into keyframes, sample
//! timestamps, and the codec string announced to the client.

use vstd::prelude::*;
use vstd::string::StringExecFns;
use crate::avcc::{avcc_frame, lemma_avcc_frame_concat, lemma_avcc_frame_push, lengths_fit};
use crate::endian::{be_u16, be_u32, push_all, push_be_u16, push_be_u32};
use crate::text::{base64_of, encode_base64, hex2, push_hex2};

verus! {

/// The fields of an `avcC` box that the configuration is built from.
#[derive(Debug)]
pub struct AvcConfigBox {
    pub configuration_version: u8,
    pub profile: u8,
    pub compatibility: u8,
    pub level: u8,
    pub sps: Vec<Vec<u8>>,
    pub pps: Vec<Vec<u8>>,
}

/// The descriptors taken from an `avcC` box: the configuration record, and
/// the parameter sets in AVCC framing for prepending to keyframes.
#[derive(Debug)]
pub struct AvcDescriptors {
    pub config: Vec<u8>,
    pub sps_pps: Vec<u8>,
}

/// The configuration announced for a file.
#[derive(Debug)]
pub struct VideoConfig {
    pub codec_string: String,
    pub description_b64: String,
    pub width: u32,
    pub height: u32,
}

#[derive(Debug)]
pub enum MediaFrame {
    Video { data: Vec<u8>, is_keyframe: bool },
}

/// A sample with its presentation time in microseconds.
#[derive(Debug)]
pub struct TimestampedFrame {
    pub timestamp_us: u64,
    pub media: MediaFrame,
}

/// Each parameter set preceded by its 2-byte big-endian length.
pub open spec fn sets_be16(sets: Seq<Seq<u8>>) -> Seq<u8>
    decreases sets.len(),
{
    if sets.len() == 0 {
        Seq::empty()
    } else {
        sets_be16(sets.drop_last()) + be_u16(sets.last().len() as u16) + sets.last()
    }
}

/// Whether the box can be written as a record: at most 31 SPS, at most 255 PPS,
/// each set at most 65535 bytes.
pub open spec fn box_fits(sps: Seq<Seq<u8>>, pps: Seq<Seq<u8>>) -> bool {
    &&& sps.len() <= 31
    &&& pps.len() <= 255
    &&& forall|i: int| 0 <= i < sps.len() ==> #[trigger] sps[i].len() <= 0xffff
    &&& forall|i: int| 0 <= i < pps.len() ==> #[trigger] pps[i].len() <= 0xffff
}

/// The decoder configuration record of a box.
pub open spec fn config_record(
    version: u8,
    profile: u8,
    compat: u8,
    level: u8,
    sps: Seq<Seq<u8>>,
    pps: Seq<Seq<u8>>,
) -> Seq<u8> {
    seq![version, profile, compat, level, 0xFFu8, (0xE0u8 | (sps.len() as u8))] + sets_be16(sps)
        + seq![pps.len() as u8] + sets_be16(pps)
}

/// The codec string: `avc1.` and record bytes 1 to 3 in uppercase hex, or the
/// baseline default when the record is shorter than four bytes.
pub open spec fn codec_string_of(avcc: Seq<u8>) -> Seq<char> {
    if avcc.len() >= 4 {
        "avc1."@ + hex2(avcc[1]) + hex2(avcc[2]) + hex2(avcc[3])
    } else {
        "avc1.42E01E"@
    }
}

/// The payload sent for a sample: keyframes get the parameter sets in front.
pub open spec fn payload_of(sample: Seq<u8>, is_keyframe: bool, sps_pps: Seq<u8>) -> Seq<u8> {
    if is_keyframe && sps_pps.len() > 0 {
        sps_pps + sample
    } else {
        sample
    }
}

/// The presentation time in microseconds of the 1-based sample `index`: spread
/// evenly over the track's duration, or at 30 per second when it has none.
pub open spec fn timestamp_us(index: u32, frame_count: u32, duration_us: u64) -> int {
    if duration_us > 0 && frame_count > 0 {
        (index - 1) * duration_us / (frame_count as int)
    } else {
        (index - 1) * 1_000_000 / 30
    }
}

fn push_sets_be16(out: &mut Vec<u8>, sets: &Vec<Vec<u8>>)
    requires
        forall|i: int| 0 <= i < sets.deep_view().len() ==> #[trigger] sets.deep_view()[i].len() <= 0xffff,
    ensures
        final(out)@ == old(out)@ + sets_be16(sets.deep_view()),
{
    let ghost dv = sets.deep_view();
    let ghost start = out@;
    let mut i: usize = 0;
    while i < sets.len()
        invariant
            dv == sets.deep_view(),
            forall|k: int| 0 <= k < dv.len() ==> #[trigger] dv[k].len() <= 0xffff,
            i <= dv.len(),
            out@ == start + sets_be16(dv.subrange(0, i as int)),
        decreases dv.len() - i,
    {
        let set = &sets[i];
        assert(set@ == dv[i as int]);
        assert(dv.subrange(0, i + 1).drop_last() =~= dv.subrange(0, i as int));
        assert(dv.subrange(0, i + 1).last() == dv[i as int]);
        push_be_u16(out, set.len() as u16);
        push_all(out, set.as_slice());
        i = i + 1;
        assert(out@ =~= start + sets_be16(dv.subrange(0, i as int)));
    }
    assert(dv.subrange(0, dv.len() as int) =~= dv);
}

fn push_avcc_frames(out: &mut Vec<u8>, sets: &Vec<Vec<u8>>)
    requires
        lengths_fit(sets.deep_view()),
    ensures
        final(out)@ == old(out)@ + avcc_frame(sets.deep_view()),
{
    let ghost dv = sets.deep_view();
    let ghost start = out@;
    let mut i: usize = 0;
    while i < sets.len()
        invariant
            dv == sets.deep_view(),
            lengths_fit(dv),
            i <= dv.len(),
            out@ == start + avcc_frame(dv.subrange(0, i as int)),
        decreases dv.len() - i,
    {
        let set = &sets[i];
        assert(set@ == dv[i as int]);
        assert(dv[i as int].len() <= u32::MAX) by {
            reveal(lengths_fit);
        }
        proof {
            lemma_avcc_frame_push(dv.subrange(0, i as int), dv[i as int]);
            assert(dv.subrange(0, i + 1) =~= dv.subrange(0, i as int).push(dv[i as int]));
        }
        push_be_u32(out, set.len() as u32);
        push_all(out, set.as_slice());
        i = i + 1;
        assert(out@ =~= start + avcc_frame(dv.subrange(0, i as int)));
    }
    assert(dv.subrange(0, dv.len() as int) =~= dv);
}

/// Builds the configuration record and the parameter-set prefix of a box;
/// `None` when the box cannot be written as a record.
pub fn extract_avcc(b: &AvcConfigBox) -> (r: Option<AvcDescriptors>)
    ensures
        r is Some <==> box_fits(b.sps.deep_view(), b.pps.deep_view()),
        r matches Some(d) ==> d.config@ == config_record(
            b.configuration_version,
            b.profile,
            b.compatibility,
            b.level,
            b.sps.deep_view(),
            b.pps.deep_view(),
        ) && d.sps_pps@ == avcc_frame(b.sps.deep_view() + b.pps.deep_view()),
{
    let ghost sv = b.sps.deep_view();
    let ghost pv = b.pps.deep_view();
    if b.sps.len() > 31 || b.pps.len() > 255 {
        return None;
    }
    let mut i: usize = 0;
    while i < b.sps.len()
        invariant
            sv == b.sps.deep_view(),
            i <= sv.len(),
            forall|k: int| 0 <= k < i ==> #[trigger] sv[k].len() <= 0xffff,
        decreases sv.len() - i,
    {
        assert(b.sps[i as int]@ == sv[i as int]);
        if b.sps[i].len() > 0xffff {
            return None;
        }
        i = i + 1;
    }
    let mut j: usize = 0;
    while j < b.pps.len()
        invariant
            pv == b.pps.deep_view(),
            j <= pv.len(),
            forall|k: int| 0 <= k < j ==> #[trigger] pv[k].len() <= 0xffff,
        decreases pv.len() - j,
    {
        assert(b.pps[j as int]@ == pv[j as int]);
        if b.pps[j].len() > 0xffff {
            return None;
        }
        j = j + 1;
    }
    let mut config: Vec<u8> = Vec::new();
    config.push(b.configuration_version);
    config.push(b.profile);
    config.push(b.compatibility);
    config.push(b.level);
    config.push(0xFF);
    config.push(0xE0u8 | (b.sps.len() as u8));
    push_sets_be16(&mut config, &b.sps);
    config.push(b.pps.len() as u8);
    push_sets_be16(&mut config, &b.pps);
    assert(config@ =~= config_record(
        b.configuration_version,
        b.profile,
        b.compatibility,
        b.level,
        sv,
        pv,
    ));
    assert(lengths_fit(sv) && lengths_fit(pv)) by {
        reveal(lengths_fit);
    }
    let mut sps_pps: Vec<u8> = Vec::new();
    push_avcc_frames(&mut sps_pps, &b.sps);
    push_avcc_frames(&mut sps_pps, &b.pps);
    proof {
        lemma_avcc_frame_concat(sv, pv);
        assert(sps_pps@ =~= avcc_frame(sv) + avcc_frame(pv));
    }
    Some(AvcDescriptors { config, sps_pps })
}

/// The codec string for a configuration record.
pub fn codec_string(avcc: &Vec<u8>) -> (r: String)
    ensures
        r@ == codec_string_of(avcc@),
{
    if avcc.len() >= 4 {
        let mut s = String::from_str("avc1.");
        proof {
            reveal_strlit("avc1.");
        }
        push_hex2(&mut s, avcc[1]);
        push_hex2(&mut s, avcc[2]);
        push_hex2(&mut s, avcc[3]);
        s
    } else {
        proof {
            reveal_strlit("avc1.42E01E");
        }
        String::from_str("avc1.42E01E")
    }
}

/// The payload sent for a sample: a keyframe gets the length-prefixed SPS and
/// PPS in front, other samples pass unchanged.
pub fn keyframe_payload(sample: &[u8], is_keyframe: bool, sps_pps: &[u8]) -> (r: Vec<u8>)
    ensures
        r@ == payload_of(sample@, is_keyframe, sps_pps@),
{
    let mut out: Vec<u8> = Vec::new();
    if is_keyframe && sps_pps.len() > 0 {
        push_all(&mut out, sps_pps);
    }
    push_all(&mut out, sample);
    assert(out@ =~= payload_of(sample@, is_keyframe, sps_pps@));
    out
}

/// Keyframe rewriting: the payload sent for a keyframe of a file whose box holds
/// SPS and PPS begins with each SPS and then each PPS, in AVCC framing; with one
/// of each, the SPS unit and then the PPS unit.
pub proof fn lemma_keyframe_starts_with_parameter_sets(
    sps: Seq<Seq<u8>>,
    pps: Seq<Seq<u8>>,
    sample: Seq<u8>,
)
    requires
        sps.len() >= 1,
        lengths_fit(sps + pps),
    ensures
        ({
            let prefix = avcc_frame(sps) + avcc_frame(pps);
            let p = payload_of(sample, true, avcc_frame(sps + pps));
            &&& p.subrange(0, prefix.len() as int) == prefix
            &&& sps.len() == 1 && pps.len() == 1 ==> prefix == be_u32(sps[0].len() as u32) + sps[0]
                + be_u32(pps[0].len() as u32) + pps[0]
        }),
{
    lemma_avcc_frame_concat(sps, pps);
    let prefix = avcc_frame(sps) + avcc_frame(pps);
    assert(avcc_frame(sps).len() >= 4);
    let p = payload_of(sample, true, avcc_frame(sps + pps));
    assert(p.subrange(0, prefix.len() as int) =~= prefix);
    if sps.len() == 1 && pps.len() == 1 {
        assert(sps.drop_first() =~= Seq::<Seq<u8>>::empty());
        assert(pps.drop_first() =~= Seq::<Seq<u8>>::empty());
        assert(avcc_frame(sps.drop_first()) == Seq::<u8>::empty());
        assert(avcc_frame(pps.drop_first()) == Seq::<u8>::empty());
        assert(avcc_frame(sps) =~= be_u32(sps[0].len() as u32) + sps[0]);
        assert(avcc_frame(pps) =~= be_u32(pps[0].len() as u32) + pps[0]);
    }
}

/// What the player knows of an MP4 file's video track.
pub struct Mp4Demuxer {
    video_track_id: u32,
    has_audio: bool,
    video_width: u32,
    video_height: u32,
    frame_count: u32,
    duration_us: u64,
    avcc_data: Vec<u8>,
    sps_pps_avcc: Vec<u8>,
}

/// The largest record a box that fits can give: the fixed bytes, then 31 SPS
/// and 255 PPS of 65535 bytes, each with its length field.
pub open spec fn max_record_len() -> int {
    7int + 286int * 65537int
}

proof fn lemma_sets_be16_len(sets: Seq<Seq<u8>>)
    requires
        forall|i: int| 0 <= i < sets.len() ==> #[trigger] sets[i].len() <= 0xffff,
    ensures
        sets_be16(sets).len() <= sets.len() * 65537,
    decreases sets.len(),
{
    if sets.len() > 0 {
        let d = sets.drop_last();
        assert forall|i: int| 0 <= i < d.len() implies #[trigger] d[i].len() <= 0xffff by {
            assert(d[i] == sets[i]);
        }
        lemma_sets_be16_len(d);
        assert(sets.last().len() <= 0xffff);
    }
}

proof fn lemma_record_fits(
    version: u8,
    profile: u8,
    compat: u8,
    level: u8,
    sps: Seq<Seq<u8>>,
    pps: Seq<Seq<u8>>,
)
    requires
        box_fits(sps, pps),
    ensures
        config_record(version, profile, compat, level, sps, pps).len() <= max_record_len(),
{
    lemma_sets_be16_len(sps);
    lemma_sets_be16_len(pps);
}

impl Mp4Demuxer {
    #[verifier::type_invariant]
    spec fn record_bounded(self) -> bool {
        self.avcc_data@.len() <= max_record_len()
    }

    pub closed spec fn spec_track_id(&self) -> u32 {
        self.video_track_id
    }

    pub closed spec fn spec_width(&self) -> u32 {
        self.video_width
    }

    pub closed spec fn spec_height(&self) -> u32 {
        self.video_height
    }

    pub closed spec fn spec_has_audio(&self) -> bool {
        self.has_audio
    }

    pub closed spec fn spec_frame_count(&self) -> u32 {
        self.frame_count
    }

    pub closed spec fn spec_duration_us(&self) -> u64 {
        self.duration_us
    }

    pub closed spec fn spec_sps_pps(&self) -> Seq<u8> {
        self.sps_pps_avcc@
    }

    pub closed spec fn spec_avcc(&self) -> Seq<u8> {
        self.avcc_data@
    }

    /// Describes a track: its id, size, sample count and duration, whether the
    /// file has audio, and its `avcC` box; `None` when the box cannot be written
    /// as a record.
    pub fn from_track(
        video_track_id: u32,
        video_width: u32,
        video_height: u32,
        frame_count: u32,
        duration_us: u64,
        has_audio: bool,
        avc: &AvcConfigBox,
    ) -> (r: Option<Mp4Demuxer>)
        ensures
            r is Some <==> box_fits(avc.sps.deep_view(), avc.pps.deep_view()),
            r matches Some(d) ==> {
                &&& d.spec_track_id() == video_track_id
                &&& d.spec_width() == video_width
                &&& d.spec_height() == video_height
                &&& d.spec_has_audio() == has_audio
                &&& d.spec_frame_count() == frame_count
                &&& d.spec_duration_us() == duration_us
                &&& d.spec_avcc() == config_record(
                    avc.configuration_version,
                    avc.profile,
                    avc.compatibility,
                    avc.level,
                    avc.sps.deep_view(),
                    avc.pps.deep_view(),
                )
                &&& d.spec_sps_pps() == avcc_frame(avc.sps.deep_view() + avc.pps.deep_view())
            },
    {
        match extract_avcc(avc) {
            Some(d) => {
                proof {
                    lemma_record_fits(
                        avc.configuration_version,
                        avc.profile,
                        avc.compatibility,
                        avc.level,
                        avc.sps.deep_view(),
                        avc.pps.deep_view(),
                    );
                }
                Some(
                Mp4Demuxer {
                    video_track_id,
                    has_audio,
                    video_width,
                    video_height,
                    frame_count,
                    duration_us,
                    avcc_data: d.config,
                    sps_pps_avcc: d.sps_pps,
                },
            )
            },
            None => None,
        }
    }

    pub fn video_track_id(&self) -> (r: u32)
        ensures
            r == self.spec_track_id(),
    {
        self.video_track_id
    }

    pub fn video_width(&self) -> (r: u32)
        ensures
            r == self.spec_width(),
    {
        self.video_width
    }

    pub fn video_height(&self) -> (r: u32)
        ensures
            r == self.spec_height(),
    {
        self.video_height
    }

    pub fn frame_count(&self) -> (r: u32)
        ensures
            r == self.spec_frame_count(),
    {
        self.frame_count
    }

    pub fn duration_us(&self) -> (r: u64)
        ensures
            r == self.spec_duration_us(),
    {
        self.duration_us
    }

    pub fn has_audio(&self) -> (r: bool)
        ensures
            r == self.spec_has_audio(),
    {
        self.has_audio
    }

    /// The codec string, the base64 configuration record and the size.
    pub fn video_config(&self) -> (r: VideoConfig)
        ensures
            r.codec_string@ == codec_string_of(self.spec_avcc()),
            r.description_b64@ == base64_of(self.spec_avcc()),
            r.width == self.spec_width(),
            r.height == self.spec_height(),
    {
        proof {
            use_type_invariant(self);
        }
        VideoConfig {
            codec_string: codec_string(&self.avcc_data),
            description_b64: encode_base64(self.avcc_data.as_slice()),
            width: self.video_width,
            height: self.video_height,
        }
    }

    /// The presentation time of the 1-based sample `index`.
    pub fn frame_timestamp_us(&self, index: u32) -> (r: u64)
        requires
            1 <= index <= self.spec_frame_count(),
        ensures
            r == timestamp_us(index, self.spec_frame_count(), self.spec_duration_us()),
    {
        let k = (index - 1) as u128;
        if self.duration_us > 0 && self.frame_count > 0 {
            proof {
                assert(k * (self.duration_us as u128) <= (self.frame_count as u128) * (self.duration_us as u128)) by (nonlinear_arith)
                    requires
                        k <= self.frame_count,
                ;
                assert((self.frame_count as u128) * (self.duration_us as u128) <= 0xffff_ffffu128 * 0xffff_ffff_ffff_ffffu128) by (nonlinear_arith)
                    requires
                        self.frame_count <= 0xffff_ffffu32,
                        self.duration_us <= 0xffff_ffff_ffff_ffffu64,
                ;
                let kk = k as int;
                let d = self.duration_us as int;
                let c = self.frame_count as int;
                assert(kk * d / c <= d) by (nonlinear_arith)
                    requires
                        0 <= kk <= c,
                        c > 0,
                        d >= 0,
                ;
            }
            (k * (self.duration_us as u128) / (self.frame_count as u128)) as u64
        } else {
            (k * 1_000_000 / 30) as u64
        }
    }

    /// The frame for the 1-based sample `index` with the given bytes and sync flag.
    pub fn frame(&self, index: u32, sample: &[u8], is_sync: bool) -> (r: TimestampedFrame)
        requires
            1 <= index <= self.spec_frame_count(),
        ensures
            r.timestamp_us == timestamp_us(index, self.spec_frame_count(), self.spec_duration_us()),
            r.media matches MediaFrame::Video { data, is_keyframe } && is_keyframe == is_sync
                && data@ == payload_of(sample@, is_sync, self.spec_sps_pps()),
    {
        let timestamp_us = self.frame_timestamp_us(index);
        let data = keyframe_payload(sample, is_sync, self.sps_pps_avcc.as_slice());
        TimestampedFrame { timestamp_us, media: MediaFrame::Video { data, is_keyframe: is_sync } }
    }
}

} // verus!
