//! Session-level decisions: codec negotiation, keyframe requests, and the rule
//! that the video configuration is announced once, before any video binary.

use vstd::prelude::*;
use vstd::string::StringExecFns;
use crate::video::{VideoCodec, VideoConfig};

verus! {

/// A `mode` request as the client sends it: the `type` field and the optional
/// `codec` field.
#[derive(Debug)]
pub struct ModeRequest {
    pub msg_type: String,
    pub codec: Option<String>,
}

/// The codec chosen at negotiation: HEVC only when the first message was a
/// `mode` request naming `hevc`, AVC otherwise (no message, another type, or
/// another codec).
pub open spec fn negotiated(first: Option<(Seq<char>, Option<Seq<char>>)>) -> VideoCodec {
    match first {
        Some((t, c)) => if t == "mode"@ && c == Some("hevc"@) {
            VideoCodec::Hevc
        } else {
            VideoCodec::Avc
        },
        None => VideoCodec::Avc,
    }
}

pub open spec fn request_view(r: Option<ModeRequest>) -> Option<(Seq<char>, Option<Seq<char>>)> {
    match r {
        Some(m) => Some(
            (
                m.msg_type@,
                match m.codec {
                    Some(c) => Some(c@),
                    None => None,
                },
            ),
        ),
        None => None,
    }
}

/// Picks the session's codec from the first text message received within the
/// negotiation window, if any parsed as a mode request.
pub fn negotiate_mode(first: Option<ModeRequest>) -> (r: VideoCodec)
    ensures
        r == negotiated(request_view(first)),
{
    let ghost v = request_view(first);
    match first {
        Some(req) => {
            let mode = String::from_str("mode");
            let hevc = String::from_str("hevc");
            proof {
                reveal_strlit("mode");
                reveal_strlit("hevc");
            }
            if req.msg_type == mode {
                match req.codec {
                    Some(c) => {
                        if c == hevc {
                            VideoCodec::Hevc
                        } else {
                            VideoCodec::Avc
                        }
                    },
                    None => VideoCodec::Avc,
                }
            } else {
                VideoCodec::Avc
            }
        },
        None => VideoCodec::Avc,
    }
}

/// Whether a client text message of the given `type` asks for a keyframe.
pub fn is_force_keyframe(msg_type: &String) -> (r: bool)
    ensures
        r == (msg_type@ == "force-keyframe"@),
{
    let k = String::from_str("force-keyframe");
    proof {
        reveal_strlit("force-keyframe");
    }
    *msg_type == k
}

/// The codec string announced for live video.
pub fn live_codec_string(codec: VideoCodec) -> (r: String)
    ensures
        codec == VideoCodec::Avc ==> r@ == "avc1.42E01E"@,
        codec == VideoCodec::Hevc ==> r@ == "hev1.1.6.L93.B0"@,
{
    match codec {
        VideoCodec::Avc => String::from_str("avc1.42E01E"),
        VideoCodec::Hevc => String::from_str("hev1.1.6.L93.B0"),
    }
}

/// What to send for an encoded chunk.
#[derive(Debug, Clone, Copy, PartialEq, Eq, Structural)]
pub enum ChunkAction {
    /// Send the `video-config` text, then the chunk.
    SendConfigAndChunk,
    /// Send the chunk.
    SendChunk,
    /// Drop the chunk: no configuration is available yet.
    Withhold,
}

/// A message kind on the session's outbound side.
#[derive(PartialEq, Eq)]
pub enum Outbound {
    Config,
    Video,
}

/// Whether a configuration can be announced: a description and a size.
pub open spec fn config_ready(c: &VideoConfig) -> bool {
    c.description_b64@.len() > 0 && c.width > 0 && c.height > 0
}

/// The action for a chunk, given whether the configuration went out already
/// and whether one is ready now.
pub open spec fn chunk_action(sent: bool, ready: bool) -> ChunkAction {
    if sent {
        ChunkAction::SendChunk
    } else if ready {
        ChunkAction::SendConfigAndChunk
    } else {
        ChunkAction::Withhold
    }
}

/// The messages an action sends.
pub open spec fn emitted(a: ChunkAction) -> Seq<Outbound> {
    match a {
        ChunkAction::SendConfigAndChunk => seq![Outbound::Config, Outbound::Video],
        ChunkAction::SendChunk => seq![Outbound::Video],
        ChunkAction::Withhold => Seq::empty(),
    }
}

#[verifier::opaque]
/// Whether the configuration was sent after chunks arrived with the given
/// readiness of the configuration, in order.
pub open spec fn sent_after(readies: Seq<bool>) -> bool
    decreases readies.len(),
{
    if readies.len() == 0 {
        false
    } else {
        sent_after(readies.drop_last()) || readies.last()
    }
}

#[verifier::opaque]
/// The video-side transcript of a session after chunks arrived with the given
/// readiness of the configuration, in order.
pub open spec fn transcript(readies: Seq<bool>) -> Seq<Outbound>
    decreases readies.len(),
{
    if readies.len() == 0 {
        Seq::empty()
    } else {
        transcript(readies.drop_last()) + emitted(
            chunk_action(sent_after(readies.drop_last()), readies.last()),
        )
    }
}

pub open spec fn has_config(t: Seq<Outbound>) -> bool {
    exists|i: int| 0 <= i < t.len() && t[i] == Outbound::Config
}

pub open spec fn config_at_most_once(t: Seq<Outbound>) -> bool {
    forall|i: int, j: int|
        0 <= i < j < t.len() && #[trigger] t[i] == Outbound::Config ==> #[trigger] t[j]
            != Outbound::Config
}

pub open spec fn video_after_config(t: Seq<Outbound>) -> bool {
    forall|j: int|
        0 <= j < t.len() && #[trigger] t[j] == Outbound::Video ==> exists|i: int|
            0 <= i < j && t[i] == Outbound::Config
}

proof fn lemma_transcript_step(readies: Seq<bool>)
    requires
        readies.len() > 0,
    ensures
        transcript(readies) == transcript(readies.drop_last()) + emitted(
            chunk_action(sent_after(readies.drop_last()), readies.last()),
        ),
        sent_after(readies) == (sent_after(readies.drop_last()) || readies.last()),
{
    reveal(transcript);
    reveal(sent_after);
}

proof fn lemma_transcript_empty(readies: Seq<bool>)
    requires
        readies.len() == 0,
    ensures
        transcript(readies) == Seq::<Outbound>::empty(),
        !sent_after(readies),
{
    reveal(transcript);
    reveal(sent_after);
}

proof fn lemma_sent_iff_config(readies: Seq<bool>)
    ensures
        sent_after(readies) <==> has_config(transcript(readies)),
    decreases readies.len(),
{
    if readies.len() > 0 {
        let p = readies.drop_last();
        lemma_sent_iff_config(p);
        lemma_transcript_step(readies);
        let tp = transcript(p);
        let e = emitted(chunk_action(sent_after(p), readies.last()));
        let t = transcript(readies);
        if sent_after(p) {
            let i = choose|i: int| 0 <= i < tp.len() && tp[i] == Outbound::Config;
            assert(t[i] == Outbound::Config);
        } else if readies.last() {
            assert(t[tp.len() as int] == Outbound::Config);
        } else {
            assert(t =~= tp);
        }
    } else {
        lemma_transcript_empty(readies);
    }
}

proof fn lemma_config_once(readies: Seq<bool>)
    ensures
        config_at_most_once(transcript(readies)),
    decreases readies.len(),
{
    if readies.len() > 0 {
        let p = readies.drop_last();
        lemma_config_once(p);
        lemma_sent_iff_config(p);
        lemma_transcript_step(readies);
        let tp = transcript(p);
        let t = transcript(readies);
        assert forall|i: int, j: int|
            0 <= i < j < t.len() && #[trigger] t[i] == Outbound::Config implies #[trigger] t[j]
            != Outbound::Config by {
            if j >= tp.len() {
                if i < tp.len() {
                    assert(tp[i] == Outbound::Config);
                    assert(has_config(tp));
                }
            } else {
                assert(t[i] == tp[i] && t[j] == tp[j]);
            }
        }
    } else {
        lemma_transcript_empty(readies);
    }
}

proof fn lemma_video_after(readies: Seq<bool>)
    ensures
        video_after_config(transcript(readies)),
    decreases readies.len(),
{
    if readies.len() > 0 {
        let p = readies.drop_last();
        lemma_video_after(p);
        lemma_sent_iff_config(p);
        lemma_transcript_step(readies);
        let tp = transcript(p);
        let t = transcript(readies);
        assert forall|j: int| 0 <= j < t.len() && #[trigger] t[j] == Outbound::Video implies exists|
            i: int,
        | 0 <= i < j && t[i] == Outbound::Config by {
            if j < tp.len() {
                assert(tp[j] == Outbound::Video);
                let i = choose|i: int| 0 <= i < j && tp[i] == Outbound::Config;
                assert(t[i] == Outbound::Config);
            } else if sent_after(p) {
                let i = choose|i: int| 0 <= i < tp.len() && tp[i] == Outbound::Config;
                assert(t[i] == Outbound::Config);
            } else {
                assert(t[tp.len() as int] == Outbound::Config);
            }
        }
    } else {
        lemma_transcript_empty(readies);
    }
}

/// Configuration precedence: in every transcript the configuration appears at
/// most once, and every video binary comes after it.
pub proof fn lemma_config_precedes_video(readies: Seq<bool>)
    ensures
        config_at_most_once(transcript(readies)),
        video_after_config(transcript(readies)),
{
    lemma_config_once(readies);
    lemma_video_after(readies);
}

/// The producer-side state of a live session.
pub struct VideoSession {
    config_sent: bool,
    force_idr_next: bool,
}

impl VideoSession {
    pub closed spec fn config_sent(&self) -> bool {
        self.config_sent
    }

    pub closed spec fn force_pending(&self) -> bool {
        self.force_idr_next
    }

    pub fn new() -> (r: VideoSession)
        ensures
            !r.config_sent(),
            !r.force_pending(),
    {
        VideoSession { config_sent: false, force_idr_next: false }
    }

    /// Records a client's keyframe request.
    pub fn request_keyframe(&mut self)
        ensures
            final(self).force_pending(),
            final(self).config_sent() == old(self).config_sent(),
    {
        self.force_idr_next = true;
    }

    /// Whether the next frame must be an IDR; clears the request.
    pub fn take_keyframe_request(&mut self) -> (r: bool)
        ensures
            r == old(self).force_pending(),
            !final(self).force_pending(),
            final(self).config_sent() == old(self).config_sent(),
    {
        let r = self.force_idr_next;
        self.force_idr_next = false;
        r
    }

    /// Decides what to send for an encoded chunk, given the encoder's current
    /// configuration.
    pub fn on_chunk(&mut self, config: &VideoConfig) -> (r: ChunkAction)
        ensures
            r == chunk_action(old(self).config_sent(), config_ready(config)),
            final(self).config_sent() == (old(self).config_sent() || config_ready(config)),
            final(self).force_pending() == old(self).force_pending(),
    {
        if self.config_sent {
            return ChunkAction::SendChunk;
        }
        if !config.description_b64.as_str().is_empty() && config.width > 0 && config.height > 0 {
            self.config_sent = true;
            ChunkAction::SendConfigAndChunk
        } else {
            ChunkAction::Withhold
        }
    }
}

} // verus!
