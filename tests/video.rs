use std::sync::Arc;

use foundry::downsample::{Downsampler, Frame};
use foundry::recording::{DropCounter, SendOutcome};
use foundry::session::{
    is_force_keyframe, live_codec_string, negotiate_mode, ChunkAction, ModeRequest, VideoSession,
};
use foundry::video::{
    collect_nals, rgba_to_rgb, EncoderError, EncoderSettings, FramePlan, VideoCodec, VideoConfig,
    VideoPipeline,
};

fn frame(w: u32, h: u32, fill: impl Fn(usize, usize, usize) -> u8) -> Frame {
    let mut raw = Vec::with_capacity((w * h * 4) as usize);
    for y in 0..h as usize {
        for x in 0..w as usize {
            for c in 0..4 {
                raw.push(fill(x, y, c));
            }
        }
    }
    Frame { width: w, height: h, raw }
}

#[test]
fn uhd_frame_halves_to_full_hd() {
    let f = frame(3840, 2160, |x, y, c| ((x + 2 * y + c) % 251) as u8);
    let src = f.raw.clone();
    let mut d = Downsampler::new();
    let out = d.downsample(Arc::new(f));
    assert_eq!(out.scale, 2);
    assert_eq!((out.frame.width, out.frame.height), (1920, 1080));
    assert_eq!(out.frame.raw.len(), 1920 * 1080 * 4);
    // Pixel (5, 7), channel 1: the mean of its 2x2 block.
    let at = |x: usize, y: usize, c: usize| src[(y * 3840 + x) * 4 + c] as u32;
    let want = (at(10, 14, 1) + at(11, 14, 1) + at(10, 15, 1) + at(11, 15, 1)) / 4;
    assert_eq!(out.frame.raw[(7 * 1920 + 5) * 4 + 1] as u32, want);
}

#[test]
fn full_hd_frame_is_unchanged() {
    let f = Arc::new(frame(1920, 1080, |x, _, c| (x as u8).wrapping_add(c as u8)));
    let mut d = Downsampler::new();
    let out = d.downsample(f.clone());
    assert_eq!(out.scale, 1);
    assert_eq!(out.frame.raw, f.raw);
    assert_eq!((out.frame.width, out.frame.height), (1920, 1080));
}

#[test]
fn thin_frame_over_budget_is_unchanged() {
    let f = Arc::new(frame(1, 2_100_000, |_, _, _| 3));
    let mut d = Downsampler::new();
    let out = d.downsample(f);
    assert_eq!(out.scale, 1);
    assert_eq!(out.frame.height, 2_100_000);
}

#[test]
fn box_mean_of_uniform_block() {
    let f = frame(2000, 1200, |_, _, c| [10, 20, 30, 255][c]);
    let mut d = Downsampler::new();
    let out = d.downsample(Arc::new(f));
    assert_eq!(out.scale, 2);
    assert_eq!((out.frame.width, out.frame.height), (1000, 600));
    assert_eq!(&out.frame.raw[..8], &[10, 20, 30, 255, 10, 20, 30, 255]);
}

#[test]
fn hevc_is_rejected_at_construction() {
    assert_eq!(VideoPipeline::new(VideoCodec::Hevc).err(), Some(EncoderError::UnsupportedCodec));
    assert!(VideoPipeline::new(VideoCodec::Avc).is_ok());
}

#[test]
fn negotiation_defaults_to_avc() {
    assert_eq!(negotiate_mode(None), VideoCodec::Avc);
    let hevc = ModeRequest { msg_type: "mode".to_string(), codec: Some("hevc".to_string()) };
    assert_eq!(negotiate_mode(Some(hevc)), VideoCodec::Hevc);
    let avc = ModeRequest { msg_type: "mode".to_string(), codec: Some("avc".to_string()) };
    assert_eq!(negotiate_mode(Some(avc)), VideoCodec::Avc);
    let other = ModeRequest { msg_type: "hello".to_string(), codec: Some("hevc".to_string()) };
    assert_eq!(negotiate_mode(Some(other)), VideoCodec::Avc);
    let bare = ModeRequest { msg_type: "mode".to_string(), codec: None };
    assert_eq!(negotiate_mode(Some(bare)), VideoCodec::Avc);
    assert_eq!(live_codec_string(VideoCodec::Avc), "avc1.42E01E");
}

#[test]
fn first_frame_rebuilds_and_forces_idr() {
    let mut p = VideoPipeline::new(VideoCodec::Avc).unwrap();
    let plan = p.begin_frame(1921, 1081, false);
    assert_eq!(
        plan,
        FramePlan::Encode {
            rebuild: Some(EncoderSettings { width: 1920, height: 1080, bitrate_bps: 15_000_000 }),
            force_idr: true,
        }
    );
    assert_eq!(p.begin_frame(1920, 1080, false), FramePlan::Encode { rebuild: None, force_idr: false });
    assert_eq!(p.begin_frame(1, 500, false), FramePlan::Skip);
    let small = p.begin_frame(100, 100, false);
    assert_eq!(
        small,
        FramePlan::Encode {
            rebuild: Some(EncoderSettings { width: 100, height: 100, bitrate_bps: 500_000 }),
            force_idr: true,
        }
    );
    let mid = p.begin_frame(320, 240, false);
    assert_eq!(
        mid,
        FramePlan::Encode {
            rebuild: Some(EncoderSettings { width: 320, height: 240, bitrate_bps: 614_400 }),
            force_idr: true,
        }
    );
}

#[test]
fn keyframe_request_forces_next_idr() {
    let mut s = VideoSession::new();
    let mut p = VideoPipeline::new(VideoCodec::Avc).unwrap();
    p.begin_frame(640, 480, false);
    assert!(is_force_keyframe(&"force-keyframe".to_string()));
    assert!(!is_force_keyframe(&"mode".to_string()));
    s.request_keyframe();
    let force = s.take_keyframe_request();
    assert!(force);
    assert_eq!(p.begin_frame(640, 480, force), FramePlan::Encode { rebuild: None, force_idr: true });
    assert!(!s.take_keyframe_request());
    assert_eq!(p.begin_frame(640, 480, false), FramePlan::Encode { rebuild: None, force_idr: false });
}

fn annex_b(nal: &[u8]) -> Vec<u8> {
    let mut v = vec![0, 0, 0, 1];
    v.extend_from_slice(nal);
    v
}

#[test]
fn first_output_builds_configuration() {
    let mut p = VideoPipeline::new(VideoCodec::Avc).unwrap();
    p.begin_frame(640, 480, false);
    let sps = [0x67, 0x42, 0xC0, 0x1E, 0x01];
    let pps = [0x68, 0xCE, 0x3C];
    let idr = [0x65, 0x88, 0x84];
    let out = p.finish_frame(&vec![annex_b(&sps), annex_b(&pps), annex_b(&idr)]);
    assert!(!out.needs_parameter_sets);
    let chunk = out.chunk.unwrap();
    assert_eq!(&chunk.data[..4], &[0, 0, 0, 5]);
    // The chunk carries an IDR unit.
    assert!(chunk.data.windows(4).any(|w| w == [0, 0, 0, 3]) && chunk.data.contains(&0x65));
    let cfg = p.config();
    assert_eq!(cfg.codec, VideoCodec::Avc);
    assert_eq!((cfg.width, cfg.height), (640, 480));
    // base64 of 01 42 C0 1E FF E1 00 05 67 42 C0 1E 01 01 00 03 68 CE 3C
    assert_eq!(cfg.description_b64, "AULAHv/hAAVnQsAeAQEAA2jOPA==");
}

#[test]
fn missing_parameter_sets_are_requested() {
    let mut p = VideoPipeline::new(VideoCodec::Avc).unwrap();
    p.begin_frame(64, 64, false);
    let out = p.finish_frame(&vec![annex_b(&[0x41, 1, 2])]);
    assert!(out.needs_parameter_sets);
    assert!(out.chunk.is_some());
    assert_eq!(p.config().description_b64, "");
    p.accept_parameter_sets(&vec![vec![0, 0, 1, 0x67, 1, 2, 3], vec![0, 0, 1, 0x68, 4]]);
    assert!(!p.config().description_b64.is_empty());
    let empty = p.finish_frame(&vec![vec![0, 0, 0, 1]]);
    assert!(empty.chunk.is_none());
    assert!(!empty.needs_parameter_sets);
}

#[test]
fn collect_nals_drops_empty_units() {
    let raw = vec![vec![0, 0, 1], vec![0, 0, 0, 1, 9], vec![]];
    assert_eq!(collect_nals(&raw), vec![vec![9]]);
}

#[test]
fn rgb_drops_alpha() {
    assert_eq!(rgba_to_rgb(&vec![1, 2, 3, 4, 5, 6, 7, 8], 2, 1), vec![1, 2, 3, 5, 6, 7]);
}

#[test]
fn config_is_sent_once_before_video() {
    let mut s = VideoSession::new();
    let not_ready = VideoConfig { codec: VideoCodec::Avc, width: 640, height: 480, description_b64: String::new() };
    let ready = VideoConfig { codec: VideoCodec::Avc, width: 640, height: 480, description_b64: "AQ==".to_string() };
    assert_eq!(s.on_chunk(&not_ready), ChunkAction::Withhold);
    assert_eq!(s.on_chunk(&ready), ChunkAction::SendConfigAndChunk);
    assert_eq!(s.on_chunk(&ready), ChunkAction::SendChunk);
    assert_eq!(s.on_chunk(&not_ready), ChunkAction::SendChunk);
}

#[test]
fn blocked_listener_counts_every_drop() {
    let mut counter = DropCounter::new();
    let mut delivered = 0;
    let mut logs = Vec::new();
    let capacity = 1;
    for i in 0..130 {
        let outcome = if i < capacity { SendOutcome::Delivered } else { SendOutcome::Full };
        let v = counter.record(outcome);
        assert!(v.keep);
        if outcome == SendOutcome::Delivered {
            delivered += 1;
        }
        if let Some(n) = v.log_dropped {
            logs.push(n);
        }
    }
    assert_eq!(delivered, capacity);
    assert_eq!(counter.count(), 129);
    assert_eq!(logs, vec![1, 61, 121]);
    assert!(!counter.record(SendOutcome::Closed).keep);
    assert_eq!(counter.count(), 129);
    counter.record(SendOutcome::Delivered);
    assert_eq!(counter.count(), 0);
}
