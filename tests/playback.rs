use foundry::demux::{codec_string, extract_avcc, keyframe_payload, AvcConfigBox, MediaFrame, Mp4Demuxer};
use foundry::player::{build_audio_chunk, FrameDecision, PlaybackCursor};

fn avc_box() -> AvcConfigBox {
    AvcConfigBox {
        configuration_version: 1,
        profile: 0x64,
        compatibility: 0x00,
        level: 0x28,
        sps: vec![vec![0x67, 0x64, 0x00, 0x28, 0xAC]],
        pps: vec![vec![0x68, 0xEE, 0x3C, 0x80]],
    }
}

#[test]
fn avcc_box_becomes_record_and_prefix() {
    let d = extract_avcc(&avc_box()).unwrap();
    assert_eq!(
        d.config,
        vec![1, 0x64, 0x00, 0x28, 0xFF, 0xE1, 0, 5, 0x67, 0x64, 0x00, 0x28, 0xAC, 1, 0, 4, 0x68, 0xEE, 0x3C, 0x80]
    );
    assert_eq!(
        d.sps_pps,
        vec![0, 0, 0, 5, 0x67, 0x64, 0x00, 0x28, 0xAC, 0, 0, 0, 4, 0x68, 0xEE, 0x3C, 0x80]
    );
}

#[test]
fn oversized_box_is_refused() {
    let mut b = avc_box();
    b.sps = vec![vec![0x67; 70_000]];
    assert!(extract_avcc(&b).is_none());
    let mut b = avc_box();
    b.sps = vec![vec![0x67, 1, 2, 3]; 32];
    assert!(extract_avcc(&b).is_none());
}

#[test]
fn codec_string_from_record_bytes() {
    assert_eq!(codec_string(&vec![1, 0x64, 0x00, 0x28, 0xFF]), "avc1.640028");
    assert_eq!(codec_string(&vec![1, 0x42, 0xE0, 0x1E]), "avc1.42E01E");
    assert_eq!(codec_string(&vec![1, 2]), "avc1.42E01E");
}

#[test]
fn keyframes_get_parameter_sets_in_front() {
    let sample = [0, 0, 0, 2, 0x65, 0x11];
    let prefix = [0, 0, 0, 1, 0x67, 0, 0, 0, 1, 0x68];
    let key = keyframe_payload(&sample, true, &prefix);
    assert_eq!(&key[..prefix.len()], &prefix);
    assert_eq!(&key[prefix.len()..], &sample);
    assert_eq!(keyframe_payload(&sample, false, &prefix), sample.to_vec());
    assert_eq!(keyframe_payload(&sample, true, &[]), sample.to_vec());
}

#[test]
fn demuxer_config_and_frames() {
    let d = Mp4Demuxer::from_track(1, 1280, 720, 300, 10_000_000, true, &avc_box()).unwrap();
    assert_eq!((d.video_width(), d.video_height(), d.frame_count(), d.has_audio()), (1280, 720, 300, true));
    let cfg = d.video_config();
    assert_eq!(cfg.codec_string, "avc1.640028");
    assert_eq!(cfg.description_b64, "AWQAKP/hAAVnZAAorAEABGjuPIA=");
    assert_eq!((cfg.width, cfg.height), (1280, 720));
    assert_eq!(d.frame_timestamp_us(1), 0);
    assert_eq!(d.frame_timestamp_us(61), 2_000_000);
    let f = d.frame(31, &[0, 0, 0, 1, 0x65], true);
    assert_eq!(f.timestamp_us, 1_000_000);
    let MediaFrame::Video { data, is_keyframe } = f.media;
    assert!(is_keyframe);
    assert_eq!(&data[..9], &[0, 0, 0, 5, 0x67, 0x64, 0x00, 0x28, 0xAC]);
    assert_eq!(&data[data.len() - 5..], &[0, 0, 0, 1, 0x65]);
}

#[test]
fn track_without_duration_runs_at_thirty_fps() {
    let d = Mp4Demuxer::from_track(1, 640, 480, 90, 0, false, &avc_box()).unwrap();
    assert_eq!(d.frame_timestamp_us(31), 1_000_000);
}

#[test]
fn start_offset_sends_240_of_300_frames() {
    let d = Mp4Demuxer::from_track(1, 640, 480, 300, 10_000_000, false, &avc_box()).unwrap();
    let mut cursor = PlaybackCursor::new(2_000_000);
    let mut sent = Vec::new();
    for i in 1..=300u32 {
        let ts = d.frame_timestamp_us(i);
        let key = (i - 1) % 30 == 0;
        match cursor.on_frame(ts, key) {
            FrameDecision::Skip => {}
            FrameDecision::Send { due_us } => sent.push((i, due_us)),
        }
    }
    assert_eq!(sent.len(), 240);
    assert_eq!(sent[0], (61, 0));
    assert_eq!(sent[1].1, 33_333);
    assert_eq!(sent[239].0, 300);
}

#[test]
fn frames_before_first_keyframe_are_skipped() {
    let mut cursor = PlaybackCursor::new(1_000_000);
    assert_eq!(cursor.on_frame(500_000, true), FrameDecision::Skip);
    assert_eq!(cursor.on_frame(1_100_000, false), FrameDecision::Skip);
    assert_eq!(cursor.on_frame(1_200_000, true), FrameDecision::Send { due_us: 200_000 });
    assert_eq!(cursor.on_frame(1_300_000, false), FrameDecision::Send { due_us: 300_000 });
}

#[test]
fn audio_window_in_forty_ms_chunks() {
    let mut cursor = PlaybackCursor::new(0);
    // 48 kHz stereo: 3840 samples per 40 ms, 9600 up to 100 ms.
    let w = cursor.audio_window(100_000, 48000, 2, 1_000_000);
    assert_eq!(w, vec![(0, 3840), (3840, 7680), (7680, 9600)]);
    let w = cursor.audio_window(110_000, 48000, 2, 10_000);
    assert_eq!(w, vec![(9600, 10_000)]);
    let w = cursor.audio_window(120_000, 48000, 2, 10_000);
    assert!(w.is_empty());
}

#[test]
fn file_audio_chunk_carries_channel_count() {
    let b = build_audio_chunk(&[1, -1], 44100, 1);
    assert_eq!(&b[..4], b"AUD0");
    assert_eq!(&b[4..12], &0.0f64.to_le_bytes());
    assert_eq!(&b[12..16], &44100u32.to_le_bytes());
    assert_eq!(&b[16..20], &1u32.to_le_bytes());
    assert_eq!(&b[20..24], &2u32.to_le_bytes());
    assert_eq!(&b[24..], &[1, 0, 0xFF, 0xFF]);
}
