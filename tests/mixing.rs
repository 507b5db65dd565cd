use foundry::aud0::parse_audio_chunk;
use foundry::mixer::{Mixer, MixerInput, CHUNK_MS, MAX_BUCKET_AGE_MS};
use foundry::pcm::{decoded_audio, interleave_s16, mixdown_mono, planes_s32_to_s16};
use foundry::device::{mentions_blackhole, pick_input_device};

fn input(start_ms: u64, rate: u32, channels: u32, samples: Vec<i16>) -> MixerInput {
    MixerInput { start_ms, sample_rate: rate, channels, samples }
}

#[test]
fn client_fragment_lands_in_bucket_twelve() {
    let mut b = b"AUD0".to_vec();
    b.extend_from_slice(&1234.5f64.to_le_bytes());
    b.extend_from_slice(&48000u32.to_le_bytes());
    b.extend_from_slice(&1u32.to_le_bytes());
    b.extend_from_slice(&2u32.to_le_bytes());
    b.extend_from_slice(&100i16.to_le_bytes());
    b.extend_from_slice(&(-200i16).to_le_bytes());
    let m = parse_audio_chunk(&b).unwrap();
    let start_ms = f64::from_bits(m.start_ms_bits).floor() as u64;
    let mut mixer = Mixer::new();
    let out = mixer
        .mix(&input(start_ms, m.sample_rate, m.channels, m.samples), 10)
        .expect("mono fragment is mixed");
    assert_eq!(out.start_ms, 1200);
    assert_eq!(out.start_ms / CHUNK_MS, 12);
    assert_eq!(out.samples, vec![100, -200]);
    assert_eq!(out.sample_rate, 48000);
    assert_eq!(out.channels, 1);
    assert_eq!(mixer.bucket_count(), 1);
}

#[test]
fn mixing_saturates_instead_of_wrapping() {
    let mut mixer = Mixer::new();
    mixer.mix(&input(500, 16000, 1, vec![30000, -30000, 5]), 0).unwrap();
    let out = mixer.mix(&input(599, 16000, 1, vec![10000, -10000, 6, 7]), 1).unwrap();
    assert_eq!(out.start_ms, 500);
    assert_eq!(out.samples, vec![i16::MAX, i16::MIN, 11, 7]);
}

#[test]
fn mixer_drops_stereo_and_mismatched_rates() {
    let mut mixer = Mixer::new();
    assert!(mixer.mix(&input(0, 48000, 2, vec![1, 2]), 0).is_none());
    assert_eq!(mixer.bucket_count(), 0);
    mixer.mix(&input(0, 48000, 1, vec![1]), 0).unwrap();
    assert!(mixer.mix(&input(50, 44100, 1, vec![1]), 1).is_none());
    let out = mixer.mix(&input(99, 48000, 1, vec![2]), 2).unwrap();
    assert_eq!(out.samples, vec![3]);
}

#[test]
fn separate_buckets_per_hundred_ms() {
    let mut mixer = Mixer::new();
    mixer.mix(&input(0, 48000, 1, vec![1]), 0).unwrap();
    let out = mixer.mix(&input(100, 48000, 1, vec![4]), 0).unwrap();
    assert_eq!(out.start_ms, 100);
    assert_eq!(out.samples, vec![4]);
    assert_eq!(mixer.bucket_count(), 2);
}

#[test]
fn idle_mixer_prunes_every_bucket() {
    let mut mixer = Mixer::new();
    mixer.mix(&input(0, 48000, 1, vec![1]), 1050).unwrap();
    mixer.mix(&input(300, 48000, 1, vec![1]), 1050).unwrap();
    assert_eq!(mixer.bucket_count(), 2);
    mixer.tick(1050 + MAX_BUCKET_AGE_MS);
    assert_eq!(mixer.bucket_count(), 2);
    mixer.tick(1050 + MAX_BUCKET_AGE_MS + CHUNK_MS + 1);
    assert_eq!(mixer.bucket_count(), 0);
}

#[test]
fn fresh_bucket_survives_a_prune() {
    let mut mixer = Mixer::new();
    mixer.mix(&input(0, 48000, 1, vec![1]), 0).unwrap();
    mixer.mix(&input(1000, 48000, 1, vec![1]), 2500).unwrap();
    // The prune at 2500 drops the bucket last updated at 0 and keeps the new one.
    assert_eq!(mixer.bucket_count(), 1);
}

#[test]
fn mono_mixdown_averages_each_frame() {
    assert_eq!(mixdown_mono(&vec![10, 20, -3, -4, 7], 2), vec![15, -3, 3]);
    assert_eq!(mixdown_mono(&vec![5, -7], 1), vec![5, -7]);
    assert_eq!(mixdown_mono(&vec![i16::MAX, i16::MAX, i16::MIN, i16::MIN], 2), vec![i16::MAX, i16::MIN]);
    assert!(mixdown_mono(&vec![], 2).is_empty());
}

#[test]
fn interleave_repeats_last_plane() {
    let planes = vec![vec![1, 2, 3], vec![10, 20, 30]];
    assert_eq!(interleave_s16(&planes, 3, 2), vec![1, 10, 2, 20, 3, 30]);
    let mono = vec![vec![7, 8]];
    assert_eq!(interleave_s16(&mono, 2, 2), vec![7, 7, 8, 8]);
    assert_eq!(interleave_s16(&planes, 2, 1), vec![1, 2]);
}

#[test]
fn s32_planes_keep_high_half() {
    let planes = vec![vec![0x1234_5678, -65536, -1, i32::MIN]];
    assert_eq!(planes_s32_to_s16(&planes), vec![vec![0x1234, -1, -1, i16::MIN]]);
}

#[test]
fn decoded_audio_defaults_and_empty() {
    assert!(decoded_audio(vec![], Some(44100), Some(1)).is_none());
    let d = decoded_audio(vec![1, 2], None, None).unwrap();
    assert_eq!((d.sample_rate, d.channels), (48000, 2));
    let d = decoded_audio(vec![1], Some(22050), Some(1)).unwrap();
    assert_eq!((d.sample_rate, d.channels, d.samples), (22050, 1, vec![1]));
}

#[test]
fn loopback_device_is_preferred() {
    let names = vec![
        Some("MacBook Microphone".to_string()),
        None,
        Some("BlackHole 2ch".to_string()),
        Some("blackhole 16ch".to_string()),
    ];
    assert_eq!(pick_input_device(&names), Some(2));
    assert_eq!(pick_input_device(&vec![Some("Mic".to_string())]), None);
    assert!(mentions_blackhole("my blackhole"));
    assert!(!mentions_blackhole("BlackHole"));
    assert!(!mentions_blackhole("black hole"));
}
