use foundry::aud0::{
    build_audio_chunk, build_direct_audio_chunk, is_audio_magic, parse_audio_chunk, AudioChunk,
    AudioMessage,
};
use foundry::avcc::{build_avcc_from_nals, nals_to_avcc, normalize_nal};

fn aud0_bytes(start_ms: f64, rate: u32, channels: u32, samples: &[i16]) -> Vec<u8> {
    let mut b = b"AUD0".to_vec();
    b.extend_from_slice(&start_ms.to_le_bytes());
    b.extend_from_slice(&rate.to_le_bytes());
    b.extend_from_slice(&channels.to_le_bytes());
    b.extend_from_slice(&(samples.len() as u32).to_le_bytes());
    for s in samples {
        b.extend_from_slice(&s.to_le_bytes());
    }
    b
}

#[test]
fn aud0_parse_client_fragment() {
    let buf = aud0_bytes(1234.5, 48000, 1, &[100, -200]);
    let m = parse_audio_chunk(&buf).expect("complete message");
    assert_eq!(f64::from_bits(m.start_ms_bits), 1234.5);
    assert_eq!(m.sample_rate, 48000);
    assert_eq!(m.channels, 1);
    assert_eq!(m.samples, vec![100, -200]);
}

#[test]
fn aud0_build_then_parse_round_trip() {
    let msg = AudioMessage {
        start_ms_bits: 2500.0f64.to_bits(),
        sample_rate: 44100,
        channels: 2,
        samples: vec![i16::MIN, -1, 0, 1, i16::MAX],
    };
    let bytes = build_audio_chunk(&msg);
    assert_eq!(bytes.len(), 24 + 2 * 5);
    assert_eq!(bytes, aud0_bytes(2500.0, 44100, 2, &[i16::MIN, -1, 0, 1, i16::MAX]));
    let back = parse_audio_chunk(&bytes).unwrap();
    assert_eq!(back.start_ms_bits, msg.start_ms_bits);
    assert_eq!(back.sample_rate, 44100);
    assert_eq!(back.channels, 2);
    assert_eq!(back.samples, msg.samples);
}

#[test]
fn aud0_rejects_short_and_foreign_buffers() {
    let buf = aud0_bytes(0.0, 48000, 1, &[1, 2, 3]);
    assert!(parse_audio_chunk(&buf[..buf.len() - 1]).is_none());
    assert!(parse_audio_chunk(&buf[..23]).is_none());
    let mut other = buf.clone();
    other[0] = b'X';
    assert!(parse_audio_chunk(&other).is_none());
    assert!(!is_audio_magic(&other));
    assert!(is_audio_magic(b"AUD0"));
    assert!(!is_audio_magic(b"AUD"));
    // Bytes after the declared samples are ignored.
    let mut longer = buf.clone();
    longer.extend_from_slice(&[9, 9]);
    assert_eq!(parse_audio_chunk(&longer).unwrap().samples, vec![1, 2, 3]);
}

#[test]
fn aud0_empty_payload() {
    let buf = aud0_bytes(0.0, 8000, 1, &[]);
    let m = parse_audio_chunk(&buf).unwrap();
    assert!(m.samples.is_empty());
}

#[test]
fn aud0_direct_chunk_has_zero_start() {
    let chunk = AudioChunk { sample_rate: 48000, channels: 2, samples: vec![5, -5] };
    let bytes = build_direct_audio_chunk(&chunk);
    assert_eq!(bytes, aud0_bytes(0.0, 48000, 2, &[5, -5]));
}

#[test]
fn avcc_frames_each_unit_with_its_length() {
    let nals = vec![vec![0x67, 1, 2], vec![0x68], vec![0x65; 300]];
    let out = nals_to_avcc(&nals);
    assert_eq!(&out[..7], &[0, 0, 0, 3, 0x67, 1, 2]);
    assert_eq!(&out[7..12], &[0, 0, 0, 1, 0x68]);
    assert_eq!(&out[12..16], &[0, 0, 1, 44]);
    assert_eq!(out.len(), 3 + 1 + 300 + 4 * 3);
    // Reading it back as `length || bytes` consumes it whole.
    let mut pos = 0;
    let mut units = Vec::new();
    while pos < out.len() {
        let n = u32::from_be_bytes([out[pos], out[pos + 1], out[pos + 2], out[pos + 3]]) as usize;
        units.push(out[pos + 4..pos + 4 + n].to_vec());
        pos += 4 + n;
    }
    assert_eq!(pos, out.len());
    assert_eq!(units, nals);
}

#[test]
fn avcc_empty_list_frames_to_nothing() {
    assert!(nals_to_avcc(&[]).is_empty());
}

#[test]
fn normalize_strips_start_codes_and_length_prefixes() {
    assert_eq!(normalize_nal(&[0, 0, 0, 1, 0x67, 9]), Some(vec![0x67, 9]));
    assert_eq!(normalize_nal(&[0, 0, 1, 0x68, 7]), Some(vec![0x68, 7]));
    assert_eq!(normalize_nal(&[0, 0, 0, 2, 0x65, 1]), Some(vec![0x65, 1]));
    // A length field pointing past the end is not a prefix.
    assert_eq!(normalize_nal(&[0, 0, 0, 9, 0x65, 1]), Some(vec![0, 0, 0, 9, 0x65, 1]));
    assert_eq!(normalize_nal(&[0x41, 1, 2]), Some(vec![0x41, 1, 2]));
    assert_eq!(normalize_nal(&[]), None);
    assert_eq!(normalize_nal(&[0, 0, 0, 1]), None);
    assert_eq!(normalize_nal(&[0, 0, 1]), None);
}

#[test]
fn avcc_record_from_sps_and_pps() {
    let sps = vec![0x67, 0x42, 0xC0, 0x1E, 0xAA];
    let pps = vec![0x68, 0xCE];
    let rec = build_avcc_from_nals(&[vec![0x09, 0x10], sps.clone(), pps.clone(), vec![0x65, 1]])
        .unwrap();
    let mut want = vec![1, 0x42, 0xC0, 0x1E, 0xFF, 0xE1, 0, 5];
    want.extend_from_slice(&sps);
    want.extend_from_slice(&[1, 0, 2]);
    want.extend_from_slice(&pps);
    assert_eq!(rec, want);
}

#[test]
fn avcc_record_needs_both_sets_and_a_long_sps() {
    assert_eq!(build_avcc_from_nals(&[vec![0x67, 1, 2, 3]]), None);
    assert_eq!(build_avcc_from_nals(&[vec![0x68, 1]]), None);
    assert_eq!(build_avcc_from_nals(&[vec![0x67, 1, 2], vec![0x68, 1]]), None);
    assert_eq!(build_avcc_from_nals(&[]), None);
}

#[test]
fn avcc_record_uses_the_last_parameter_sets() {
    let rec = build_avcc_from_nals(&[
        vec![0x67, 1, 1, 1],
        vec![0x68, 5],
        vec![0x67, 2, 2, 2],
        vec![0x68, 6],
    ])
    .unwrap();
    assert_eq!(&rec[..4], &[1, 2, 2, 2]);
    assert_eq!(*rec.last().unwrap(), 6);
}
