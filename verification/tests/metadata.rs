use soundscout::error::SoundScoutError;
use soundscout::metadata::{extract_metadata, metadata_from_params, ProbeParams};
use soundscout::models::AudioMetadata;

/// A PCM WAV of `frames` frames of a sine (or silence for a zero frequency).
fn test_wav(sample_rate: u32, channels: u16, bits: u16, frames: u32, frequency_hz: f32) -> Vec<u8> {
    let block_align = (channels * bits) / 8;
    let byte_rate = sample_rate * u32::from(block_align);
    let mut data = Vec::new();
    for i in 0..frames {
        let t = f64::from(i) / f64::from(sample_rate);
        let sample = if frequency_hz <= 0.0 {
            0.0f32
        } else {
            (f64::from(frequency_hz) * t * std::f64::consts::TAU).sin() as f32
        };
        for _ in 0..channels {
            if bits == 16 {
                data.extend_from_slice(&((sample * i16::MAX as f32) as i16).to_le_bytes());
            } else {
                let s = (sample * 8_388_607.0) as i32;
                data.extend_from_slice(&s.to_le_bytes()[..3]);
            }
        }
    }
    let mut b = Vec::new();
    b.extend_from_slice(b"RIFF");
    b.extend_from_slice(&((36 + data.len()) as u32).to_le_bytes());
    b.extend_from_slice(b"WAVEfmt ");
    b.extend_from_slice(&16u32.to_le_bytes());
    b.extend_from_slice(&1u16.to_le_bytes());
    b.extend_from_slice(&channels.to_le_bytes());
    b.extend_from_slice(&sample_rate.to_le_bytes());
    b.extend_from_slice(&byte_rate.to_le_bytes());
    b.extend_from_slice(&block_align.to_le_bytes());
    b.extend_from_slice(&bits.to_le_bytes());
    b.extend_from_slice(b"data");
    b.extend_from_slice(&(data.len() as u32).to_le_bytes());
    b.extend_from_slice(&data);
    b
}

#[test]
fn reads_wav_44100_mono_16bit() {
    let m = extract_metadata(&test_wav(44_100, 1, 16, 44_100, 440.0), "wav").expect("meta");
    assert_eq!(m.sample_rate, Some(44_100));
    assert_eq!(m.channels, Some(1));
    assert_eq!(m.bit_depth, Some(16));
    assert!(m.duration_ms.is_some());
}

#[test]
fn reads_wav_48000_stereo() {
    let m = extract_metadata(&test_wav(48_000, 2, 16, 1000, 100.0), "wav").expect("meta");
    assert_eq!(m.channels, Some(2));
}

#[test]
fn reads_wav_24bit() {
    let m = extract_metadata(&test_wav(44_100, 1, 24, 5000, 200.0), "wav").expect("meta");
    assert_eq!(m.bit_depth, Some(24));
}

#[test]
fn duration_is_approximately_correct() {
    let m = extract_metadata(&test_wav(1000, 1, 16, 1000, 440.0), "wav").expect("meta");
    let d = m.duration_ms.expect("dur");
    assert!((d - 1000).abs() <= 50);
}

#[test]
fn probe_reads_the_exact_duration() {
    let m = extract_metadata(&test_wav(8000, 2, 16, 12_000, 0.0), "wav").expect("meta");
    assert_eq!(
        m,
        AudioMetadata { duration_ms: Some(1500), sample_rate: Some(8000), channels: Some(2), bit_depth: Some(16) }
    );
}

#[test]
fn corrupt_file_returns_error_not_panic() {
    assert!(matches!(extract_metadata(&[0u8; 64], "wav"), Err(SoundScoutError::AudioDecode(_))));
}

#[test]
fn empty_file_returns_error() {
    assert!(extract_metadata(&[], "wav").is_err());
}

#[test]
fn truncated_header_no_panic() {
    let _ = extract_metadata(b"RIFF\x00\x00\x00\x00WAVE", "wav");
}

#[test]
fn metadata_from_params_computes_the_duration() {
    let p = ProbeParams { n_frames: Some(22_050), sample_rate: Some(44_100), channels: Some(2), bits_per_sample: Some(24) };
    assert_eq!(
        metadata_from_params(&p),
        AudioMetadata { duration_ms: Some(500), sample_rate: Some(44_100), channels: Some(2), bit_depth: Some(24) }
    );
}

#[test]
fn metadata_without_rate_or_frames_has_no_duration() {
    let p = ProbeParams { n_frames: Some(10), sample_rate: None, channels: None, bits_per_sample: None };
    assert_eq!(metadata_from_params(&p).duration_ms, None);
    let q = ProbeParams { n_frames: None, sample_rate: Some(48_000), channels: Some(1), bits_per_sample: None };
    assert_eq!(metadata_from_params(&q).duration_ms, None);
    let z = ProbeParams { n_frames: Some(10), sample_rate: Some(0), channels: None, bits_per_sample: None };
    assert_eq!(metadata_from_params(&z).duration_ms, None);
}

#[test]
fn huge_frame_counts_saturate_and_wide_values_are_stored_as_the_original_does() {
    let p = ProbeParams {
        n_frames: Some(u64::MAX),
        sample_rate: Some(1),
        channels: Some(usize::MAX),
        bits_per_sample: Some(u32::MAX),
    };
    let m = metadata_from_params(&p);
    assert_eq!(m.duration_ms, Some(0));
    assert_eq!(m.channels, Some(1));
    assert_eq!(m.bit_depth, Some(-1));
    let r = ProbeParams { n_frames: Some(10), sample_rate: Some(3_000_000_000), channels: None, bits_per_sample: None };
    assert_eq!(metadata_from_params(&r).duration_ms, None);
}
