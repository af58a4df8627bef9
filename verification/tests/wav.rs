use soundscout::wav::{
    decode_linear_pcm, decoded_chunk_samples, f32_wav_header, read_u16_le, read_u32_le, sniff_wav_header, wav_pcm_layout,
    wav_stream_chunk_bytes, wav_stream_step, write_smpl_chunk, WavHeaderError, WavStreamStep,
    WavWriteError,
};

fn le32(b: &[u8], at: usize) -> u32 {
    u32::from_le_bytes([b[at], b[at + 1], b[at + 2], b[at + 3]])
}

fn pcm16_file(channels: u16, rate: u32, data: &[u8]) -> Vec<u8> {
    let mut b = Vec::new();
    b.extend_from_slice(b"RIFF");
    b.extend_from_slice(&(36 + data.len() as u32).to_le_bytes());
    b.extend_from_slice(b"WAVE");
    b.extend_from_slice(b"fmt ");
    b.extend_from_slice(&16u32.to_le_bytes());
    b.extend_from_slice(&1u16.to_le_bytes());
    b.extend_from_slice(&channels.to_le_bytes());
    b.extend_from_slice(&rate.to_le_bytes());
    b.extend_from_slice(&(rate * 2 * channels as u32).to_le_bytes());
    b.extend_from_slice(&(2 * channels).to_le_bytes());
    b.extend_from_slice(&16u16.to_le_bytes());
    b.extend_from_slice(b"data");
    b.extend_from_slice(&(data.len() as u32).to_le_bytes());
    b.extend_from_slice(data);
    b
}

#[test]
fn smpl_chunk_roundtrip() {
    let mut f: Vec<u8> = Vec::new();
    let data_bytes = 4410 * 4u32;
    let riff_payload = 4u32 + (8 + 16) + (8 + data_bytes) + 8 + 68;
    f.extend_from_slice(b"RIFF");
    f.extend_from_slice(&riff_payload.to_le_bytes());
    f.extend_from_slice(b"WAVE");
    f.extend_from_slice(b"fmt ");
    f.extend_from_slice(&16u32.to_le_bytes());
    f.extend_from_slice(&3u16.to_le_bytes());
    f.extend_from_slice(&1u16.to_le_bytes());
    f.extend_from_slice(&44100u32.to_le_bytes());
    f.extend_from_slice(&(176_400u32).to_le_bytes());
    f.extend_from_slice(&4u16.to_le_bytes());
    f.extend_from_slice(&32u16.to_le_bytes());
    f.extend_from_slice(b"data");
    f.extend_from_slice(&data_bytes.to_le_bytes());
    f.extend_from_slice(&vec![0u8; data_bytes as usize]);
    write_smpl_chunk(&mut f, 44100, 100, 4309);

    let bytes = f;
    let smpl_pos = bytes.windows(4).position(|w| w == b"smpl").expect("smpl chunk missing");
    let loop_start = u32::from_le_bytes(bytes[smpl_pos + 52..smpl_pos + 56].try_into().unwrap());
    let loop_end = u32::from_le_bytes(bytes[smpl_pos + 56..smpl_pos + 60].try_into().unwrap());
    assert_eq!(loop_start, 100);
    assert_eq!(loop_end, 4309);
}

#[test]
fn smpl_chunk_layout() {
    let mut w = vec![9u8];
    write_smpl_chunk(&mut w, 48000, 7, 99);
    assert_eq!(w.len(), 1 + 68);
    assert_eq!(&w[1..5], b"smpl");
    assert_eq!(le32(&w, 5), 60);
    assert_eq!(le32(&w, 5) as usize, w.len() - 1 - 8);
    assert_eq!(le32(&w, 1 + 16), 1_000_000_000 / 48000);
    assert_eq!(le32(&w, 1 + 20), 60);
    assert_eq!(le32(&w, 1 + 36), 1);
    let mut z = Vec::new();
    write_smpl_chunk(&mut z, 0, 0, 0);
    assert_eq!(le32(&z, 16), 1_000_000_000);
}

#[test]
fn float_header_is_read_back_by_the_sniffer() {
    let h = f32_wav_header(8820, 44100, 2, false).expect("header");
    assert_eq!(h.len(), 44);
    let info = sniff_wav_header(&h).expect("sniff");
    assert_eq!(info.audio_format, 3);
    assert_eq!(info.num_channels, 2);
    assert_eq!(info.sample_rate, 44100);
    assert_eq!(info.byte_rate, 352_800);
    assert_eq!(info.block_align, 8);
    assert_eq!(info.bits_per_sample, 32);
    assert_eq!(info.data_chunk_size, 35_280);
    assert_eq!(info.riff_chunk_size, 36 + 35_280);
}

#[test]
fn float_header_counts_the_loop_chunk() {
    let h = f32_wav_header(4, 8000, 1, true).expect("header");
    assert_eq!(le32(&h, 4), 36 + 16 + 68);
    assert_eq!(le32(&h, 40), 16);
}

#[test]
fn float_header_and_layout_agree() {
    let mut file = f32_wav_header(6, 22050, 3, false).expect("header");
    file.extend_from_slice(&[0u8; 24]);
    let (layout, offset) = wav_pcm_layout(&file).expect("layout");
    assert_eq!(offset, 44);
    assert_eq!(layout.audio_format, 3);
    assert_eq!(layout.channels, 3);
    assert_eq!(layout.block_align, 12);
    assert_eq!(layout.sample_rate, 22050);
    assert_eq!(layout.data_total_bytes, 24);
}

#[test]
fn float_header_rejects_partial_frames() {
    assert_eq!(f32_wav_header(3, 44100, 2, false), Err(WavWriteError::InvalidSampleBuffer));
    assert_eq!(f32_wav_header(4, 44100, 0, false), Err(WavWriteError::InvalidSampleBuffer));
    assert_eq!(WavWriteError::InvalidSampleBuffer.message(), "invalid sample buffer");
}

#[test]
fn sniffer_reports_each_error() {
    assert_eq!(sniff_wav_header(b"RIF"), Err(WavHeaderError::Truncated));
    assert_eq!(sniff_wav_header(b"RIFX\0\0\0\0WAVE"), Err(WavHeaderError::NotRiff));
    assert_eq!(sniff_wav_header(b"RIFF\0\0\0\0WAV"), Err(WavHeaderError::Truncated));
    assert_eq!(sniff_wav_header(b"RIFF\0\0\0\0AVI "), Err(WavHeaderError::NotWave));
    assert_eq!(sniff_wav_header(b"RIFF\0\0\0\0WAVE"), Err(WavHeaderError::NoFmtChunk));
    let mut small = b"RIFF\0\0\0\0WAVEfmt ".to_vec();
    small.extend_from_slice(&8u32.to_le_bytes());
    small.extend_from_slice(&[0u8; 8]);
    assert_eq!(sniff_wav_header(&small), Err(WavHeaderError::FmtTooSmall));
    let mut cut = b"RIFF\0\0\0\0WAVEfmt ".to_vec();
    cut.extend_from_slice(&16u32.to_le_bytes());
    cut.extend_from_slice(&[0u8; 10]);
    assert_eq!(sniff_wav_header(&cut), Err(WavHeaderError::Truncated));
    assert_eq!(WavHeaderError::NotWave.message(), "not WAVE");
    assert_eq!(WavHeaderError::Truncated.message(), "failed to fill whole buffer");
}

#[test]
fn sniffer_skips_unknown_chunks_with_padding() {
    let inner = pcm16_file(1, 8000, &[1, 0, 2, 0]);
    let mut b = inner[..12].to_vec();
    b.extend_from_slice(b"LIST");
    b.extend_from_slice(&3u32.to_le_bytes());
    b.extend_from_slice(&[7, 7, 7, 0]);
    b.extend_from_slice(&inner[12..]);
    let info = sniff_wav_header(&b).expect("sniff");
    assert_eq!(info.audio_format, 1);
    assert_eq!(info.data_chunk_size, 4);
    let (layout, offset) = wav_pcm_layout(&b).expect("layout");
    assert_eq!(offset, 56);
    assert_eq!(layout.data_total_bytes, 4);
}

#[test]
fn layout_rounds_data_down_to_whole_frames() {
    let b = pcm16_file(2, 44100, &[0u8; 10]);
    let (layout, offset) = wav_pcm_layout(&b).expect("layout");
    assert_eq!(offset, 44);
    assert_eq!(layout.block_align, 4);
    assert_eq!(layout.data_total_bytes, 8);
}

#[test]
fn layout_refuses_unsupported_formats() {
    let mut b = pcm16_file(1, 8000, &[0, 0]);
    b[20] = 2;
    assert!(wav_pcm_layout(&b).is_none());
    let mut b = pcm16_file(1, 8000, &[0, 0]);
    b[32] = 4;
    assert!(wav_pcm_layout(&b).is_none());
    assert!(wav_pcm_layout(b"RIFF\0\0\0\0WAVE").is_none());
}

#[test]
fn decodes_linear_pcm_sizes() {
    assert_eq!(decode_linear_pcm(8, 1, &[0, 128, 255]), Ok(vec![-128, 0, 127]));
    assert_eq!(decode_linear_pcm(16, 4, &[0x00, 0x80, 0xff, 0x7f]), Ok(vec![-32768, 32767]));
    assert_eq!(decode_linear_pcm(24, 3, &[0xff, 0xff, 0xff]), Ok(vec![-1]));
    assert_eq!(decode_linear_pcm(32, 4, &[1, 0, 0, 0]), Ok(vec![1]));
    assert_eq!(decode_linear_pcm(16, 4, &[0, 0, 0]), Err(()));
    assert_eq!(decode_linear_pcm(12, 2, &[0, 0]), Err(()));
    assert_eq!(decode_linear_pcm(16, 0, &[]), Err(()));
}

#[test]
fn little_endian_readers() {
    assert_eq!(read_u16_le(&[0x34, 0x12]), 0x1234);
    assert_eq!(read_u32_le(&[0x78, 0x56, 0x34, 0x12]), 0x1234_5678);
}

#[test]
fn stream_chunks_hold_two_seconds_of_frames() {
    assert_eq!(wav_stream_chunk_bytes(44100, 4), Ok(352_800));
    assert_eq!(wav_stream_chunk_bytes(0, 6), Ok(6));
}

#[test]
fn stream_steps() {
    assert_eq!(wav_stream_step(0, 8, 4), WavStreamStep::Done);
    assert_eq!(wav_stream_step(10, 8, 4), WavStreamStep::Read(8));
    assert_eq!(wav_stream_step(12, 100, 4), WavStreamStep::Read(12));
    assert_eq!(wav_stream_step(3, 8, 4), WavStreamStep::Misaligned);
    let mut remaining = 352_800 * 3 + 400;
    let mut reads = 0;
    while let WavStreamStep::Read(n) = wav_stream_step(remaining, 352_800, 4) {
        remaining -= n;
        reads += 1;
    }
    assert_eq!(remaining, 0);
    assert_eq!(reads, 4);
}

#[test]
fn decoded_chunks_hold_two_seconds_of_whole_frames() {
    assert_eq!(decoded_chunk_samples(44_100, 2), 176_400);
    assert_eq!(decoded_chunk_samples(48_000, 1), 96_000);
    assert_eq!(decoded_chunk_samples(0, 3), 3);
    assert_eq!(decoded_chunk_samples(u32::MAX, 1), 2 * u32::MAX as usize);
}
