use goonj::error::GoonjError;
use goonj::wav::{
    encode_wav_mono, encode_wav_stereo, write_pcm16, write_pcm16_interleaved, write_wav_header,
    WavHeader, WAV_HEADER_LEN,
};

fn u16_at(buf: &[u8], o: usize) -> u16 {
    u16::from_le_bytes([buf[o], buf[o + 1]])
}

fn u32_at(buf: &[u8], o: usize) -> u32 {
    u32::from_le_bytes([buf[o], buf[o + 1], buf[o + 2], buf[o + 3]])
}

fn i16_at(buf: &[u8], o: usize) -> i16 {
    i16::from_le_bytes([buf[o], buf[o + 1]])
}

#[test]
fn mono_wav_bytes_header_valid() {
    let buf = encode_wav_mono(&[0_i16; 100], 48_000).unwrap();
    assert_eq!(&buf[0..4], b"RIFF");
    assert_eq!(&buf[8..12], b"WAVE");
    assert_eq!(&buf[12..16], b"fmt ");
    assert_eq!(&buf[36..40], b"data");
    assert_eq!(buf.len(), 244);
}

#[test]
fn stereo_wav_bytes_header_valid() {
    let left = vec![16_383_i16; 50];
    let right = vec![-16_383_i16; 50];
    let buf = encode_wav_stereo(&left, &right, 44_100).unwrap();
    assert_eq!(&buf[0..4], b"RIFF");
    assert_eq!(&buf[8..12], b"WAVE");
    assert_eq!(buf.len(), 244);
    assert_eq!(u16_at(&buf, 22), 2);
    assert_eq!(u16_at(&buf, 32), 4);
    assert_eq!(u32_at(&buf, 28), 44_100 * 4);
}

#[test]
fn stereo_wav_bytes_mismatched_lengths_error() {
    let err = encode_wav_stereo(&[0; 50], &[0; 30], 48_000).unwrap_err();
    assert!(matches!(err, GoonjError::ComputationError(_)));
    assert_eq!(
        err.message(),
        "computation error: left and right channels must have equal length"
    );
}

#[test]
fn mono_wav_bytes_extreme_samples() {
    let buf = encode_wav_mono(&[-32_767, -1, 0, 1, 32_767, i16::MIN], 48_000).unwrap();
    assert_eq!(i16_at(&buf, 44), -32_767);
    assert_eq!(i16_at(&buf, 46), -1);
    assert_eq!(i16_at(&buf, 48), 0);
    assert_eq!(i16_at(&buf, 50), 1);
    assert_eq!(i16_at(&buf, 52), 32_767);
    assert_eq!(i16_at(&buf, 54), i16::MIN);
    assert_eq!(&buf[44..46], &[0x01, 0x80]);
}

#[test]
fn mono_wav_bytes_silence() {
    let buf = encode_wav_mono(&[0_i16; 480], 48_000).unwrap();
    for i in (44..buf.len()).step_by(2) {
        assert_eq!(i16_at(&buf, i), 0, "silence should produce zero PCM values");
    }
}

#[test]
fn wav_bytes_roundtrip_header_fields() {
    let buf = encode_wav_mono(&[3_276_i16; 1000], 44_100).unwrap();
    assert_eq!(u32_at(&buf, 4), 36 + 2000);
    assert_eq!(u32_at(&buf, 16), 16);
    assert_eq!(u16_at(&buf, 20), 1);
    assert_eq!(u16_at(&buf, 22), 1);
    assert_eq!(u32_at(&buf, 24), 44_100);
    assert_eq!(u32_at(&buf, 28), 88_200);
    assert_eq!(u16_at(&buf, 32), 2);
    assert_eq!(u16_at(&buf, 34), 16);
    assert_eq!(u32_at(&buf, 40), 2000);
}

#[test]
fn empty_wav_bytes_valid() {
    let buf = encode_wav_mono(&[], 48_000).unwrap();
    assert_eq!(buf.len(), WAV_HEADER_LEN);
    assert_eq!(u32_at(&buf, 40), 0);
    assert_eq!(u32_at(&buf, 4), 36);
}

#[test]
fn stereo_interleaves_left_then_right() {
    let buf = encode_wav_stereo(&[1, 2, 3], &[-1, -2, -3], 8_000).unwrap();
    let frames: Vec<i16> = (44..buf.len()).step_by(2).map(|o| i16_at(&buf, o)).collect();
    assert_eq!(frames, vec![1, -1, 2, -2, 3, -3]);
}

#[test]
fn header_too_large_errors() {
    let err = WavHeader::pcm16(1, 48_000, 3_000_000_000).unwrap_err();
    assert_eq!(
        err.message(),
        "computation error: WAV data too large for 32-bit header"
    );
    let ok = WavHeader::pcm16(1, 48_000, 2_000_000_000).unwrap();
    assert_eq!(ok.data_size, 4_000_000_000);
    assert_eq!(ok.file_size, 4_000_000_036);
}

#[test]
fn header_fields_computed() {
    let h = WavHeader::pcm16(2, 48_000, 10).unwrap();
    assert_eq!(
        h,
        WavHeader {
            file_size: 76,
            num_channels: 2,
            sample_rate: 48_000,
            byte_rate: 192_000,
            block_align: 4,
            bits_per_sample: 16,
            data_size: 40,
        }
    );
}

#[test]
fn write_wav_header_appends_44_bytes() {
    let h = WavHeader::pcm16(1, 22_050, 3).unwrap();
    let mut out = vec![9_u8, 9];
    write_wav_header(&mut out, &h);
    assert_eq!(out.len(), 46);
    assert_eq!(&out[0..2], &[9, 9]);
    assert_eq!(&out[2..6], b"RIFF");
    assert_eq!(u32_at(&out, 2 + 24), 22_050);
}

#[test]
fn pcm_writers_append() {
    let mut out = Vec::new();
    write_pcm16(&mut out, &[256, -256]);
    assert_eq!(out, vec![0x00, 0x01, 0x00, 0xff]);
    write_pcm16_interleaved(&mut out, &[1], &[2]);
    assert_eq!(out, vec![0x00, 0x01, 0x00, 0xff, 0x01, 0x00, 0x02, 0x00]);
}
