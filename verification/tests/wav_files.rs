use ch_rzl::wav::{
    decode_wav_pcm16_stereo, encode_wav_pcm16_stereo, wav_duration_terms, wave_has_cut_fmt_chunk,
    DurationTerms, WavError,
};

fn le32(v: u32) -> [u8; 4] {
    v.to_le_bytes()
}

#[test]
fn encode_writes_canonical_header() {
    let bytes = encode_wav_pcm16_stereo(44100, &[1, -1, 256, -32768]);
    assert_eq!(bytes.len(), 44 + 8);
    assert_eq!(&bytes[0..4], b"RIFF");
    assert_eq!(&bytes[4..8], &le32(36 + 8));
    assert_eq!(&bytes[8..12], b"WAVE");
    assert_eq!(&bytes[12..16], b"fmt ");
    assert_eq!(&bytes[16..20], &le32(16));
    assert_eq!(&bytes[20..22], &[1, 0]);
    assert_eq!(&bytes[22..24], &[2, 0]);
    assert_eq!(&bytes[24..28], &le32(44100));
    assert_eq!(&bytes[28..32], &le32(176400));
    assert_eq!(&bytes[32..34], &[4, 0]);
    assert_eq!(&bytes[34..36], &[16, 0]);
    assert_eq!(&bytes[36..40], b"data");
    assert_eq!(&bytes[40..44], &le32(8));
    assert_eq!(&bytes[44..], &[1, 0, 0xff, 0xff, 0, 1, 0, 0x80]);
}

#[test]
fn encode_empty_sample_list() {
    let bytes = encode_wav_pcm16_stereo(8000, &[]);
    assert_eq!(bytes.len(), 44);
    assert_eq!(&bytes[40..44], &le32(0));
    assert_eq!(&bytes[4..8], &le32(36));
}

#[test]
fn decode_of_encode_gives_samples_back() {
    let samples: Vec<i16> = vec![0, 1, -1, 12345, -12345, i16::MAX, i16::MIN, 7];
    let bytes = encode_wav_pcm16_stereo(48000, &samples);
    let pcm = decode_wav_pcm16_stereo(&bytes).expect("decodes");
    assert_eq!(pcm.sample_rate, 48000);
    assert_eq!(pcm.samples, samples);
}

#[test]
fn decode_rejects_non_wave() {
    assert_eq!(decode_wav_pcm16_stereo(&[0u8; 10]).unwrap_err(), WavError::NotWave);
    let mut bytes = encode_wav_pcm16_stereo(44100, &[1, 2]);
    bytes[8] = b'X';
    assert_eq!(decode_wav_pcm16_stereo(&bytes).unwrap_err(), WavError::NotWave);
    let short = &encode_wav_pcm16_stereo(44100, &[])[..43];
    assert_eq!(decode_wav_pcm16_stereo(short).unwrap_err(), WavError::NotWave);
}

#[test]
fn decode_reports_unsupported_format() {
    let mut bytes = encode_wav_pcm16_stereo(22050, &[5, 6, 7, 8]);
    bytes[22] = 1; // mono
    assert_eq!(
        decode_wav_pcm16_stereo(&bytes).unwrap_err(),
        WavError::Unsupported {
            audio_format: 1,
            channels: 1,
            bits_per_sample: 16,
            sample_rate: 22050,
            data_len: 8,
        }
    );
}

#[test]
fn decode_reports_empty_data_as_unsupported() {
    let bytes = encode_wav_pcm16_stereo(44100, &[]);
    assert_eq!(
        decode_wav_pcm16_stereo(&bytes).unwrap_err(),
        WavError::Unsupported {
            audio_format: 1,
            channels: 2,
            bits_per_sample: 16,
            sample_rate: 44100,
            data_len: 0,
        }
    );
}

fn file_with_list_chunk() -> Vec<u8> {
    let mut b: Vec<u8> = Vec::new();
    b.extend_from_slice(b"RIFF");
    b.extend_from_slice(&le32(52));
    b.extend_from_slice(b"WAVE");
    b.extend_from_slice(b"fmt ");
    b.extend_from_slice(&le32(16));
    b.extend_from_slice(&[1, 0, 2, 0]);
    b.extend_from_slice(&le32(32000));
    b.extend_from_slice(&le32(128000));
    b.extend_from_slice(&[4, 0, 16, 0]);
    // an odd-sized chunk is padded to an even length
    b.extend_from_slice(b"LIST");
    b.extend_from_slice(&le32(3));
    b.extend_from_slice(&[9, 9, 9, 0]);
    b.extend_from_slice(b"data");
    b.extend_from_slice(&le32(4));
    b.extend_from_slice(&[0x10, 0x00, 0xf0, 0xff]);
    b
}

#[test]
fn decode_skips_other_chunks() {
    let b = file_with_list_chunk();
    assert_eq!(b.len(), 60);
    let pcm = decode_wav_pcm16_stereo(&b).expect("decodes");
    assert_eq!(pcm.sample_rate, 32000);
    assert_eq!(pcm.samples, vec![16, -16]);
}

#[test]
fn decode_cuts_data_at_end_of_file() {
    let mut b = file_with_list_chunk();
    // declare more data than the file holds, and leave an odd byte
    let at = 52;
    b[at..at + 4].copy_from_slice(&le32(1000));
    b.push(0x01);
    let pcm = decode_wav_pcm16_stereo(&b).expect("decodes");
    assert_eq!(pcm.samples, vec![16, -16]);
}

#[test]
fn duration_terms_of_encoded_file() {
    let bytes = encode_wav_pcm16_stereo(44100, &[0; 10]);
    assert_eq!(
        wav_duration_terms(&bytes),
        DurationTerms::ByteRate { data_size: 20, byte_rate: 176400 }
    );
}

#[test]
fn duration_terms_fall_back() {
    let mut b = file_with_list_chunk();
    // byte rate 0: block align and sample rate
    b[28..32].copy_from_slice(&le32(0));
    assert_eq!(
        wav_duration_terms(&b),
        DurationTerms::BlockAlign { data_size: 4, block_align: 4, sample_rate: 32000 }
    );
    // block align 0 too: bits per sample
    b[32] = 0;
    assert_eq!(
        wav_duration_terms(&b),
        DurationTerms::BitsPerSample { data_size: 4, bits_per_sample: 16, sample_rate: 32000 }
    );
    // no bits per sample either
    b[34] = 0;
    assert_eq!(wav_duration_terms(&b), DurationTerms::Unknown);
}

#[test]
fn duration_terms_unknown_without_header_or_data() {
    assert_eq!(wav_duration_terms(b"not a wave file at all"), DurationTerms::Unknown);
    let empty = encode_wav_pcm16_stereo(44100, &[]);
    assert_eq!(wav_duration_terms(&empty), DurationTerms::Unknown);
}

#[test]
fn cut_fmt_chunk_is_detected() {
    let mut b: Vec<u8> = Vec::new();
    b.extend_from_slice(b"RIFF");
    b.extend_from_slice(&le32(40));
    b.extend_from_slice(b"WAVE");
    b.extend_from_slice(b"JUNK");
    b.extend_from_slice(&le32(20));
    b.extend_from_slice(&[0u8; 20]);
    b.extend_from_slice(b"fmt ");
    b.extend_from_slice(&le32(16));
    assert_eq!(b.len(), 48);
    assert!(wave_has_cut_fmt_chunk(&b));
    assert!(!wave_has_cut_fmt_chunk(&file_with_list_chunk()));
    assert!(!wave_has_cut_fmt_chunk(&encode_wav_pcm16_stereo(44100, &[1, 2, 3])));
    assert!(!wave_has_cut_fmt_chunk(&[1, 2, 3]));
}
