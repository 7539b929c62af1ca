use game_prototypes::leitmotif::synth::{wav, HEADER_LEN, SAMPLE_RATE};

fn u32_at(bytes: &[u8], offset: usize) -> u32 {
    u32::from_le_bytes(bytes[offset..offset + 4].try_into().unwrap())
}

/// Pull the samples back out of a WAV the way a decoder would.
fn decode(bytes: &[u8]) -> Vec<i16> {
    bytes[44..]
        .chunks_exact(2)
        .map(|pair| i16::from_le_bytes([pair[0], pair[1]]))
        .collect()
}

#[test]
fn header_is_a_well_formed_wav() {
    for samples in [vec![], vec![0_i16], vec![1, -1, i16::MAX, i16::MIN, 12345]] {
        let bytes = wav(&samples);
        let name = format!("{} samples", samples.len());
        assert_eq!(&bytes[0..4], b"RIFF", "{name}");
        assert_eq!(&bytes[8..12], b"WAVE", "{name}");
        assert_eq!(&bytes[12..16], b"fmt ", "{name}");
        assert_eq!(&bytes[36..40], b"data", "{name}");

        let data_len = u32_at(&bytes, 40) as usize;
        assert_eq!(data_len, bytes.len() - HEADER_LEN, "{name} data size");
        assert_eq!(u32_at(&bytes, 4) as usize, bytes.len() - 8, "{name} riff size");
        assert_eq!(data_len % 2, 0, "{name} truncated 16-bit sample");
        assert_eq!(u32_at(&bytes, 24), SAMPLE_RATE, "{name} sample rate");
        assert_eq!(u32_at(&bytes, 28), SAMPLE_RATE * 2, "{name} byte rate");
        assert_eq!(decode(&bytes), samples, "{name} samples");
    }
}

#[test]
fn wav_exact_bytes() {
    let bytes = wav(&[0x0102, -2]);
    assert_eq!(bytes.len(), 48);
    assert_eq!(&bytes[4..8], &[40, 0, 0, 0]);
    assert_eq!(&bytes[16..24], &[16, 0, 0, 0, 1, 0, 1, 0]);
    assert_eq!(&bytes[32..36], &[2, 0, 16, 0]);
    assert_eq!(&bytes[40..48], &[4, 0, 0, 0, 0x02, 0x01, 0xFE, 0xFF]);
}
