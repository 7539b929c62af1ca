//! WAV framing for the procedural instruments.
//!
//! Every voice is generated at startup, so the toy ships no audio assets.
//! The waveforms themselves are rendered by the frontend; this module is
//! the part both decoders depend on: the 44-byte header of an uncompressed
//! mono 16-bit WAV and the little-endian samples behind it. On the web a
//! malformed header does not fail loudly, it hangs the loader, so the
//! layout is stated exactly and proved.

use vstd::prelude::*;

verus! {

/// Sample rate of every buffer. The native mixer runs at 44.1 kHz and
/// resamples anything else on load; matching it means that never happens.
pub const SAMPLE_RATE: u32 = 44100;

/// Bytes before the first sample.
pub const HEADER_LEN: usize = 44;

/// A 16-bit value as two little-endian bytes.
pub open spec fn le16(value: u16) -> Seq<u8> {
    seq![(value % 256) as u8, (value / 256) as u8]
}

/// A 32-bit value as four little-endian bytes.
pub open spec fn le32(value: u32) -> Seq<u8> {
    seq![
        (value % 256) as u8,
        ((value / 256) % 256) as u8,
        ((value / 65536) % 256) as u8,
        (value / 16777216) as u8,
    ]
}

/// The little-endian 16-bit value at `at`.
pub open spec fn read16(bytes: Seq<u8>, at: int) -> int {
    bytes[at] + 256 * bytes[at + 1]
}

/// The little-endian 32-bit value at `at`.
pub open spec fn read32(bytes: Seq<u8>, at: int) -> int {
    bytes[at] + 256 * bytes[at + 1] + 65536 * bytes[at + 2] + 16777216 * bytes[at + 3]
}

/// Samples as consecutive little-endian two's-complement pairs.
pub open spec fn pcm(samples: Seq<i16>) -> Seq<u8>
    decreases samples.len(),
{
    if samples.len() == 0 {
        seq![]
    } else {
        pcm(samples.drop_last()) + le16(samples.last() as u16)
    }
}

/// The header of a mono 16-bit WAV holding `count` samples: the RIFF
/// chunk, whose size counts everything after its size field; the format
/// chunk for uncompressed mono PCM at [`SAMPLE_RATE`]; and the data chunk's
/// own header.
pub open spec fn wav_header(count: nat) -> Seq<u8> {
    let data_len = (2 * count) as u32;
    seq![0x52u8, 0x49, 0x46, 0x46] + le32((36 + 2 * count) as u32) + seq![0x57u8, 0x41, 0x56, 0x45]
        + seq![0x66u8, 0x6d, 0x74, 0x20] + le32(16) + le16(1) + le16(1) + le32(SAMPLE_RATE) + le32(
        88200u32,
    ) + le16(2) + le16(16) + seq![0x64u8, 0x61, 0x74, 0x61] + le32(data_len)
}

/// Append a 16-bit value, little-endian.
fn push16(out: &mut Vec<u8>, value: u16)
    ensures
        final(out)@ == old(out)@ + le16(value),
{
    out.push((value % 256) as u8);
    out.push((value / 256) as u8);
    proof {
        assert(final(out)@ =~= old(out)@ + le16(value));
    }
}

/// Append a 32-bit value, little-endian.
fn push32(out: &mut Vec<u8>, value: u32)
    ensures
        final(out)@ == old(out)@ + le32(value),
{
    out.push((value % 256) as u8);
    out.push(((value / 256) % 256) as u8);
    out.push(((value / 65536) % 256) as u8);
    out.push((value / 16777216) as u8);
    proof {
        assert(final(out)@ =~= old(out)@ + le32(value));
    }
}

/// Append four bytes.
fn push4(out: &mut Vec<u8>, a: u8, b: u8, c: u8, d: u8)
    ensures
        final(out)@ == old(out)@ + seq![a, b, c, d],
{
    out.push(a);
    out.push(b);
    out.push(c);
    out.push(d);
    proof {
        assert(final(out)@ =~= old(out)@ + seq![a, b, c, d]);
    }
}

/// Little-endian bytes read back give the value written.
proof fn lemma_le32_reads_back(value: u32)
    ensures
        read32(le32(value), 0) == value,
{
    assert(read32(le32(value), 0) == value) by (nonlinear_arith);
}

/// Little-endian bytes read back give the value written.
proof fn lemma_le16_reads_back(value: u16)
    ensures
        read16(le16(value), 0) == value,
{
}

/// Samples framed as PCM come back out of it, each from its own pair of
/// bytes.
proof fn lemma_pcm_reads_back(samples: Seq<i16>, i: int)
    requires
        0 <= i < samples.len(),
    ensures
        pcm(samples).len() == 2 * samples.len(),
        read16(pcm(samples), 2 * i) == samples[i] as u16,
    decreases samples.len(),
{
    lemma_pcm_len(samples);
    let rest = samples.drop_last();
    if i < rest.len() {
        lemma_pcm_reads_back(rest, i);
        lemma_pcm_len(rest);
        assert(pcm(samples)[2 * i] == pcm(rest)[2 * i]);
        assert(pcm(samples)[2 * i + 1] == pcm(rest)[2 * i + 1]);
    } else {
        lemma_pcm_len(rest);
        lemma_le16_reads_back(samples.last() as u16);
        assert(pcm(samples)[2 * i] == le16(samples.last() as u16)[0]);
        assert(pcm(samples)[2 * i + 1] == le16(samples.last() as u16)[1]);
    }
}

/// Two bytes per sample.
proof fn lemma_pcm_len(samples: Seq<i16>)
    ensures
        pcm(samples).len() == 2 * samples.len(),
    decreases samples.len(),
{
    if samples.len() > 0 {
        lemma_pcm_len(samples.drop_last());
    }
}

/// Wrap mono 16-bit PCM samples as a WAV: the header for that many
/// samples, then the samples. Read back, the header says what follows it:
/// the RIFF size is everything after its own field, the data size is
/// everything after the header, and every sample is where it belongs.
pub fn wav(samples: &[i16]) -> (bytes: Vec<u8>)
    requires
        36 + 2 * samples@.len() <= u32::MAX,
    ensures
        bytes@ == wav_header(samples@.len()) + pcm(samples@),
        bytes@.len() == HEADER_LEN + 2 * samples@.len(),
        bytes@.subrange(0, 4) == seq![0x52u8, 0x49, 0x46, 0x46],
        bytes@.subrange(8, 12) == seq![0x57u8, 0x41, 0x56, 0x45],
        bytes@.subrange(12, 16) == seq![0x66u8, 0x6d, 0x74, 0x20],
        bytes@.subrange(36, 40) == seq![0x64u8, 0x61, 0x74, 0x61],
        read32(bytes@, 4) == bytes@.len() - 8,
        read32(bytes@, 24) == SAMPLE_RATE,
        read16(bytes@, 22) == 1,
        read16(bytes@, 34) == 16,
        read32(bytes@, 40) == bytes@.len() - HEADER_LEN,
        forall|i: int|
            0 <= i < samples@.len() ==> read16(bytes@, HEADER_LEN + 2 * i) == #[trigger] samples@[i] as u16,
{
    let count = samples.len();
    let data_len = (count * 2) as u32;
    let mut out: Vec<u8> = Vec::new();
    push4(&mut out, 0x52, 0x49, 0x46, 0x46);
    push32(&mut out, 36 + data_len);
    push4(&mut out, 0x57, 0x41, 0x56, 0x45);
    push4(&mut out, 0x66, 0x6d, 0x74, 0x20);
    push32(&mut out, 16);
    push16(&mut out, 1);
    push16(&mut out, 1);
    push32(&mut out, SAMPLE_RATE);
    push32(&mut out, SAMPLE_RATE * 2);
    push16(&mut out, 2);
    push16(&mut out, 16);
    push4(&mut out, 0x64, 0x61, 0x74, 0x61);
    push32(&mut out, data_len);
    let ghost header = out@;
    proof {
        assert(header =~= wav_header(count as nat));
    }
    let mut i: usize = 0;
    while i < count
        invariant
            i <= count,
            count == samples@.len(),
            out@ == header + pcm(samples@.take(i as int)),
        decreases count - i,
    {
        proof {
            assert(samples@.take(i + 1).drop_last() == samples@.take(i as int));
        }
        push16(&mut out, samples[i] as u16);
        proof {
            assert(out@ =~= header + pcm(samples@.take(i + 1)));
        }
        i = i + 1;
    }
    proof {
        assert(samples@.take(i as int) == samples@);
        lemma_pcm_len(samples@);
        let bytes = out@;
        let data = pcm(samples@);
        assert(header.len() == 44);
        lemma_le32_reads_back((36 + 2 * count) as u32);
        lemma_le32_reads_back(SAMPLE_RATE);
        lemma_le32_reads_back(data_len);
        lemma_le16_reads_back(1);
        lemma_le16_reads_back(16);
        assert(bytes.subrange(4, 8) == le32((36 + 2 * count) as u32));
        assert(read32(bytes, 4) == read32(le32((36 + 2 * count) as u32), 0));
        assert(bytes.subrange(24, 28) == le32(SAMPLE_RATE));
        assert(read32(bytes, 24) == read32(le32(SAMPLE_RATE), 0));
        assert(read16(bytes, 22) == read16(le16(1), 0));
        assert(read16(bytes, 34) == read16(le16(16), 0));
        assert(bytes.subrange(40, 44) == le32(data_len));
        assert(read32(bytes, 40) == read32(le32(data_len), 0));
        assert forall|k: int| 0 <= k < samples@.len() implies read16(bytes, HEADER_LEN + 2 * k)
            == #[trigger] samples@[k] as u16 by {
            lemma_pcm_reads_back(samples@, k);
            assert(bytes[HEADER_LEN + 2 * k] == data[2 * k]);
            assert(bytes[HEADER_LEN + 2 * k + 1] == data[2 * k + 1]);
        }
        assert(bytes.subrange(0, 4) =~= seq![0x52u8, 0x49, 0x46, 0x46]);
        assert(bytes.subrange(8, 12) =~= seq![0x57u8, 0x41, 0x56, 0x45]);
        assert(bytes.subrange(12, 16) =~= seq![0x66u8, 0x6d, 0x74, 0x20]);
        assert(bytes.subrange(36, 40) =~= seq![0x64u8, 0x61, 0x74, 0x61]);
    }
    out
}

} // verus!
