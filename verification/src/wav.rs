//! RIFF/WAVE handling for 16-bit PCM stereo audio: scanning the chunk list,
//! decoding the sample data, encoding a canonical file, and choosing how a
//! file's duration can be estimated from its header.
use vstd::prelude::*;

verus! {

// ---------------------------------------------------------------------------
// Byte-level model
// ---------------------------------------------------------------------------

/// Little-endian unsigned 16-bit value stored at `b[i..i + 2]`.
pub open spec fn le_u16_at(b: Seq<u8>, i: int) -> int {
    b[i] as int + 256 * (b[i + 1] as int)
}

/// Little-endian unsigned 32-bit value stored at `b[i..i + 4]`.
pub open spec fn le_u32_at(b: Seq<u8>, i: int) -> int {
    b[i] as int + 256 * (b[i + 1] as int) + 65536 * (b[i + 2] as int) + 16777216 * (b[i + 3] as int)
}

/// Little-endian two's-complement 16-bit value stored at `b[i..i + 2]`.
pub open spec fn le_i16_at(b: Seq<u8>, i: int) -> int {
    if b[i + 1] < 128 {
        le_u16_at(b, i)
    } else {
        le_u16_at(b, i) - 65536
    }
}

/// The four bytes at `b[i..i + 4]` spell the tag `t`.
pub open spec fn tag_at(b: Seq<u8>, i: int, t: Seq<u8>) -> bool {
    &&& t.len() == 4
    &&& 0 <= i
    &&& i + 4 <= b.len()
    &&& b[i] == t[0]
    &&& b[i + 1] == t[1]
    &&& b[i + 2] == t[2]
    &&& b[i + 3] == t[3]
}

pub open spec fn riff_tag() -> Seq<u8> {
    seq![0x52u8, 0x49u8, 0x46u8, 0x46u8]
}

pub open spec fn wave_tag() -> Seq<u8> {
    seq![0x57u8, 0x41u8, 0x56u8, 0x45u8]
}

pub open spec fn fmt_tag() -> Seq<u8> {
    seq![0x66u8, 0x6du8, 0x74u8, 0x20u8]
}

pub open spec fn data_tag() -> Seq<u8> {
    seq![0x64u8, 0x61u8, 0x74u8, 0x61u8]
}

/// At least a canonical header's 44 bytes, starting with `RIFF....WAVE`.
pub open spec fn has_wave_header(b: Seq<u8>) -> bool {
    &&& b.len() >= 44
    &&& tag_at(b, 0, riff_tag())
    &&& tag_at(b, 8, wave_tag())
}

/// The header fields gathered while walking the chunk list. Later chunks
/// overwrite what earlier chunks of the same kind recorded.
#[derive(Clone, Copy, Debug, PartialEq, Eq, Structural)]
pub struct WavFields {
    pub audio_format: u16,
    pub channels: u16,
    pub sample_rate: u32,
    pub byte_rate: u32,
    pub block_align: u16,
    pub bits_per_sample: u16,
    /// Offset of the last `data` chunk's payload.
    pub data_start: usize,
    /// Length of that payload, cut at the end of the file.
    pub data_len: usize,
    /// The size that chunk declares, whether or not the file holds it all.
    pub data_size: u32,
}

pub open spec fn no_fields() -> WavFields {
    WavFields {
        audio_format: 0,
        channels: 0,
        sample_rate: 0,
        byte_rate: 0,
        block_align: 0,
        bits_per_sample: 0,
        data_start: 0,
        data_len: 0,
        data_size: 0,
    }
}

/// The declared size of the chunk whose header starts at `offset`.
pub open spec fn chunk_size_at(b: Seq<u8>, offset: int) -> int {
    le_u32_at(b, offset + 4)
}

/// Where the chunk list continues after the chunk at `offset` (payloads are
/// padded to an even length).
pub open spec fn next_chunk(b: Seq<u8>, offset: int) -> int {
    let size = chunk_size_at(b, offset);
    offset + 8 + size + size % 2
}

/// A `fmt ` chunk large enough to hold the PCM format block.
pub open spec fn is_fmt_chunk(b: Seq<u8>, offset: int) -> bool {
    tag_at(b, offset, fmt_tag()) && chunk_size_at(b, offset) >= 16
}

pub open spec fn with_fmt(b: Seq<u8>, start: int, acc: WavFields) -> WavFields {
    WavFields {
        audio_format: le_u16_at(b, start) as u16,
        channels: le_u16_at(b, start + 2) as u16,
        sample_rate: le_u32_at(b, start + 4) as u32,
        byte_rate: le_u32_at(b, start + 8) as u32,
        block_align: le_u16_at(b, start + 12) as u16,
        bits_per_sample: le_u16_at(b, start + 14) as u16,
        data_start: acc.data_start,
        data_len: acc.data_len,
        data_size: acc.data_size,
    }
}

pub open spec fn with_data(b: Seq<u8>, offset: int, acc: WavFields) -> WavFields {
    let start = offset + 8;
    let size = chunk_size_at(b, offset);
    let end = if start + size <= b.len() {
        start + size
    } else {
        b.len() as int
    };
    WavFields {
        audio_format: acc.audio_format,
        channels: acc.channels,
        sample_rate: acc.sample_rate,
        byte_rate: acc.byte_rate,
        block_align: acc.block_align,
        bits_per_sample: acc.bits_per_sample,
        data_start: start as usize,
        data_len: (end - start) as usize,
        data_size: size as u32,
    }
}

/// What one chunk contributes to the gathered fields.
pub open spec fn step_fields(b: Seq<u8>, offset: int, acc: WavFields) -> WavFields {
    if is_fmt_chunk(b, offset) {
        with_fmt(b, offset + 8, acc)
    } else if tag_at(b, offset, data_tag()) {
        with_data(b, offset, acc)
    } else {
        acc
    }
}

/// How much of the buffer lies at or after `offset`, plus one.
pub open spec fn remaining(b: Seq<u8>, offset: int) -> nat {
    if offset <= b.len() {
        (b.len() - offset + 1) as nat
    } else {
        0
    }
}

/// Walks the chunk list from `offset` for as long as a full chunk header fits.
pub open spec fn scan_chunks(b: Seq<u8>, offset: int, acc: WavFields) -> WavFields
    decreases remaining(b, offset),
{
    if offset < 0 || offset + 8 > b.len() {
        acc
    } else {
        scan_chunks(b, next_chunk(b, offset), step_fields(b, offset, acc))
    }
}

/// The walk from `offset` meets a `fmt ` chunk whose 16-byte format block runs
/// past the end of the file.
pub open spec fn meets_cut_fmt_chunk(b: Seq<u8>, offset: int) -> bool
    decreases remaining(b, offset),
{
    if offset < 0 || offset + 8 > b.len() {
        false
    } else if is_fmt_chunk(b, offset) && offset + 8 + 16 > b.len() {
        true
    } else {
        meets_cut_fmt_chunk(b, next_chunk(b, offset))
    }
}

/// Reading a file with a `RIFF/WAVE` header and a cut `fmt ` chunk indexes
/// past its end; such files are outside what the readers here accept.
pub open spec fn readable_wave(b: Seq<u8>) -> bool {
    has_wave_header(b) ==> !meets_cut_fmt_chunk(b, 12)
}

/// The fields of a file with a `RIFF/WAVE` header.
pub open spec fn wave_fields(b: Seq<u8>) -> WavFields {
    scan_chunks(b, 12, no_fields())
}

/// The data payload lies inside the file.
pub open spec fn fields_fit(f: WavFields, len: int) -> bool {
    f.data_start as int + f.data_len as int <= len
}

proof fn lemma_scan_fits(b: Seq<u8>, offset: int, acc: WavFields)
    requires
        fields_fit(acc, b.len() as int),
    ensures
        fields_fit(scan_chunks(b, offset, acc), b.len() as int),
    decreases remaining(b, offset),
{
    if offset < 0 || offset + 8 > b.len() {
    } else {
        lemma_scan_fits(b, next_chunk(b, offset), step_fields(b, offset, acc));
    }
}

// ---------------------------------------------------------------------------
// Executable readers
// ---------------------------------------------------------------------------

fn read_le_u16(data: &[u8], i: usize) -> (v: u16)
    requires
        i + 2 <= data@.len(),
    ensures
        v as int == le_u16_at(data@, i as int),
{
    data[i] as u16 + 256 * (data[i + 1] as u16)
}

fn read_le_u32(data: &[u8], i: usize) -> (v: u32)
    requires
        i + 4 <= data@.len(),
    ensures
        v as int == le_u32_at(data@, i as int),
{
    data[i] as u32 + 256 * (data[i + 1] as u32) + 65536 * (data[i + 2] as u32) + 16777216 * (
    data[i + 3] as u32)
}

fn read_le_i16(data: &[u8], i: usize) -> (v: i16)
    requires
        i + 2 <= data@.len(),
    ensures
        v as int == le_i16_at(data@, i as int),
{
    let u: i32 = data[i] as i32 + 256 * (data[i + 1] as i32);
    if data[i + 1] < 128 {
        u as i16
    } else {
        (u - 65536) as i16
    }
}

fn has_tag(data: &[u8], i: usize, t0: u8, t1: u8, t2: u8, t3: u8) -> (r: bool)
    requires
        i + 4 <= data@.len(),
    ensures
        r == tag_at(data@, i as int, seq![t0, t1, t2, t3]),
{
    data[i] == t0 && data[i + 1] == t1 && data[i + 2] == t2 && data[i + 3] == t3
}

fn header_ok(data: &[u8]) -> (r: bool)
    ensures
        r == has_wave_header(data@),
{
    if data.len() < 44 {
        return false;
    }
    let riff = has_tag(data, 0, 0x52, 0x49, 0x46, 0x46);
    let wave = has_tag(data, 8, 0x57, 0x41, 0x56, 0x45);
    assert(seq![0x52u8, 0x49u8, 0x46u8, 0x46u8] =~= riff_tag());
    assert(seq![0x57u8, 0x41u8, 0x56u8, 0x45u8] =~= wave_tag());
    riff && wave
}

/// Walks the chunk list of a file whose header has been checked.
fn scan_wav_chunks(data: &[u8]) -> (f: WavFields)
    requires
        data@.len() >= 12,
        !meets_cut_fmt_chunk(data@, 12),
    ensures
        f == wave_fields(data@),
        fields_fit(f, data@.len() as int),
{
    let len: u128 = data.len() as u128;
    let mut offset: u128 = 12;
    let mut f = WavFields {
        audio_format: 0,
        channels: 0,
        sample_rate: 0,
        byte_rate: 0,
        block_align: 0,
        bits_per_sample: 0,
        data_start: 0,
        data_len: 0,
        data_size: 0,
    };
    assert(seq![0x66u8, 0x6du8, 0x74u8, 0x20u8] =~= fmt_tag());
    assert(seq![0x64u8, 0x61u8, 0x74u8, 0x61u8] =~= data_tag());
    while offset + 8 <= len
        invariant
            len == data@.len(),
            len <= usize::MAX,
            12 <= offset <= len + 0x1_0000_0010,
            scan_chunks(data@, offset as int, f) == wave_fields(data@),
            !meets_cut_fmt_chunk(data@, offset as int),
            fields_fit(f, len as int),
        decreases remaining(data@, offset as int),
    {
        let o = offset as usize;
        let size = read_le_u32(data, o + 4);
        let start = o + 8;
        if has_tag(data, o, 0x66, 0x6d, 0x74, 0x20) && size >= 16 {
            f = WavFields {
                audio_format: read_le_u16(data, start),
                channels: read_le_u16(data, start + 2),
                sample_rate: read_le_u32(data, start + 4),
                byte_rate: read_le_u32(data, start + 8),
                block_align: read_le_u16(data, start + 12),
                bits_per_sample: read_le_u16(data, start + 14),
                data_start: f.data_start,
                data_len: f.data_len,
                data_size: f.data_size,
            };
        } else if has_tag(data, o, 0x64, 0x61, 0x74, 0x61) {
            let end: usize = if (start as u128) + (size as u128) <= len {
                start + size as usize
            } else {
                data.len()
            };
            f = WavFields {
                audio_format: f.audio_format,
                channels: f.channels,
                sample_rate: f.sample_rate,
                byte_rate: f.byte_rate,
                block_align: f.block_align,
                bits_per_sample: f.bits_per_sample,
                data_start: start,
                data_len: end - start,
                data_size: size,
            };
        }
        offset = offset + 8 + size as u128 + (size % 2) as u128;
    }
    f
}

// ---------------------------------------------------------------------------
// Encoding
// ---------------------------------------------------------------------------

pub open spec fn byte0(v: int) -> u8 {
    (v % 256) as u8
}

pub open spec fn byte1(v: int) -> u8 {
    ((v / 256) % 256) as u8
}

pub open spec fn byte2(v: int) -> u8 {
    ((v / 65536) % 256) as u8
}

pub open spec fn byte3(v: int) -> u8 {
    ((v / 16777216) % 256) as u8
}

/// The 16-bit pattern of a sample, as an unsigned value.
pub open spec fn sample_bits(s: i16) -> int {
    if s < 0 {
        s as int + 65536
    } else {
        s as int
    }
}

/// The samples as little-endian bytes, two per sample.
#[verifier::opaque]
pub open spec fn sample_bytes(ss: Seq<i16>) -> Seq<u8> {
    Seq::new(
        2 * ss.len(),
        |j: int|
            if j % 2 == 0 {
                byte0(sample_bits(ss[j / 2]))
            } else {
                byte1(sample_bits(ss[j / 2]))
            },
    )
}

/// The data chunk's declared size: the byte count of `n` samples, as the
/// 32-bit field holds it.
pub open spec fn data_field(n: int) -> int {
    (2 * n) % 0x1_0000_0000
}

/// The RIFF size field: 36 plus the data size, saturating at `u32::MAX`.
pub open spec fn riff_field(n: int) -> int {
    if 36 + data_field(n) <= u32::MAX {
        36 + data_field(n)
    } else {
        u32::MAX as int
    }
}

/// The canonical 44-byte header of a 16-bit PCM stereo file holding `n` samples.
#[verifier::opaque]
pub open spec fn wav_header(sample_rate: int, n: int) -> Seq<u8> {
    let riff = riff_field(n);
    let byte_rate = sample_rate * 4;
    let data = data_field(n);
    seq![
        0x52u8, 0x49u8, 0x46u8, 0x46u8,
        byte0(riff), byte1(riff), byte2(riff), byte3(riff),
        0x57u8, 0x41u8, 0x56u8, 0x45u8,
        0x66u8, 0x6du8, 0x74u8, 0x20u8,
        16u8, 0u8, 0u8, 0u8,
        1u8, 0u8,
        2u8, 0u8,
        byte0(sample_rate), byte1(sample_rate), byte2(sample_rate), byte3(sample_rate),
        byte0(byte_rate), byte1(byte_rate), byte2(byte_rate), byte3(byte_rate),
        4u8, 0u8,
        16u8, 0u8,
        0x64u8, 0x61u8, 0x74u8, 0x61u8,
        byte0(data), byte1(data), byte2(data), byte3(data),
    ]
}

/// A whole 16-bit PCM stereo file: header, then the samples.
pub open spec fn wav_bytes(sample_rate: int, ss: Seq<i16>) -> Seq<u8> {
    wav_header(sample_rate, ss.len() as int) + sample_bytes(ss)
}

proof fn lemma_sample_bytes_at(ss: Seq<i16>, k: int)
    requires
        0 <= k < ss.len(),
    ensures
        sample_bytes(ss).len() == 2 * ss.len(),
        sample_bytes(ss)[2 * k] == byte0(sample_bits(ss[k])),
        sample_bytes(ss)[2 * k + 1] == byte1(sample_bits(ss[k])),
{
    reveal(sample_bytes);
    assert((2 * k) % 2 == 0 && (2 * k) / 2 == k);
    assert((2 * k + 1) % 2 == 1 && (2 * k + 1) / 2 == k);
}

fn push_le_u32(out: &mut Vec<u8>, v: u32)
    ensures
        final(out)@ == old(out)@ + seq![byte0(v as int), byte1(v as int), byte2(v as int), byte3(v as int)],
{
    out.push((v % 256) as u8);
    out.push(((v / 256) % 256) as u8);
    out.push(((v / 65536) % 256) as u8);
    out.push(((v / 16777216) % 256) as u8);
}

fn push_bytes4(out: &mut Vec<u8>, a: u8, b: u8, c: u8, d: u8)
    ensures
        final(out)@ == old(out)@ + seq![a, b, c, d],
{
    out.push(a);
    out.push(b);
    out.push(c);
    out.push(d);
}

fn header_bytes(sample_rate: u32, n: usize) -> (out: Vec<u8>)
    requires
        sample_rate as int * 32 <= u32::MAX,
        n * 2 <= usize::MAX,
    ensures
        out@ == wav_header(sample_rate as int, n as int),
        out@.len() == 44,
{
    let total: u64 = n as u64 * 2;
    let data_len: u32 = (total % 0x1_0000_0000) as u32;
    let riff_len: u32 = if data_len > u32::MAX - 36 {
        u32::MAX
    } else {
        36 + data_len
    };
    let byte_rate: u32 = sample_rate * 2 * 16 / 8;
    let mut out: Vec<u8> = Vec::new();
    push_bytes4(&mut out, 0x52, 0x49, 0x46, 0x46);
    push_le_u32(&mut out, riff_len);
    push_bytes4(&mut out, 0x57, 0x41, 0x56, 0x45);
    push_bytes4(&mut out, 0x66, 0x6d, 0x74, 0x20);
    push_bytes4(&mut out, 16, 0, 0, 0);
    push_bytes4(&mut out, 1, 0, 2, 0);
    push_le_u32(&mut out, sample_rate);
    push_le_u32(&mut out, byte_rate);
    push_bytes4(&mut out, 4, 0, 16, 0);
    push_bytes4(&mut out, 0x64, 0x61, 0x74, 0x61);
    push_le_u32(&mut out, data_len);
    reveal(wav_header);
    assert(out@ =~= wav_header(sample_rate as int, n as int));
    out
}

/// Builds a 16-bit PCM stereo WAVE file (the canonical 44-byte header, then
/// the samples) for the given sample rate.
pub fn encode_wav_pcm16_stereo(sample_rate: u32, samples: &[i16]) -> (out: Vec<u8>)
    requires
        sample_rate as int * 32 <= u32::MAX,
        samples@.len() * 2 <= usize::MAX,
    ensures
        out@ == wav_bytes(sample_rate as int, samples@),
{
    let n = samples.len();
    let mut out = header_bytes(sample_rate, n);
    let ghost header = out@;
    let mut k: usize = 0;
    while k < n
        invariant
            k <= n,
            n == samples@.len(),
            out@.len() == 44 + 2 * k,
            header.len() == 44,
            forall|j: int| 0 <= j < 44 ==> #[trigger] out@[j] == header[j],
            forall|j: int| 0 <= j < 2 * k ==> #[trigger] out@[44 + j] == sample_bytes(samples@)[j],
        decreases n - k,
    {
        let s = samples[k];
        let u: u32 = if s < 0 {
            (s as i32 + 65536) as u32
        } else {
            s as u32
        };
        out.push((u % 256) as u8);
        out.push(((u / 256) % 256) as u8);
        proof {
            lemma_sample_bytes_at(samples@, k as int);
        }
        k = k + 1;
    }
    proof {
        reveal(sample_bytes);
        let full = header + sample_bytes(samples@);
        assert forall|i: int| 0 <= i < out@.len() implies out@[i] == full[i] by {
            if i >= 44 {
                let j = i - 44;
                assert(out@[44 + j] == sample_bytes(samples@)[j]);
            }
        }
        assert(out@ =~= full);
    }
    out
}

// ---------------------------------------------------------------------------
// Decoding
// ---------------------------------------------------------------------------

/// Decoded 16-bit interleaved stereo samples.
#[derive(Clone, Debug)]
pub struct Pcm16Stereo {
    pub samples: Vec<i16>,
    pub sample_rate: u32,
}

/// Why a byte buffer could not be decoded as 16-bit PCM stereo.
#[derive(Clone, Copy, Debug, PartialEq, Eq, Structural)]
pub enum WavError {
    /// Shorter than a header, or not `RIFF....WAVE`.
    NotWave,
    /// A WAVE file of another format; the fields found are reported.
    Unsupported {
        audio_format: u16,
        channels: u16,
        bits_per_sample: u16,
        sample_rate: u32,
        data_len: usize,
    },
}

/// The fields describe non-empty 16-bit PCM stereo data.
pub open spec fn is_pcm16_stereo(f: WavFields) -> bool {
    &&& f.audio_format == 1
    &&& f.channels == 2
    &&& f.bits_per_sample == 16
    &&& f.sample_rate != 0
    &&& f.data_len != 0
}

/// The samples of the payload `b[start..start + len]`, two bytes each; a
/// trailing odd byte is dropped.
pub open spec fn pcm16_samples(b: Seq<u8>, start: int, len: int) -> Seq<i16> {
    Seq::new((len / 2) as nat, |k: int| le_i16_at(b, start + 2 * k) as i16)
}

/// Decodes a 16-bit PCM stereo WAVE file held in memory.
pub fn decode_wav_pcm16_stereo(data: &[u8]) -> (res: Result<Pcm16Stereo, WavError>)
    requires
        readable_wave(data@),
    ensures
        !has_wave_header(data@) ==> res == Err::<Pcm16Stereo, WavError>(WavError::NotWave),
        has_wave_header(data@) ==> {
            let f = wave_fields(data@);
            if is_pcm16_stereo(f) {
                &&& res is Ok
                &&& res->Ok_0.sample_rate == f.sample_rate
                &&& res->Ok_0.samples@ == pcm16_samples(
                    data@,
                    f.data_start as int,
                    f.data_len as int,
                )
            } else {
                res == Err::<Pcm16Stereo, WavError>(
                    WavError::Unsupported {
                        audio_format: f.audio_format,
                        channels: f.channels,
                        bits_per_sample: f.bits_per_sample,
                        sample_rate: f.sample_rate,
                        data_len: f.data_len,
                    },
                )
            }
        },
{
    if !header_ok(data) {
        return Err(WavError::NotWave);
    }
    let f = scan_wav_chunks(data);
    if f.audio_format != 1 || f.channels != 2 || f.bits_per_sample != 16 || f.sample_rate == 0
        || f.data_len == 0 {
        return Err(
            WavError::Unsupported {
                audio_format: f.audio_format,
                channels: f.channels,
                bits_per_sample: f.bits_per_sample,
                sample_rate: f.sample_rate,
                data_len: f.data_len,
            },
        );
    }
    let n = f.data_len / 2;
    let start = f.data_start;
    let dlen = data.len();
    let mut samples: Vec<i16> = Vec::with_capacity(n);
    let mut k: usize = 0;
    while k < n
        invariant
            k <= n,
            dlen == data@.len(),
            n == f.data_len / 2,
            start == f.data_start,
            fields_fit(f, data@.len() as int),
            samples@ =~= pcm16_samples(data@, start as int, f.data_len as int).take(k as int),
        decreases n - k,
    {
        let s = read_le_i16(data, start + 2 * k);
        samples.push(s);
        k = k + 1;
    }
    Ok(Pcm16Stereo { samples, sample_rate: f.sample_rate })
}

} // verus!

verus! {

// ---------------------------------------------------------------------------
// Duration estimate
// ---------------------------------------------------------------------------

/// Which header fields a duration estimate divides, in order of preference:
/// data size / byte rate; data size / block align / sample rate; data size * 8
/// / bits per sample / sample rate.
#[derive(Clone, Copy, Debug, PartialEq, Eq, Structural)]
pub enum DurationTerms {
    Unknown,
    ByteRate { data_size: u32, byte_rate: u32 },
    BlockAlign { data_size: u32, block_align: u16, sample_rate: u32 },
    BitsPerSample { data_size: u32, bits_per_sample: u16, sample_rate: u32 },
}

pub open spec fn duration_terms_of(b: Seq<u8>) -> DurationTerms {
    if !has_wave_header(b) {
        DurationTerms::Unknown
    } else {
        let f = wave_fields(b);
        if f.data_size == 0 {
            DurationTerms::Unknown
        } else if f.byte_rate > 0 {
            DurationTerms::ByteRate { data_size: f.data_size, byte_rate: f.byte_rate }
        } else if f.sample_rate > 0 && f.block_align > 0 {
            DurationTerms::BlockAlign {
                data_size: f.data_size,
                block_align: f.block_align,
                sample_rate: f.sample_rate,
            }
        } else if f.sample_rate > 0 && f.bits_per_sample > 0 {
            DurationTerms::BitsPerSample {
                data_size: f.data_size,
                bits_per_sample: f.bits_per_sample,
                sample_rate: f.sample_rate,
            }
        } else {
            DurationTerms::Unknown
        }
    }
}

/// Chooses how the duration of a WAVE file can be estimated from its header;
/// the caller does the division.
pub fn wav_duration_terms(data: &[u8]) -> (t: DurationTerms)
    requires
        readable_wave(data@),
    ensures
        t == duration_terms_of(data@),
{
    if !header_ok(data) {
        return DurationTerms::Unknown;
    }
    let f = scan_wav_chunks(data);
    if f.data_size == 0 {
        DurationTerms::Unknown
    } else if f.byte_rate > 0 {
        DurationTerms::ByteRate { data_size: f.data_size, byte_rate: f.byte_rate }
    } else if f.sample_rate > 0 && f.block_align > 0 {
        DurationTerms::BlockAlign {
            data_size: f.data_size,
            block_align: f.block_align,
            sample_rate: f.sample_rate,
        }
    } else if f.sample_rate > 0 && f.bits_per_sample > 0 {
        DurationTerms::BitsPerSample {
            data_size: f.data_size,
            bits_per_sample: f.bits_per_sample,
            sample_rate: f.sample_rate,
        }
    } else {
        DurationTerms::Unknown
    }
}

/// Whether the readers above would index past the end of `data` (a
/// `RIFF/WAVE` file whose `fmt ` chunk is cut short).
pub fn wave_has_cut_fmt_chunk(data: &[u8]) -> (r: bool)
    ensures
        r == !readable_wave(data@),
{
    if !header_ok(data) {
        return false;
    }
    let len: u128 = data.len() as u128;
    let mut offset: u128 = 12;
    assert(seq![0x66u8, 0x6du8, 0x74u8, 0x20u8] =~= fmt_tag());
    while offset + 8 <= len
        invariant
            len == data@.len(),
            len <= usize::MAX,
            12 <= offset <= len + 0x1_0000_0010,
            meets_cut_fmt_chunk(data@, offset as int) == meets_cut_fmt_chunk(data@, 12),
            has_wave_header(data@),
        decreases remaining(data@, offset as int),
    {
        let o = offset as usize;
        let size = read_le_u32(data, o + 4);
        if has_tag(data, o, 0x66, 0x6d, 0x74, 0x20) && size >= 16 && (o as u128) + 24 > len {
            assert(is_fmt_chunk(data@, offset as int));
            assert(meets_cut_fmt_chunk(data@, offset as int));
            return true;
        }
        offset = offset + 8 + size as u128 + (size % 2) as u128;
    }
    false
}

// ---------------------------------------------------------------------------
// Round trip
// ---------------------------------------------------------------------------

proof fn lemma_u32_bytes(v: u32)
    ensures
        byte0(v as int) as int + 256 * (byte1(v as int) as int) + 65536 * (byte2(v as int) as int)
            + 16777216 * (byte3(v as int) as int) == v as int,
{
    assert((v % 256) + 256 * ((v / 256) % 256) + 65536 * ((v / 65536) % 256) + 16777216 * ((v
        / 16777216) % 256) == v) by (bit_vector);
}

proof fn lemma_sample_roundtrip(s: i16)
    ensures
        ({
            let u = sample_bits(s);
            let lo = byte0(u) as int;
            let hi = byte1(u) as int;
            (if hi < 128 {
                lo + 256 * hi
            } else {
                lo + 256 * hi - 65536
            }) == s as int
        }),
{
    let u = sample_bits(s);
    assert(0 <= u < 65536);
    assert(u % 256 + 256 * ((u / 256) % 256) == u && (u / 256) % 256 == u / 256 && (u / 256 < 128
        <==> u < 32768)) by (nonlinear_arith)
        requires
            0 <= u < 65536,
    ;
}

proof fn lemma_header_facts(sample_rate: u32, n: int)
    requires
        sample_rate as int * 32 <= u32::MAX,
        0 < n,
        2 * n <= u32::MAX,
    ensures
        ({
            let h = wav_header(sample_rate as int, n);
            &&& h.len() == 44
            &&& tag_at(h, 0, riff_tag())
            &&& tag_at(h, 8, wave_tag())
            &&& tag_at(h, 12, fmt_tag())
            &&& le_u32_at(h, 16) == 16
            &&& le_u16_at(h, 20) == 1
            &&& le_u16_at(h, 22) == 2
            &&& le_u32_at(h, 24) == sample_rate
            &&& le_u32_at(h, 28) == 4 * sample_rate
            &&& le_u16_at(h, 32) == 4
            &&& le_u16_at(h, 34) == 16
            &&& tag_at(h, 36, data_tag())
            &&& le_u32_at(h, 40) == 2 * n
        }),
{
    reveal(wav_header);
    lemma_u32_bytes(sample_rate);
    lemma_u32_bytes((4 * sample_rate) as u32);
    assert(data_field(n) == 2 * n);
    lemma_u32_bytes((2 * n) as u32);
    let h = wav_header(sample_rate as int, n);
    assert(h.len() == 44);
    assert(tag_at(h, 0, riff_tag()));
    assert(tag_at(h, 8, wave_tag()));
    assert(tag_at(h, 12, fmt_tag()));
    assert(tag_at(h, 36, data_tag()));
}

proof fn lemma_encoded_layout(sample_rate: u32, samples: Seq<i16>)
    requires
        sample_rate as int * 32 <= u32::MAX,
        0 < samples.len(),
        2 * samples.len() <= u32::MAX,
    ensures
        ({
            let b = wav_bytes(sample_rate as int, samples);
            let n = samples.len() as int;
            &&& b.len() == 44 + 2 * n
            &&& has_wave_header(b)
            &&& tag_at(b, 12, fmt_tag())
            &&& chunk_size_at(b, 12) == 16
            &&& le_u16_at(b, 20) == 1
            &&& le_u16_at(b, 22) == 2
            &&& le_u32_at(b, 24) == sample_rate
            &&& le_u32_at(b, 28) == 4 * sample_rate
            &&& le_u16_at(b, 32) == 4
            &&& le_u16_at(b, 34) == 16
            &&& tag_at(b, 36, data_tag())
            &&& chunk_size_at(b, 36) == 2 * n
            &&& forall|j: int| 0 <= j < 2 * n ==> #[trigger] b[44 + j] == sample_bytes(samples)[j]
        }),
{
    let n = samples.len() as int;
    let h = wav_header(sample_rate as int, n);
    let b = wav_bytes(sample_rate as int, samples);
    lemma_header_facts(sample_rate, n);
    lemma_sample_bytes_at(samples, 0);
    assert forall|i: int| 0 <= i < 44 implies b[i] == h[i] by {}
    assert forall|j: int| 0 <= j < 2 * n implies #[trigger] b[44 + j] == sample_bytes(samples)[j] by {}
    assert(tag_at(b, 0, riff_tag()));
    assert(tag_at(b, 8, wave_tag()));
    assert(tag_at(b, 12, fmt_tag()));
    assert(tag_at(b, 36, data_tag()));
}

proof fn lemma_encoded_fields(sample_rate: u32, samples: Seq<i16>)
    requires
        sample_rate as int * 32 <= u32::MAX,
        0 < samples.len(),
        2 * samples.len() <= u32::MAX,
    ensures
        ({
            let b = wav_bytes(sample_rate as int, samples);
            let f = wave_fields(b);
            &&& !meets_cut_fmt_chunk(b, 12)
            &&& f.audio_format == 1
            &&& f.channels == 2
            &&& f.bits_per_sample == 16
            &&& f.sample_rate == sample_rate
            &&& f.byte_rate == 4 * sample_rate
            &&& f.block_align == 4
            &&& f.data_start == 44
            &&& f.data_len == 2 * samples.len()
            &&& f.data_size == 2 * samples.len()
        }),
{
    let n = samples.len() as int;
    let b = wav_bytes(sample_rate as int, samples);
    lemma_encoded_layout(sample_rate, samples);
    assert(fmt_tag() =~= seq![0x66u8, 0x6du8, 0x74u8, 0x20u8]);
    assert(data_tag() =~= seq![0x64u8, 0x61u8, 0x74u8, 0x61u8]);
    assert(is_fmt_chunk(b, 12));
    assert(next_chunk(b, 12) == 36);
    let f1 = with_fmt(b, 20, no_fields());
    assert(step_fields(b, 12, no_fields()) == f1);
    assert(scan_chunks(b, 12, no_fields()) == scan_chunks(b, 36, f1));
    assert(!is_fmt_chunk(b, 36));
    let f2 = with_data(b, 36, f1);
    assert(step_fields(b, 36, f1) == f2);
    assert(next_chunk(b, 36) == b.len());
    assert(scan_chunks(b, 36, f1) == scan_chunks(b, b.len() as int, f2));
    assert(wave_fields(b) == f2);
    assert(!meets_cut_fmt_chunk(b, b.len() as int));
    assert(!meets_cut_fmt_chunk(b, 36));
    assert(!meets_cut_fmt_chunk(b, 12));
}

/// Decoding what the encoder writes gives back the sample rate and the
/// samples, for every non-empty sample list the format's 32-bit size field
/// can describe.
pub proof fn lemma_decode_of_encode(sample_rate: u32, samples: Seq<i16>)
    requires
        sample_rate > 0,
        sample_rate as int * 32 <= u32::MAX,
        0 < samples.len(),
        2 * samples.len() <= u32::MAX,
    ensures
        ({
            let b = wav_bytes(sample_rate as int, samples);
            let f = wave_fields(b);
            &&& readable_wave(b)
            &&& has_wave_header(b)
            &&& is_pcm16_stereo(f)
            &&& f.sample_rate == sample_rate
            &&& pcm16_samples(b, f.data_start as int, f.data_len as int) == samples
        }),
{
    let n = samples.len() as int;
    let b = wav_bytes(sample_rate as int, samples);
    let sb = sample_bytes(samples);
    lemma_encoded_layout(sample_rate, samples);
    lemma_encoded_fields(sample_rate, samples);
    let decoded = pcm16_samples(b, 44, 2 * n);
    assert forall|k: int| 0 <= k < n implies decoded[k] == samples[k] by {
        lemma_sample_bytes_at(samples, k);
        lemma_sample_roundtrip(samples[k]);
        assert(b[44 + 2 * k] == sb[2 * k]);
        assert(b[44 + (2 * k + 1)] == sb[2 * k + 1]);
    }
    assert(decoded =~= samples);
}

/// The duration estimate of an encoded file divides its data size (two bytes
/// per sample) by its byte rate (four times the sample rate).
pub proof fn lemma_duration_of_encode(sample_rate: u32, samples: Seq<i16>)
    requires
        sample_rate > 0,
        sample_rate as int * 32 <= u32::MAX,
        0 < samples.len(),
        2 * samples.len() <= u32::MAX,
    ensures
        duration_terms_of(wav_bytes(sample_rate as int, samples)) == (DurationTerms::ByteRate {
            data_size: (2 * samples.len()) as u32,
            byte_rate: (4 * sample_rate) as u32,
        }),
{
    lemma_encoded_layout(sample_rate, samples);
    lemma_encoded_fields(sample_rate, samples);
}

} // verus!
