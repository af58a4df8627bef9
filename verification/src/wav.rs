//! RIFF/WAVE byte formats: reading the `fmt `/`data` chunk headers,
//! locating linear-PCM sample data, and writing IEEE-float WAV headers and
//! `smpl` loop chunks.

use vstd::prelude::*;
use vstd::string::StringExecFns;

verus! {

// ---------------------------------------------------------------------------
// Little-endian integers
// ---------------------------------------------------------------------------

/// The little-endian 16-bit value stored at `b[i..i + 2]`.
pub open spec fn le16(b: Seq<u8>, i: int) -> int {
    b[i] as int + 256 * (b[i + 1] as int)
}

/// The little-endian 32-bit value stored at `b[i..i + 4]`.
pub open spec fn le32(b: Seq<u8>, i: int) -> int {
    b[i] as int + 256 * (b[i + 1] as int) + 65536 * (b[i + 2] as int) + 16777216 * (b[i + 3] as int)
}

/// The two little-endian bytes of `v`.
pub open spec fn u16_le_bytes(v: int) -> Seq<u8> {
    seq![(v % 256) as u8, ((v / 256) % 256) as u8]
}

/// The four little-endian bytes of `v`.
pub open spec fn u32_le_bytes(v: int) -> Seq<u8> {
    seq![
        (v % 256) as u8,
        ((v / 256) % 256) as u8,
        ((v / 65536) % 256) as u8,
        ((v / 16777216) % 256) as u8,
    ]
}

/// Reads a little-endian `u16` from the first two bytes of `b`.
pub fn read_u16_le(b: &[u8]) -> (r: u16)
    requires
        b@.len() >= 2,
    ensures
        r == le16(b@, 0),
{
    (b[0] as u16) + (b[1] as u16) * 256
}

/// Reads a little-endian `u32` from the first four bytes of `b`.
pub fn read_u32_le(b: &[u8]) -> (r: u32)
    requires
        b@.len() >= 4,
    ensures
        r == le32(b@, 0),
{
    (b[0] as u32) + (b[1] as u32) * 256 + (b[2] as u32) * 65536 + (b[3] as u32) * 16777216
}

fn read_u16_at(b: &[u8], i: usize) -> (r: u16)
    requires
        i + 2 <= b@.len(),
    ensures
        r == le16(b@, i as int),
{
    (b[i] as u16) + (b[i + 1] as u16) * 256
}

fn read_u32_at(b: &[u8], i: usize) -> (r: u32)
    requires
        i + 4 <= b@.len(),
    ensures
        r == le32(b@, i as int),
{
    (b[i] as u32) + (b[i + 1] as u32) * 256 + (b[i + 2] as u32) * 65536 + (b[i + 3] as u32)
        * 16777216
}

pub proof fn lemma_le16_roundtrip(v: int, s: Seq<u8>, i: int)
    requires
        0 <= v < 65536,
        0 <= i,
        i + 2 <= s.len(),
        s.subrange(i, i + 2) == u16_le_bytes(v),
    ensures
        le16(s, i) == v,
{
    assert(s[i] == s.subrange(i, i + 2)[0]);
    assert(s[i + 1] == s.subrange(i, i + 2)[1]);
}

pub proof fn lemma_le32_roundtrip(v: int, s: Seq<u8>, i: int)
    requires
        0 <= v < 0x1_0000_0000,
        0 <= i,
        i + 4 <= s.len(),
        s.subrange(i, i + 4) == u32_le_bytes(v),
    ensures
        le32(s, i) == v,
{
    assert(s[i] == s.subrange(i, i + 4)[0]);
    assert(s[i + 1] == s.subrange(i, i + 4)[1]);
    assert(s[i + 2] == s.subrange(i, i + 4)[2]);
    assert(s[i + 3] == s.subrange(i, i + 4)[3]);
}

/// Appends the two little-endian bytes of `v`.
fn push_u16_le(out: &mut Vec<u8>, v: u16)
    ensures
        final(out)@ == old(out)@ + u16_le_bytes(v as int),
{
    out.push((v % 256) as u8);
    out.push((v / 256) as u8);
    assert(out@ =~= old(out)@ + u16_le_bytes(v as int));
}

/// Appends the four little-endian bytes of `v`.
fn push_u32_le(out: &mut Vec<u8>, v: u32)
    ensures
        final(out)@ == old(out)@ + u32_le_bytes(v as int),
{
    out.push((v % 256) as u8);
    out.push(((v / 256) % 256) as u8);
    out.push(((v / 65536) % 256) as u8);
    out.push((v / 16777216) as u8);
    assert(out@ =~= old(out)@ + u32_le_bytes(v as int));
}

/// Appends the four bytes of a chunk or form identifier.
fn push_tag(out: &mut Vec<u8>, t: [u8; 4])
    ensures
        final(out)@ == old(out)@ + t@,
{
    out.push(t[0]);
    out.push(t[1]);
    out.push(t[2]);
    out.push(t[3]);
    assert(out@ =~= old(out)@ + t@);
}

// ---------------------------------------------------------------------------
// Chunk identifiers
// ---------------------------------------------------------------------------

pub open spec fn tag_riff() -> Seq<u8> {
    seq![0x52u8, 0x49u8, 0x46u8, 0x46u8]
}

pub open spec fn tag_wave() -> Seq<u8> {
    seq![0x57u8, 0x41u8, 0x56u8, 0x45u8]
}

pub open spec fn tag_fmt() -> Seq<u8> {
    seq![0x66u8, 0x6du8, 0x74u8, 0x20u8]
}

pub open spec fn tag_data() -> Seq<u8> {
    seq![0x64u8, 0x61u8, 0x74u8, 0x61u8]
}

pub open spec fn tag_smpl() -> Seq<u8> {
    seq![0x73u8, 0x6du8, 0x70u8, 0x6cu8]
}

/// Whether the four bytes at `b[i..i + 4]` are the identifier `t`.
pub open spec fn tag_at(b: Seq<u8>, i: int, t: Seq<u8>) -> bool {
    b.subrange(i, i + 4) == t
}

fn has_tag(b: &[u8], i: usize, t: [u8; 4]) -> (r: bool)
    requires
        i + 4 <= b@.len(),
    ensures
        r == tag_at(b@, i as int, t@),
{
    let r = b[i] == t[0] && b[i + 1] == t[1] && b[i + 2] == t[2] && b[i + 3] == t[3];
    proof {
        if r {
            assert(b@.subrange(i as int, i + 4) =~= t@);
        } else {
            if b@.subrange(i as int, i + 4) == t@ {
                assert(b@.subrange(i as int, i + 4)[0] == b@[i as int]);
                assert(b@.subrange(i as int, i + 4)[1] == b@[i + 1]);
                assert(b@.subrange(i as int, i + 4)[2] == b@[i + 2]);
                assert(b@.subrange(i as int, i + 4)[3] == b@[i + 3]);
            }
        }
    }
    r
}

// ---------------------------------------------------------------------------
// Header sniffing
// ---------------------------------------------------------------------------

/// High-level RIFF/WAVE facts from the file header.
#[derive(Debug, Clone, Copy, PartialEq, Eq, Structural)]
pub struct WavHeaderInfo {
    pub riff_chunk_size: u32,
    pub audio_format: u16,
    pub num_channels: u16,
    pub sample_rate: u32,
    pub byte_rate: u32,
    pub block_align: u16,
    pub bits_per_sample: u16,
    pub data_chunk_size: u64,
}

/// Why a header could not be read.
#[derive(Debug, Clone, Copy, PartialEq, Eq, Structural)]
pub enum WavHeaderError {
    /// The bytes end inside a header field.
    Truncated,
    /// The first four bytes are not `RIFF`.
    NotRiff,
    /// The form type is not `WAVE`.
    NotWave,
    /// The `fmt ` chunk is shorter than its 16 mandatory bytes.
    FmtTooSmall,
    /// No `fmt ` chunk was found.
    NoFmtChunk,
}

impl WavHeaderError {
    /// The error as a human-readable message.
    pub fn message(&self) -> (s: String)
        ensures
            s@ == wav_header_error_message(*self),
    {
        match self {
            WavHeaderError::Truncated => String::from_str("failed to fill whole buffer"),
            WavHeaderError::NotRiff => String::from_str("not RIFF"),
            WavHeaderError::NotWave => String::from_str("not WAVE"),
            WavHeaderError::FmtTooSmall => String::from_str("fmt chunk too small"),
            WavHeaderError::NoFmtChunk => String::from_str("no fmt chunk"),
        }
    }
}

pub open spec fn wav_header_error_message(e: WavHeaderError) -> Seq<char> {
    match e {
        WavHeaderError::Truncated => "failed to fill whole buffer"@,
        WavHeaderError::NotRiff => "not RIFF"@,
        WavHeaderError::NotWave => "not WAVE"@,
        WavHeaderError::FmtTooSmall => "fmt chunk too small"@,
        WavHeaderError::NoFmtChunk => "no fmt chunk"@,
    }
}

/// The `fmt ` fields stored at `b[body..body + 16]` (data size still zero).
pub open spec fn fmt_info(b: Seq<u8>, body: int, riff: int) -> WavHeaderInfo {
    WavHeaderInfo {
        riff_chunk_size: riff as u32,
        audio_format: le16(b, body) as u16,
        num_channels: le16(b, body + 2) as u16,
        sample_rate: le32(b, body + 4) as u32,
        byte_rate: le32(b, body + 8) as u32,
        block_align: le16(b, body + 12) as u16,
        bits_per_sample: le16(b, body + 14) as u16,
        data_chunk_size: 0,
    }
}

/// Walks the chunks from offset `pos` on: remembers the last `fmt ` fields
/// and the last `data` size, skips other chunks (and the pad byte of odd
/// sizes), and stops at the end of the bytes or once both were seen.
pub open spec fn scan_chunks(
    b: Seq<u8>,
    pos: int,
    riff: int,
    fmt: Option<WavHeaderInfo>,
    data_size: int,
    found_data: bool,
) -> Result<(Option<WavHeaderInfo>, int), WavHeaderError>
    decreases (if pos <= b.len() {
        b.len() + 1 - pos
    } else {
        0
    }),
{
    if pos < 0 || pos + 4 > b.len() {
        Ok((fmt, data_size))
    } else if pos + 8 > b.len() {
        Err(WavHeaderError::Truncated)
    } else {
        let size = le32(b, pos + 4);
        let body = pos + 8;
        let next = body + size + size % 2;
        if tag_at(b, pos, tag_fmt()) {
            if size < 16 {
                Err(WavHeaderError::FmtTooSmall)
            } else if body + size > b.len() {
                Err(WavHeaderError::Truncated)
            } else if found_data {
                Ok((Some(fmt_info(b, body, riff)), data_size))
            } else {
                scan_chunks(b, next, riff, Some(fmt_info(b, body, riff)), data_size, found_data)
            }
        } else if tag_at(b, pos, tag_data()) {
            if fmt is Some {
                Ok((fmt, size))
            } else {
                scan_chunks(b, next, riff, fmt, size, true)
            }
        } else {
            scan_chunks(b, next, riff, fmt, data_size, found_data)
        }
    }
}

/// What [`sniff_wav_header`] returns for the bytes of a file.
pub open spec fn sniff_spec(b: Seq<u8>) -> Result<WavHeaderInfo, WavHeaderError> {
    if b.len() < 4 {
        Err(WavHeaderError::Truncated)
    } else if !tag_at(b, 0, tag_riff()) {
        Err(WavHeaderError::NotRiff)
    } else if b.len() < 12 {
        Err(WavHeaderError::Truncated)
    } else if !tag_at(b, 8, tag_wave()) {
        Err(WavHeaderError::NotWave)
    } else {
        finish_scan(scan_chunks(b, 12, le32(b, 4), None, 0, false))
    }
}

/// The header a finished chunk walk reports.
pub open spec fn finish_scan(r: Result<(Option<WavHeaderInfo>, int), WavHeaderError>) -> Result<
    WavHeaderInfo,
    WavHeaderError,
> {
    match r {
        Err(e) => Err(e),
        Ok((None, _)) => Err(WavHeaderError::NoFmtChunk),
        Ok((Some(info), ds)) => Ok(WavHeaderInfo { data_chunk_size: ds as u64, ..info }),
    }
}

proof fn lemma_scan_past_end(
    b: Seq<u8>,
    p: int,
    q: int,
    riff: int,
    fmt: Option<WavHeaderInfo>,
    ds: int,
    fd: bool,
)
    requires
        p + 4 > b.len(),
        q + 4 > b.len(),
        p >= 0,
        q >= 0,
    ensures
        scan_chunks(b, p, riff, fmt, ds, fd) == scan_chunks(b, q, riff, fmt, ds, fd),
{
}

/// Reads the `fmt ` and `data` chunk headers of a standard RIFF WAVE file
/// (not RF64) from its bytes, without decoding samples.
pub fn sniff_wav_header(bytes: &[u8]) -> (r: Result<WavHeaderInfo, WavHeaderError>)
    ensures
        r == sniff_spec(bytes@),
{
    let n = bytes.len();
    if n < 4 {
        return Err(WavHeaderError::Truncated);
    }
    if !has_tag(bytes, 0, [0x52u8, 0x49u8, 0x46u8, 0x46u8]) {
        assert([0x52u8, 0x49u8, 0x46u8, 0x46u8]@ =~= tag_riff());
        return Err(WavHeaderError::NotRiff);
    }
    assert([0x52u8, 0x49u8, 0x46u8, 0x46u8]@ =~= tag_riff());
    if n < 12 {
        return Err(WavHeaderError::Truncated);
    }
    let riff = read_u32_at(bytes, 4);
    if !has_tag(bytes, 8, [0x57u8, 0x41u8, 0x56u8, 0x45u8]) {
        assert([0x57u8, 0x41u8, 0x56u8, 0x45u8]@ =~= tag_wave());
        return Err(WavHeaderError::NotWave);
    }
    assert([0x57u8, 0x41u8, 0x56u8, 0x45u8]@ =~= tag_wave());
    assert([0x66u8, 0x6du8, 0x74u8, 0x20u8]@ =~= tag_fmt());
    assert([0x64u8, 0x61u8, 0x74u8, 0x61u8]@ =~= tag_data());
    let ghost target = scan_chunks(bytes@, 12, riff as int, None, 0, false);
    assert(sniff_spec(bytes@) == finish_scan(target));
    let mut pos: usize = 12;
    let mut fmt: Option<WavHeaderInfo> = None;
    let mut data_size: u64 = 0;
    let mut found_data = false;
    loop
        invariant
            n == bytes@.len(),
            12 <= pos <= n,
            riff == le32(bytes@, 4),
            data_size < 0x1_0000_0000,
            target == scan_chunks(bytes@, pos as int, riff as int, fmt, data_size as int, found_data),
            sniff_spec(bytes@) == finish_scan(target),
            !(fmt is Some && found_data),
        ensures
            pos + 4 > n,
            target == scan_chunks(bytes@, pos as int, riff as int, fmt, data_size as int, found_data),
            sniff_spec(bytes@) == finish_scan(target),
        decreases n - pos,
    {
        if n - pos < 4 {
            break;
        }
        if n - pos < 8 {
            return Err(WavHeaderError::Truncated);
        }
        let size = read_u32_at(bytes, pos + 4);
        let body = pos + 8;
        let pad: usize = if size % 2 == 1 {
            1
        } else {
            0
        };
        let ghost next_spec: int = body + size + size % 2;
        let next: usize = if (size as usize) <= n - body && pad <= n - body - (size as usize) {
            body + (size as usize) + pad
        } else {
            n
        };
        if has_tag(bytes, pos, [0x66u8, 0x6du8, 0x74u8, 0x20u8]) {
            if size < 16 {
                return Err(WavHeaderError::FmtTooSmall);
            }
            if (size as usize) > n - body {
                return Err(WavHeaderError::Truncated);
            }
            let info = WavHeaderInfo {
                riff_chunk_size: riff,
                audio_format: read_u16_at(bytes, body),
                num_channels: read_u16_at(bytes, body + 2),
                sample_rate: read_u32_at(bytes, body + 4),
                byte_rate: read_u32_at(bytes, body + 8),
                block_align: read_u16_at(bytes, body + 12),
                bits_per_sample: read_u16_at(bytes, body + 14),
                data_chunk_size: 0,
            };
            assert(info == fmt_info(bytes@, body as int, riff as int));
            if found_data {
                return Ok(WavHeaderInfo { data_chunk_size: data_size, ..info });
            }
            fmt = Some(info);
        } else if has_tag(bytes, pos, [0x64u8, 0x61u8, 0x74u8, 0x61u8]) {
            if fmt.is_some() {
                let f = fmt.unwrap();
                return Ok(WavHeaderInfo { data_chunk_size: size as u64, ..f });
            }
            data_size = size as u64;
            found_data = true;
        }
        proof {
            if next_spec > n {
                lemma_scan_past_end(
                    bytes@,
                    next_spec,
                    n as int,
                    riff as int,
                    fmt,
                    data_size as int,
                    found_data,
                );
            }
        }
        pos = next;
    }
    match fmt {
        None => Err(WavHeaderError::NoFmtChunk),
        Some(info) => Ok(WavHeaderInfo { data_chunk_size: data_size, ..info }),
    }
}

// ---------------------------------------------------------------------------
// Writing IEEE-float WAV headers
// ---------------------------------------------------------------------------

/// Why a WAV header could not be written.
#[derive(Debug, Clone, Copy, PartialEq, Eq, Structural)]
pub enum WavWriteError {
    /// No channels, or a sample count that is not a whole number of frames.
    InvalidSampleBuffer,
}

impl WavWriteError {
    /// The error as a human-readable message.
    pub fn message(&self) -> (s: String)
        ensures
            s@ == "invalid sample buffer"@,
    {
        String::from_str("invalid sample buffer")
    }
}

/// `x` clamped to the `u16` range (`u16::saturating_mul` result).
pub open spec fn sat_u16(x: int) -> int {
    if x > 0xFFFF {
        0xFFFF
    } else {
        x
    }
}

/// `x` clamped to the `u32` range (`u32::saturating_mul` result).
pub open spec fn sat_u32(x: int) -> int {
    if x > 0xFFFF_FFFF {
        0xFFFF_FFFF
    } else {
        x
    }
}

/// Bytes per frame of 32-bit float samples.
pub open spec fn f32_block_align(channels: int) -> int {
    sat_u16(channels * 4)
}

/// Bytes per second of 32-bit float samples.
pub open spec fn f32_byte_rate(sample_rate: int, channels: int) -> int {
    sat_u32(sample_rate * f32_block_align(channels))
}

/// The `data` chunk size field for `n` float samples (kept to 32 bits).
pub open spec fn f32_data_size(n: int) -> int {
    (n * 4) % 0x1_0000_0000
}

/// Bytes of the optional `smpl` chunk, header included.
pub open spec fn smpl_chunk_len(has_loop: bool) -> int {
    if has_loop {
        68int
    } else {
        0int
    }
}

/// The RIFF size field: form type, `fmt ` chunk, `data` chunk, `smpl` chunk.
pub open spec fn f32_riff_size(n: int, has_loop: bool) -> int {
    4 + (8 + 16) + (8 + f32_data_size(n)) + smpl_chunk_len(has_loop)
}

/// The 44 header bytes of an IEEE-float WAV holding `n` interleaved samples.
#[verifier::opaque]
pub open spec fn f32_wav_header_spec(n: int, sample_rate: int, channels: int, has_loop: bool) -> Seq<
    u8,
> {
    tag_riff() + u32_le_bytes(f32_riff_size(n, has_loop)) + tag_wave() + tag_fmt() + u32_le_bytes(16)
        + u16_le_bytes(3) + u16_le_bytes(channels) + u32_le_bytes(sample_rate) + u32_le_bytes(
        f32_byte_rate(sample_rate, channels),
    ) + u16_le_bytes(f32_block_align(channels)) + u16_le_bytes(32) + tag_data() + u32_le_bytes(
        f32_data_size(n),
    )
}

/// The header of an IEEE-float (format 3, 32-bit) WAV holding
/// `sample_count` interleaved samples; `has_loop` accounts for a `smpl`
/// chunk that follows the sample data.  The sample bytes follow the header.
pub fn f32_wav_header(sample_count: usize, sample_rate: u32, channels: u16, has_loop: bool) -> (r:
    Result<Vec<u8>, WavWriteError>)
    requires
        sample_count * 4 <= usize::MAX,
        f32_riff_size(sample_count as int, has_loop) <= u32::MAX,
    ensures
        channels == 0 || sample_count % (channels as usize) != 0 ==> r == Err::<Vec<u8>, WavWriteError>(
            WavWriteError::InvalidSampleBuffer,
        ),
        channels != 0 && sample_count % (channels as usize) == 0 ==> (r matches Ok(h) && h@
            == f32_wav_header_spec(sample_count as int, sample_rate as int, channels as int, has_loop)),
{
    let ch = channels as usize;
    if ch == 0 || sample_count % ch != 0 {
        return Err(WavWriteError::InvalidSampleBuffer);
    }
    let data_bytes = sample_count * 4;
    let data_size: u32 = (data_bytes as u64 % 0x1_0000_0000u64) as u32;
    let wide_align: u32 = (channels as u32) * 4;
    let block_align: u16 = if wide_align > 0xFFFF {
        0xFFFF
    } else {
        wide_align as u16
    };
    assert((sample_rate as u64) * (block_align as u64) <= 0xFFFF_FFFFu64 * 0xFFFFu64) by (nonlinear_arith)
        requires
            sample_rate <= 0xFFFF_FFFFu32,
            block_align <= 0xFFFFu16,
    ;
    let wide_rate: u64 = (sample_rate as u64) * (block_align as u64);
    let byte_rate: u32 = if wide_rate > 0xFFFF_FFFF {
        0xFFFF_FFFF
    } else {
        wide_rate as u32
    };
    let smpl_extra: u32 = if has_loop {
        8 + 60
    } else {
        0
    };
    let riff_payload: u32 = 4u32 + (8 + 16) + (8 + data_size) + smpl_extra;
    let mut out: Vec<u8> = Vec::new();
    push_tag(&mut out, [0x52u8, 0x49u8, 0x46u8, 0x46u8]);
    push_u32_le(&mut out, riff_payload);
    push_tag(&mut out, [0x57u8, 0x41u8, 0x56u8, 0x45u8]);
    push_tag(&mut out, [0x66u8, 0x6du8, 0x74u8, 0x20u8]);
    push_u32_le(&mut out, 16);
    push_u16_le(&mut out, 3);
    push_u16_le(&mut out, channels);
    push_u32_le(&mut out, sample_rate);
    push_u32_le(&mut out, byte_rate);
    push_u16_le(&mut out, block_align);
    push_u16_le(&mut out, 32);
    push_tag(&mut out, [0x64u8, 0x61u8, 0x74u8, 0x61u8]);
    push_u32_le(&mut out, data_size);
    proof {
        reveal(f32_wav_header_spec);
        assert([0x52u8, 0x49u8, 0x46u8, 0x46u8]@ =~= tag_riff());
        assert([0x57u8, 0x41u8, 0x56u8, 0x45u8]@ =~= tag_wave());
        assert([0x66u8, 0x6du8, 0x74u8, 0x20u8]@ =~= tag_fmt());
        assert([0x64u8, 0x61u8, 0x74u8, 0x61u8]@ =~= tag_data());
        assert(out@ =~= f32_wav_header_spec(
            sample_count as int,
            sample_rate as int,
            channels as int,
            has_loop,
        ));
    }
    Ok(out)
}

// ---------------------------------------------------------------------------
// smpl loop chunk
// ---------------------------------------------------------------------------

/// Sample period in nanoseconds as the `smpl` chunk stores it.
pub open spec fn smpl_period(sample_rate: int) -> int {
    1_000_000_000int / (if sample_rate < 1 {
        1
    } else {
        sample_rate
    })
}

/// Little-endian encodings of `ws`, one after the other.
pub open spec fn u32_fields_le(ws: Seq<u32>) -> Seq<u8>
    decreases ws.len(),
{
    if ws.len() == 0 {
        Seq::empty()
    } else {
        u32_fields_le(ws.drop_last()) + u32_le_bytes(ws.last() as int)
    }
}

/// The fifteen 32-bit fields of a `smpl` chunk body with one forward loop
/// over the inclusive sample-frame range `[loop_start, loop_end]`:
/// manufacturer, product, sample period, MIDI unity note, pitch fraction,
/// SMPTE format and offset, loop count, sampler data size, then the loop's
/// cue id, type (forward), start, end, fraction and play count (infinite).
pub open spec fn smpl_fields(sample_rate: int, loop_start: u32, loop_end: u32) -> Seq<u32> {
    seq![
        0u32,
        0u32,
        smpl_period(sample_rate) as u32,
        60u32,
        0u32,
        0u32,
        0u32,
        1u32,
        0u32,
        0u32,
        0u32,
        loop_start,
        loop_end,
        0u32,
        0u32,
    ]
}

/// The bytes of a `smpl` chunk: its identifier, its size (the 60 bytes of
/// its fields), its fields.
pub open spec fn smpl_chunk_spec(sample_rate: int, loop_start: u32, loop_end: u32) -> Seq<u8> {
    tag_smpl() + u32_fields_le(seq![60u32] + smpl_fields(sample_rate, loop_start, loop_end))
}

/// Appends a `smpl` chunk (one forward loop, infinite play count) to `w`.
///
/// `loop_start` / `loop_end` are sample-frame indices (inclusive), not byte
/// offsets: a stereo file of 1000 frames has valid loop indices 0–999.
pub fn write_smpl_chunk(w: &mut Vec<u8>, sample_rate: u32, loop_start: u32, loop_end: u32)
    ensures
        final(w)@ == old(w)@ + smpl_chunk_spec(sample_rate as int, loop_start, loop_end),
{
    let rate = if sample_rate < 1 {
        1
    } else {
        sample_rate
    };
    let period = 1_000_000_000u32 / rate;
    let fields: [u32; 16] = [
        60,
        0,
        0,
        period,
        60,
        0,
        0,
        0,
        1,
        0,
        0,
        0,
        loop_start,
        loop_end,
        0,
        0,
    ];
    assert(fields@ =~= seq![60u32] + smpl_fields(sample_rate as int, loop_start, loop_end));
    push_tag(w, [0x73u8, 0x6du8, 0x70u8, 0x6cu8]);
    assert([0x73u8, 0x6du8, 0x70u8, 0x6cu8]@ =~= tag_smpl());
    let ghost start = w@;
    let mut i: usize = 0;
    while i < 16
        invariant
            i <= 16,
            fields@.len() == 16,
            w@ == start + u32_fields_le(fields@.take(i as int)),
        decreases 16 - i,
    {
        push_u32_le(w, fields[i]);
        assert(fields@.take(i + 1).drop_last() =~= fields@.take(i as int));
        assert(w@ =~= start + u32_fields_le(fields@.take(i + 1)));
        i = i + 1;
    }
    assert(fields@.take(16) =~= fields@);
    assert(w@ =~= old(w)@ + smpl_chunk_spec(sample_rate as int, loop_start, loop_end));
}

// ---------------------------------------------------------------------------
// What a read gives back of a write
// ---------------------------------------------------------------------------

/// The header facts of a float WAV with `n` samples, as written.
pub open spec fn f32_header_info(n: int, sample_rate: int, channels: int, has_loop: bool) -> WavHeaderInfo {
    WavHeaderInfo {
        riff_chunk_size: f32_riff_size(n, has_loop) as u32,
        audio_format: 3,
        num_channels: channels as u16,
        sample_rate: sample_rate as u32,
        byte_rate: f32_byte_rate(sample_rate, channels) as u32,
        block_align: f32_block_align(channels) as u16,
        bits_per_sample: 32,
        data_chunk_size: f32_data_size(n) as u64,
    }
}

/// The fields of a written float-WAV header, read back at their offsets.
#[verifier::rlimit(60)]
#[verifier::spinoff_prover]
proof fn lemma_f32_header_fields(
    n: int,
    sample_rate: u32,
    channels: u16,
    has_loop: bool,
    rest: Seq<u8>,
)
    requires
        n >= 0,
        f32_riff_size(n, has_loop) <= u32::MAX,
    ensures
        ({
            let b = f32_wav_header_spec(n, sample_rate as int, channels as int, has_loop) + rest;
            &&& b.len() >= 44
            &&& tag_at(b, 0, tag_riff())
            &&& le32(b, 4) == f32_riff_size(n, has_loop)
            &&& tag_at(b, 8, tag_wave())
            &&& tag_at(b, 12, tag_fmt())
            &&& !tag_at(b, 12, tag_data())
            &&& le32(b, 16) == 16
            &&& le16(b, 20) == 3
            &&& le16(b, 22) == channels
            &&& le32(b, 24) == sample_rate
            &&& le32(b, 28) == f32_byte_rate(sample_rate as int, channels as int)
            &&& le16(b, 32) == f32_block_align(channels as int)
            &&& le16(b, 34) == 32
            &&& tag_at(b, 36, tag_data())
            &&& !tag_at(b, 36, tag_fmt())
            &&& le32(b, 40) == f32_data_size(n)
        }),
{
    reveal(f32_wav_header_spec);
    let h = f32_wav_header_spec(n, sample_rate as int, channels as int, has_loop);
    let b = h + rest;
    let riff = f32_riff_size(n, has_loop);
    let ba = f32_block_align(channels as int);
    let br = f32_byte_rate(sample_rate as int, channels as int);
    let ds = f32_data_size(n);
    assert(h.len() == 44);
    assert(b.subrange(0, 4) =~= tag_riff());
    assert(b.subrange(4, 8) =~= u32_le_bytes(riff));
    assert(b.subrange(8, 12) =~= tag_wave());
    assert(b.subrange(12, 16) =~= tag_fmt());
    assert(b.subrange(16, 20) =~= u32_le_bytes(16));
    assert(b.subrange(20, 22) =~= u16_le_bytes(3));
    assert(b.subrange(22, 24) =~= u16_le_bytes(channels as int));
    assert(b.subrange(24, 28) =~= u32_le_bytes(sample_rate as int));
    assert(b.subrange(28, 32) =~= u32_le_bytes(br));
    assert(b.subrange(32, 34) =~= u16_le_bytes(ba));
    assert(b.subrange(34, 36) =~= u16_le_bytes(32));
    assert(b.subrange(36, 40) =~= tag_data());
    assert(b.subrange(40, 44) =~= u32_le_bytes(ds));
    lemma_le32_roundtrip(riff, b, 4);
    lemma_le32_roundtrip(16, b, 16);
    lemma_le16_roundtrip(3, b, 20);
    lemma_le16_roundtrip(channels as int, b, 22);
    lemma_le32_roundtrip(sample_rate as int, b, 24);
    lemma_le32_roundtrip(br, b, 28);
    lemma_le16_roundtrip(ba, b, 32);
    lemma_le16_roundtrip(32, b, 34);
    lemma_le32_roundtrip(ds, b, 40);
    assert(tag_fmt()[0] != tag_data()[0]);
}

/// Law: sniffing a file that starts with a written float-WAV header reports
/// exactly the format, channel count, rate, alignment, sample size and data
/// size that were written, whatever follows the header.
pub proof fn law_f32_header_sniff_roundtrip(
    n: int,
    sample_rate: u32,
    channels: u16,
    has_loop: bool,
    rest: Seq<u8>,
)
    requires
        n >= 0,
        f32_riff_size(n, has_loop) <= u32::MAX,
    ensures
        sniff_spec(f32_wav_header_spec(n, sample_rate as int, channels as int, has_loop) + rest)
            == Ok::<WavHeaderInfo, WavHeaderError>(
            f32_header_info(n, sample_rate as int, channels as int, has_loop),
        ),
{
    lemma_f32_header_fields(n, sample_rate, channels, has_loop, rest);
    let b = f32_wav_header_spec(n, sample_rate as int, channels as int, has_loop) + rest;
    let riff = f32_riff_size(n, has_loop);
    let ds = f32_data_size(n);
    let info = fmt_info(b, 20, riff);
    assert(scan_chunks(b, 36, riff, Some(info), 0, false) == Ok::<(Option<WavHeaderInfo>, int), WavHeaderError>((Some(info), ds)));
    assert(scan_chunks(b, 12, riff, None, 0, false) == Ok::<(Option<WavHeaderInfo>, int), WavHeaderError>((Some(info), ds)));
}

/// The `k`-th field of an encoded field list.
proof fn lemma_u32_fields_at(ws: Seq<u32>, k: int)
    requires
        0 <= k < ws.len(),
    ensures
        u32_fields_le(ws).len() == 4 * ws.len(),
        u32_fields_le(ws).subrange(4 * k, 4 * k + 4) == u32_le_bytes(ws[k] as int),
    decreases ws.len(),
{
    lemma_u32_fields_len(ws);
    let init = ws.drop_last();
    lemma_u32_fields_len(init);
    if k < ws.len() - 1 {
        lemma_u32_fields_at(init, k);
        assert(u32_fields_le(ws).subrange(4 * k, 4 * k + 4) =~= u32_fields_le(init).subrange(
            4 * k,
            4 * k + 4,
        ));
    } else {
        assert(u32_fields_le(ws).subrange(4 * k, 4 * k + 4) =~= u32_le_bytes(ws[k] as int));
    }
}

proof fn lemma_u32_fields_len(ws: Seq<u32>)
    ensures
        u32_fields_le(ws).len() == 4 * ws.len(),
    decreases ws.len(),
{
    if ws.len() > 0 {
        lemma_u32_fields_len(ws.drop_last());
    }
}

/// Law: a written `smpl` chunk starts with its identifier, is 68 bytes long
/// in all, has a size field that counts the 60 bytes after it (nine header
/// words and one six-word loop record), and holds the loop start and end at
/// chunk offsets 52 and 56.
pub proof fn law_smpl_chunk_loop_points(sample_rate: u32, loop_start: u32, loop_end: u32)
    ensures
        smpl_chunk_spec(sample_rate as int, loop_start, loop_end).len() == 68,
        tag_at(smpl_chunk_spec(sample_rate as int, loop_start, loop_end), 0, tag_smpl()),
        le32(smpl_chunk_spec(sample_rate as int, loop_start, loop_end), 4) == 60,
        le32(smpl_chunk_spec(sample_rate as int, loop_start, loop_end), 4)
            == smpl_chunk_spec(sample_rate as int, loop_start, loop_end).len() - 8,
        smpl_chunk_spec(sample_rate as int, loop_start, loop_end).len() == smpl_chunk_len(true),
        le32(smpl_chunk_spec(sample_rate as int, loop_start, loop_end), 52) == loop_start,
        le32(smpl_chunk_spec(sample_rate as int, loop_start, loop_end), 56) == loop_end,
{
    let c = smpl_chunk_spec(sample_rate as int, loop_start, loop_end);
    let ws = seq![60u32] + smpl_fields(sample_rate as int, loop_start, loop_end);
    let f = u32_fields_le(ws);
    assert(ws.len() == 16);
    lemma_u32_fields_at(ws, 0);
    lemma_u32_fields_at(ws, 12);
    lemma_u32_fields_at(ws, 13);
    assert(c.subrange(0, 4) =~= tag_smpl());
    assert(c.subrange(4, 8) =~= f.subrange(0, 4));
    assert(c.subrange(52, 56) =~= f.subrange(48, 52));
    assert(c.subrange(56, 60) =~= f.subrange(52, 56));
    lemma_le32_roundtrip(60, c, 4);
    lemma_le32_roundtrip(loop_start as int, c, 52);
    lemma_le32_roundtrip(loop_end as int, c, 56);
}

/// The 32-bit word at chunk offset `4 + 4 * k` of a written `smpl` chunk is
/// its `k`-th word after the identifier.
proof fn lemma_smpl_word(sample_rate: u32, loop_start: u32, loop_end: u32, k: int)
    requires
        0 <= k < 16,
    ensures
        smpl_chunk_spec(sample_rate as int, loop_start, loop_end).len() == 68,
        le32(smpl_chunk_spec(sample_rate as int, loop_start, loop_end), 4 + 4 * k) == (seq![60u32]
            + smpl_fields(sample_rate as int, loop_start, loop_end))[k] as int,
{
    let c = smpl_chunk_spec(sample_rate as int, loop_start, loop_end);
    let ws = seq![60u32] + smpl_fields(sample_rate as int, loop_start, loop_end);
    let f = u32_fields_le(ws);
    assert(ws.len() == 16);
    lemma_u32_fields_at(ws, k);
    assert(c.subrange(4 + 4 * k, 8 + 4 * k) =~= f.subrange(4 * k, 4 * k + 4));
    lemma_le32_roundtrip(ws[k] as int, c, 4 + 4 * k);
}

/// Law: a written `smpl` chunk describes exactly one forward loop over the
/// given frames, played forever, at MIDI unity note 60: after the size it
/// holds, word by word, manufacturer 0, product 0, the sample period in
/// nanoseconds (10^9 / rate, a zero rate read as 1), unity note 60, pitch
/// fraction 0, SMPTE format and offset 0, one loop, no sampler data, then
/// the loop record: cue id 0, type 0 (forward), start, end, fraction 0 and
/// play count 0 (infinite).
pub proof fn law_smpl_chunk_is_one_forward_loop(sample_rate: u32, loop_start: u32, loop_end: u32)
    ensures
        ({
            let c = smpl_chunk_spec(sample_rate as int, loop_start, loop_end);
            let rate = if sample_rate == 0 { 1int } else { sample_rate as int };
            &&& c.len() == 68
            &&& le32(c, 8) == 0
            &&& le32(c, 12) == 0
            &&& le32(c, 16) == 1_000_000_000int / rate
            &&& le32(c, 20) == 60
            &&& le32(c, 24) == 0
            &&& le32(c, 28) == 0
            &&& le32(c, 32) == 0
            &&& le32(c, 36) == 1
            &&& le32(c, 40) == 0
            &&& le32(c, 44) == 0
            &&& le32(c, 48) == 0
            &&& le32(c, 52) == loop_start
            &&& le32(c, 56) == loop_end
            &&& le32(c, 60) == 0
            &&& le32(c, 64) == 0
        }),
{
    let ws = seq![60u32] + smpl_fields(sample_rate as int, loop_start, loop_end);
    let rate = if sample_rate == 0 { 1int } else { sample_rate as int };
    assert(1_000_000_000int / rate <= 1_000_000_000) by (nonlinear_arith)
        requires
            rate >= 1,
    ;
    assert(ws[3] as int == 1_000_000_000int / rate);
    lemma_smpl_word(sample_rate, loop_start, loop_end, 1);
    lemma_smpl_word(sample_rate, loop_start, loop_end, 2);
    lemma_smpl_word(sample_rate, loop_start, loop_end, 3);
    lemma_smpl_word(sample_rate, loop_start, loop_end, 4);
    lemma_smpl_word(sample_rate, loop_start, loop_end, 5);
    lemma_smpl_word(sample_rate, loop_start, loop_end, 6);
    lemma_smpl_word(sample_rate, loop_start, loop_end, 7);
    lemma_smpl_word(sample_rate, loop_start, loop_end, 8);
    lemma_smpl_word(sample_rate, loop_start, loop_end, 9);
    lemma_smpl_word(sample_rate, loop_start, loop_end, 10);
    lemma_smpl_word(sample_rate, loop_start, loop_end, 11);
    lemma_smpl_word(sample_rate, loop_start, loop_end, 12);
    lemma_smpl_word(sample_rate, loop_start, loop_end, 13);
    lemma_smpl_word(sample_rate, loop_start, loop_end, 14);
    lemma_smpl_word(sample_rate, loop_start, loop_end, 15);
    assert(ws[10] == 0u32 && ws[11] == 0u32 && ws[14] == 0u32 && ws[15] == 0u32);
}

// ---------------------------------------------------------------------------
// Locating linear PCM data
// ---------------------------------------------------------------------------

/// Layout of a linear-PCM or 32-bit float `data` region.
#[derive(Debug, Clone, Copy, PartialEq, Eq, Structural)]
pub struct WavPcmLayout {
    pub sample_rate: u32,
    pub channels: u16,
    pub block_align: u16,
    pub audio_format: u16,
    pub bits_per_sample: u16,
    /// Bytes of whole frames in the `data` chunk.
    pub data_total_bytes: u64,
}

/// Whether a `fmt ` chunk describes a format the fast decoder handles:
/// linear PCM (format 1) or 32-bit IEEE float (format 3), at least one
/// channel, 8/16/24/32-bit samples, and a block alignment of exactly one
/// sample per channel.
pub open spec fn pcm_format_supported(af: int, ch: int, ba: int, bps: int) -> bool {
    &&& af == 1 || (af == 3 && bps == 32)
    &&& ch != 0
    &&& ch * (bps / 8) <= 0xFFFF
    &&& ch * (bps / 8) == ba
    &&& bps == 8 || bps == 16 || bps == 24 || bps == 32
}

/// The format fields at `b[body..body + 16]` as a layout (no data yet).
pub open spec fn pcm_fmt_at(b: Seq<u8>, body: int) -> WavPcmLayout {
    WavPcmLayout {
        sample_rate: le32(b, body + 4) as u32,
        channels: le16(b, body + 2) as u16,
        block_align: le16(b, body + 12) as u16,
        audio_format: le16(b, body) as u16,
        bits_per_sample: le16(b, body + 14) as u16,
        data_total_bytes: 0,
    }
}

/// Walks the chunks from `pos` on, keeping the last supported `fmt ` fields
/// and the offset and size of the last `data` chunk; gives up (`None`) on a
/// short or truncated `fmt ` chunk or an unsupported format, and stops at
/// the end of the bytes or once both were seen.
pub open spec fn pcm_scan(
    b: Seq<u8>,
    pos: int,
    fmt: Option<WavPcmLayout>,
    data: Option<(int, int)>,
) -> Option<(Option<WavPcmLayout>, Option<(int, int)>)>
    decreases (if pos <= b.len() {
        b.len() + 1 - pos
    } else {
        0
    }),
{
    if pos < 0 || pos + 8 > b.len() {
        Some((fmt, data))
    } else {
        let size = le32(b, pos + 4);
        let body = pos + 8;
        let next = body + size + size % 2;
        if tag_at(b, pos, tag_fmt()) {
            if size < 16 || body + size > b.len() {
                None
            } else {
                let f = pcm_fmt_at(b, body);
                if !pcm_format_supported(
                    f.audio_format as int,
                    f.channels as int,
                    f.block_align as int,
                    f.bits_per_sample as int,
                ) {
                    None
                } else if data is Some {
                    Some((Some(f), data))
                } else {
                    pcm_scan(b, next, Some(f), data)
                }
            }
        } else if tag_at(b, pos, tag_data()) {
            if fmt is Some {
                Some((fmt, Some((body, size))))
            } else {
                pcm_scan(b, next, fmt, Some((body, size)))
            }
        } else {
            pcm_scan(b, next, fmt, data)
        }
    }
}

/// What [`wav_pcm_layout`] returns: the layout and the byte offset of the
/// `data` payload, or `None` when the bytes are not a supported WAV.
pub open spec fn pcm_layout_spec(b: Seq<u8>) -> Option<(WavPcmLayout, int)> {
    if b.len() < 12 || !tag_at(b, 0, tag_riff()) || !tag_at(b, 8, tag_wave()) {
        None
    } else {
        match pcm_scan(b, 12, None, None) {
            Some((Some(f), Some((off, len)))) => if f.block_align == 0 {
                None
            } else {
                Some(
                    (
                        WavPcmLayout {
                            data_total_bytes: ((len / (f.block_align as int)) * (
                            f.block_align as int)) as u64,
                            ..f
                        },
                        off,
                    ),
                )
            },
            _ => None,
        }
    }
}

proof fn lemma_pcm_scan_past_end(
    b: Seq<u8>,
    p: int,
    q: int,
    fmt: Option<WavPcmLayout>,
    data: Option<(int, int)>,
)
    requires
        p + 8 > b.len(),
        q + 8 > b.len(),
        p >= 0,
        q >= 0,
    ensures
        pcm_scan(b, p, fmt, data) == pcm_scan(b, q, fmt, data),
{
}

/// Finds the sample data of a linear-PCM or 32-bit float WAV in the bytes of
/// a file: its layout and the offset of the first `data` byte, or `None` if
/// the file is not such a WAV (other files go to a general decoder).
pub fn wav_pcm_layout(bytes: &[u8]) -> (r: Option<(WavPcmLayout, u64)>)
    ensures
        match r {
            Some((l, off)) => pcm_layout_spec(bytes@) == Some((l, off as int)),
            None => pcm_layout_spec(bytes@) is None,
        },
{
    let n = bytes.len();
    if n < 12 {
        return None;
    }
    assert([0x52u8, 0x49u8, 0x46u8, 0x46u8]@ =~= tag_riff());
    assert([0x57u8, 0x41u8, 0x56u8, 0x45u8]@ =~= tag_wave());
    assert([0x66u8, 0x6du8, 0x74u8, 0x20u8]@ =~= tag_fmt());
    assert([0x64u8, 0x61u8, 0x74u8, 0x61u8]@ =~= tag_data());
    if !has_tag(bytes, 0, [0x52u8, 0x49u8, 0x46u8, 0x46u8]) || !has_tag(
        bytes,
        8,
        [0x57u8, 0x41u8, 0x56u8, 0x45u8],
    ) {
        return None;
    }
    let ghost target = pcm_scan(bytes@, 12, None, None);
    let mut pos: usize = 12;
    let mut fmt: Option<WavPcmLayout> = None;
    let mut data: Option<(usize, u32)> = None;
    loop
        invariant
            n == bytes@.len(),
            12 <= pos <= n,
            target == pcm_scan(
                bytes@,
                pos as int,
                fmt,
                match data {
                    Some((o, l)) => Some((o as int, l as int)),
                    None => None,
                },
            ),
            !(fmt is Some && data is Some),
            fmt matches Some(f) ==> f.block_align > 0,
            target == pcm_scan(bytes@, 12, None, None),
            bytes@.len() >= 12 && tag_at(bytes@, 0, tag_riff()) && tag_at(bytes@, 8, tag_wave()),
        ensures
            pos + 8 > n,
            target == pcm_scan(
                bytes@,
                pos as int,
                fmt,
                match data {
                    Some((o, l)) => Some((o as int, l as int)),
                    None => None,
                },
            ),
            target == pcm_scan(bytes@, 12, None, None),
            bytes@.len() >= 12 && tag_at(bytes@, 0, tag_riff()) && tag_at(bytes@, 8, tag_wave()),
        decreases n - pos,
    {
        if n - pos < 8 {
            break;
        }
        let size = read_u32_at(bytes, pos + 4);
        let body = pos + 8;
        let pad: usize = if size % 2 == 1 {
            1
        } else {
            0
        };
        let ghost next_spec: int = body + size + size % 2;
        let next: usize = if (size as usize) <= n - body && pad <= n - body - (size as usize) {
            body + (size as usize) + pad
        } else {
            n
        };
        if has_tag(bytes, pos, [0x66u8, 0x6du8, 0x74u8, 0x20u8]) {
            if size < 16 || (size as usize) > n - body {
                return None;
            }
            let f = WavPcmLayout {
                sample_rate: read_u32_at(bytes, body + 4),
                channels: read_u16_at(bytes, body + 2),
                block_align: read_u16_at(bytes, body + 12),
                audio_format: read_u16_at(bytes, body),
                bits_per_sample: read_u16_at(bytes, body + 14),
                data_total_bytes: 0,
            };
            assert(f == pcm_fmt_at(bytes@, body as int));
            if f.audio_format != 1 && !(f.audio_format == 3 && f.bits_per_sample == 32) {
                return None;
            }
            if f.channels == 0 {
                return None;
            }
            let bytes_per_sample: u32 = (f.bits_per_sample / 8) as u32;
            assert((f.channels as u32) * bytes_per_sample <= 0xFFFFu32 * 0x2000u32) by (nonlinear_arith)
                requires
                    f.channels <= 0xFFFFu16,
                    bytes_per_sample <= 0x2000u32,
            ;
            let wide: u32 = (f.channels as u32) * bytes_per_sample;
            if wide > 0xFFFF || wide != f.block_align as u32 {
                return None;
            }
            if !(f.bits_per_sample == 8 || f.bits_per_sample == 16 || f.bits_per_sample == 24
                || f.bits_per_sample == 32) {
                return None;
            }
            assert(wide >= 1) by (nonlinear_arith)
                requires
                    wide == (f.channels as u32) * bytes_per_sample,
                    f.channels >= 1,
                    bytes_per_sample >= 1,
            ;
            if data.is_some() {
                let (o, l) = data.unwrap();
                proof {
                    lemma_div_mul_le(l as int, f.block_align as int);
                }
                let total = ((l as u64) / (f.block_align as u64)) * (f.block_align as u64);
                return Some((WavPcmLayout { data_total_bytes: total, ..f }, o as u64));
            }
            fmt = Some(f);
        } else if has_tag(bytes, pos, [0x64u8, 0x61u8, 0x74u8, 0x61u8]) {
            if fmt.is_some() {
                let f = fmt.unwrap();
                proof {
                    lemma_div_mul_le(size as int, f.block_align as int);
                }
                let total = ((size as u64) / (f.block_align as u64)) * (f.block_align as u64);
                return Some((WavPcmLayout { data_total_bytes: total, ..f }, body as u64));
            }
            data = Some((body, size));
        }
        proof {
            let dv = match data {
                Some((o, l)) => Some((o as int, l as int)),
                None => None,
            };
            if next_spec > n {
                lemma_pcm_scan_past_end(bytes@, next_spec, n as int, fmt, dv);
            }
        }
        pos = next;
    }
    None
}

proof fn lemma_div_mul_le(x: int, d: int)
    requires
        0 <= x,
        0 < d,
    ensures
        0 <= (x / d) * d <= x,
{
    assert(0 <= (x / d) * d <= x) by (nonlinear_arith)
        requires
            0 <= x,
            0 < d,
    ;
}

/// Law: the fast PCM reader accepts a written float-WAV header with one to
/// 16383 channels, reports format 3, 32-bit samples, the written rate and
/// channel count, one float per channel per frame, all written sample bytes
/// as whole frames, and the sample data right after the 44 header bytes.
pub proof fn law_f32_header_layout_roundtrip(
    n: int,
    sample_rate: u32,
    channels: u16,
    has_loop: bool,
    rest: Seq<u8>,
)
    requires
        n >= 0,
        1 <= channels <= 16383,
        n % (channels as int) == 0,
        n * 4 < 0x1_0000_0000,
        f32_riff_size(n, has_loop) <= u32::MAX,
    ensures
        pcm_layout_spec(f32_wav_header_spec(n, sample_rate as int, channels as int, has_loop) + rest)
            == Some((
            WavPcmLayout {
                sample_rate,
                channels,
                block_align: (channels * 4) as u16,
                audio_format: 3,
                bits_per_sample: 32,
                data_total_bytes: (n * 4) as u64,
            },
            44int,
        )),
{
    lemma_f32_header_fields(n, sample_rate, channels, has_loop, rest);
    let b = f32_wav_header_spec(n, sample_rate as int, channels as int, has_loop) + rest;
    let ba = f32_block_align(channels as int);
    let ds = f32_data_size(n);
    assert(ba == channels * 4);
    assert(ds == n * 4);
    let f = pcm_fmt_at(b, 20);
    assert(pcm_format_supported(3, channels as int, ba, 32));
    assert(pcm_scan(b, 36, Some(f), None) == Some((Some(f), Some((44int, ds)))));
    assert(pcm_scan(b, 12, None, None) == Some((Some(f), Some((44int, ds)))));
    let k = n / (channels as int);
    assert(ds == k * ba) by (nonlinear_arith)
        requires
            n % (channels as int) == 0,
            channels >= 1,
            k == n / (channels as int),
            ds == n * 4,
            ba == channels * 4,
    ;
    vstd::arithmetic::div_mod::lemma_div_by_multiple(k, ba);
}

// ---------------------------------------------------------------------------
// Linear PCM sample values
// ---------------------------------------------------------------------------

/// The signed value of the `bits`-bit little-endian linear-PCM sample at
/// `b[at..]` (8-bit samples are unsigned with a 128 offset).
pub open spec fn pcm_value(bits: int, b: Seq<u8>, at: int) -> i32 {
    (if bits == 8 {
        b[at] as int - 128
    } else if bits == 16 {
        let u = le16(b, at);
        if u >= 0x8000 {
            u - 0x1_0000
        } else {
            u
        }
    } else if bits == 24 {
        let u = b[at] as int + 256 * (b[at + 1] as int) + 65536 * (b[at + 2] as int);
        if u >= 0x80_0000 {
            u - 0x100_0000
        } else {
            u
        }
    } else {
        let u = le32(b, at);
        if u >= 0x8000_0000 {
            u - 0x1_0000_0000
        } else {
            u
        }
    }) as i32
}

/// The samples of the frame at `b[start..start + baf]`: one per whole
/// sample width, trailing bytes ignored.
pub open spec fn pcm_frame(bits: int, b: Seq<u8>, start: int, baf: int) -> Seq<i32> {
    Seq::new((baf / (bits / 8)) as nat, |j: int| pcm_value(bits, b, start + j * (bits / 8)))
}

/// Whether the sample size is one the linear-PCM decoder handles.
pub open spec fn pcm_bits_supported(bits: int) -> bool {
    bits == 8 || bits == 16 || bits == 24 || bits == 32
}

/// The samples of whole frames of `baf` bytes, frame after frame, or `None`
/// when the bytes are not whole frames or the sample size is unsupported.
pub open spec fn pcm_samples_spec(bits: int, baf: int, b: Seq<u8>) -> Option<Seq<i32>> {
    if baf == 0 || (b.len() as int) % baf != 0 || !pcm_bits_supported(bits) {
        None
    } else {
        Some(Seq::new(((b.len() as int) / baf) as nat, |f: int| pcm_frame(bits, b, f * baf, baf)).flatten())
    }
}

fn pcm_value_at(bits: u16, b: &[u8], at: usize) -> (r: i32)
    requires
        pcm_bits_supported(bits as int),
        at + (bits / 8) as int <= b@.len(),
    ensures
        r == pcm_value(bits as int, b@, at as int),
{
    if bits == 8 {
        (b[at] as i32) - 128
    } else if bits == 16 {
        let u = (b[at] as i32) + (b[at + 1] as i32) * 256;
        if u >= 0x8000 {
            u - 0x1_0000
        } else {
            u
        }
    } else if bits == 24 {
        let u = (b[at] as i32) + (b[at + 1] as i32) * 256 + (b[at + 2] as i32) * 65536;
        if u >= 0x80_0000 {
            u - 0x100_0000
        } else {
            u
        }
    } else {
        let u = (b[at] as i64) + (b[at + 1] as i64) * 256 + (b[at + 2] as i64) * 65536 + (b[at
            + 3] as i64) * 16777216;
        if u >= 0x8000_0000 {
            (u - 0x1_0000_0000) as i32
        } else {
            u as i32
        }
    }
}

proof fn lemma_frame_bounds(f: int, frames: int, baf: int, n: int)
    requires
        0 <= f < frames,
        0 < baf,
        frames == n / baf,
        0 <= n,
    ensures
        (f + 1) * baf <= n,
        f * baf + baf == (f + 1) * baf,
{
    assert((f + 1) * baf <= (n / baf) * baf) by (nonlinear_arith)
        requires
            f + 1 <= n / baf,
            0 < baf,
    ;
    assert((n / baf) * baf <= n) by (nonlinear_arith)
        requires
            0 < baf,
            0 <= n,
    ;
    assert(f * baf + baf == (f + 1) * baf) by (nonlinear_arith);
}

proof fn lemma_sample_bounds(j: int, per: int, k: int, baf: int)
    requires
        0 <= j < per,
        0 < k,
        per == baf / k,
        0 <= baf,
    ensures
        j * k + k <= baf,
        j * k + k == (j + 1) * k,
{
    assert((j + 1) * k <= (baf / k) * k) by (nonlinear_arith)
        requires
            j + 1 <= baf / k,
            0 < k,
    ;
    assert((baf / k) * k <= baf) by (nonlinear_arith)
        requires
            0 < k,
            0 <= baf,
    ;
    assert(j * k + k == (j + 1) * k) by (nonlinear_arith);
}

/// Flattening frames that all hold `c` samples puts sample `i` at frame
/// `i / c`, position `i % c`.
proof fn lemma_flatten_uniform(ss: Seq<Seq<i32>>, c: int)
    requires
        c > 0,
        forall|i: int| 0 <= i < ss.len() ==> (#[trigger] ss[i]).len() == c,
    ensures
        ss.flatten().len() == ss.len() * c,
        forall|i: int| 0 <= i < ss.len() * c ==> #[trigger] ss.flatten()[i] == ss[i / c][i % c],
    decreases ss.len(),
{
    if ss.len() > 0 {
        let rest = ss.drop_first();
        assert forall|i: int| 0 <= i < rest.len() implies (#[trigger] rest[i]).len() == c by {
            assert(rest[i] == ss[i + 1]);
        }
        lemma_flatten_uniform(rest, c);
        assert(ss.len() * c == c + rest.len() * c) by (nonlinear_arith)
            requires
                rest.len() == ss.len() - 1,
        ;
        let fl = ss.flatten();
        assert(fl == ss[0] + rest.flatten());
        assert forall|i: int| 0 <= i < ss.len() * c implies #[trigger] fl[i] == ss[i / c][i % c] by {
            if i < c {
                vstd::arithmetic::div_mod::lemma_fundamental_div_mod_converse(i, c, 0, i);
            } else {
                let q = (i - c) / c;
                let r = (i - c) % c;
                vstd::arithmetic::div_mod::lemma_fundamental_div_mod(i - c, c);
                vstd::arithmetic::div_mod::lemma_mod_pos_bound(i - c, c);
                assert(i == (q + 1) * c + r) by (nonlinear_arith)
                    requires
                        i - c == c * q + r,
                ;
                vstd::arithmetic::div_mod::lemma_fundamental_div_mod_converse(i, c, q + 1, r);
                assert(0 <= q) by (nonlinear_arith)
                    requires
                        i - c == c * q + r,
                        0 <= r < c,
                        i - c >= 0,
                ;
                assert(q < rest.len()) by (nonlinear_arith)
                    requires
                        i - c == c * q + r,
                        0 <= r,
                        i - c < rest.len() * c,
                        c > 0,
                ;
                assert(fl[i] == rest.flatten()[i - c]);
                assert(rest[q] == ss[q + 1]);
            }
        }
    }
}

/// Law: decoding reads each sample as a little-endian integer at its byte
/// offset — sample `k` of a `bits`-bit stream starts at byte `k * bits / 8`,
/// whatever the frame size: 8-bit samples are unsigned with an offset of
/// 128, wider ones are two's complement with the sign in the last (highest)
/// byte.  Whole frames decode to one sample per sample width of bytes.
pub proof fn law_pcm_samples_little_endian(bits: int, baf: int, b: Seq<u8>)
    requires
        pcm_bits_supported(bits),
        baf > 0,
        baf % (bits / 8) == 0,
        (b.len() as int) % baf == 0,
    ensures
        pcm_samples_spec(bits, baf, b) matches Some(v) && v.len() * (bits / 8) == b.len() && forall|
            k: int,
        |
            0 <= k < v.len() ==> {
                let at = k * (bits / 8);
                &&& bits == 8 ==> #[trigger] v[k] == b[at] as int - 128
                &&& bits == 16 ==> v[k] == b[at] as int + 256 * (b[at + 1] as int) - (if b[at + 1]
                    >= 128 {
                    0x1_0000int
                } else {
                    0int
                })
                &&& bits == 24 ==> v[k] == b[at] as int + 256 * (b[at + 1] as int) + 65536 * (b[at
                    + 2] as int) - (if b[at + 2] >= 128 {
                    0x100_0000int
                } else {
                    0int
                })
                &&& bits == 32 ==> v[k] == b[at] as int + 256 * (b[at + 1] as int) + 65536 * (b[at
                    + 2] as int) + 16777216 * (b[at + 3] as int) - (if b[at + 3] >= 128 {
                    0x1_0000_0000int
                } else {
                    0int
                })
            },
{
    let w = bits / 8;
    let n = b.len() as int;
    let per = baf / w;
    let frames = n / baf;
    let ss = Seq::new(frames as nat, |f: int| pcm_frame(bits, b, f * baf, baf));
    vstd::arithmetic::div_mod::lemma_fundamental_div_mod(baf, w);
    vstd::arithmetic::div_mod::lemma_fundamental_div_mod(n, baf);
    assert(per > 0) by (nonlinear_arith)
        requires
            baf == w * per,
            baf > 0,
            w > 0,
    ;
    assert forall|i: int| 0 <= i < ss.len() implies (#[trigger] ss[i]).len() == per by {}
    lemma_flatten_uniform(ss, per);
    let v = ss.flatten();
    assert(pcm_samples_spec(bits, baf, b) == Some(v));
    assert(v.len() * w == n) by (nonlinear_arith)
        requires
            v.len() == frames * per,
            baf == w * per,
            n == baf * frames,
    ;
    assert forall|k: int| 0 <= k < v.len() implies {
        let at = k * (bits / 8);
        &&& bits == 8 ==> #[trigger] v[k] == b[at] as int - 128
        &&& bits == 16 ==> v[k] == b[at] as int + 256 * (b[at + 1] as int) - (if b[at + 1] >= 128 {
            0x1_0000int
        } else {
            0int
        })
        &&& bits == 24 ==> v[k] == b[at] as int + 256 * (b[at + 1] as int) + 65536 * (b[at + 2] as int)
            - (if b[at + 2] >= 128 {
            0x100_0000int
        } else {
            0int
        })
        &&& bits == 32 ==> v[k] == b[at] as int + 256 * (b[at + 1] as int) + 65536 * (b[at + 2] as int)
            + 16777216 * (b[at + 3] as int) - (if b[at + 3] >= 128 {
            0x1_0000_0000int
        } else {
            0int
        })
    } by {
        let f = k / per;
        let j = k % per;
        vstd::arithmetic::div_mod::lemma_fundamental_div_mod(k, per);
        vstd::arithmetic::div_mod::lemma_mod_pos_bound(k, per);
        assert(0 <= f < frames) by (nonlinear_arith)
            requires
                k == per * f + j,
                0 <= j < per,
                0 <= k < frames * per,
        ;
        assert(f * baf + j * w == k * w) by (nonlinear_arith)
            requires
                k == per * f + j,
                baf == w * per,
        ;
        assert(v[k] == ss[f][j]);
        assert(v[k] == pcm_value(bits, b, k * w));
    }
}

/// Decodes whole frames of little-endian linear PCM (8-bit unsigned or
/// 16/24/32-bit signed) into signed sample values, frame after frame.
pub fn decode_linear_pcm(bits_per_sample: u16, baf: usize, bytes: &[u8]) -> (r: Result<Vec<i32>, ()>)
    ensures
        match r {
            Ok(v) => pcm_samples_spec(bits_per_sample as int, baf as int, bytes@) == Some(v@),
            Err(_) => pcm_samples_spec(bits_per_sample as int, baf as int, bytes@) is None,
        },
{
    let n = bytes.len();
    if baf == 0 || n % baf != 0 {
        return Err(());
    }
    if !(bits_per_sample == 8 || bits_per_sample == 16 || bits_per_sample == 24 || bits_per_sample
        == 32) {
        return Err(());
    }
    let k: usize = (bits_per_sample / 8) as usize;
    let per: usize = baf / k;
    let frames: usize = n / baf;
    let ghost bits = bits_per_sample as int;
    let ghost all = Seq::new(frames as nat, |f: int| pcm_frame(bits, bytes@, f * baf, baf as int));
    let mut out: Vec<i32> = Vec::new();
    let mut f: usize = 0;
    let mut start: usize = 0;
    assert(all.take(0) =~= Seq::<Seq<i32>>::empty());
    while f < frames
        invariant
            n == bytes@.len(),
            0 < baf,
            k as int == bits / 8,
            0 < k,
            per == baf / k,
            frames == n / baf,
            pcm_bits_supported(bits),
            bits == bits_per_sample as int,
            f <= frames,
            start == f * baf,
            all == Seq::new(frames as nat, |i: int| pcm_frame(bits, bytes@, i * baf, baf as int)),
            out@ == all.take(f as int).flatten(),
        decreases frames - f,
    {
        proof {
            lemma_frame_bounds(f as int, frames as int, baf as int, n as int);
        }
        let ghost frame = pcm_frame(bits, bytes@, start as int, baf as int);
        let ghost before = out@;
        let mut j: usize = 0;
        let mut at: usize = start;
        while j < per
            invariant
                n == bytes@.len(),
                0 < k,
                k as int == bits / 8,
                per == baf / k,
                pcm_bits_supported(bits),
                bits == bits_per_sample as int,
                start + baf <= n,
                j <= per,
                at == start + j * k,
                frame == pcm_frame(bits, bytes@, start as int, baf as int),
                out@ == before + frame.take(j as int),
            decreases per - j,
        {
            proof {
                lemma_sample_bounds(j as int, per as int, k as int, baf as int);
            }
            let v = pcm_value_at(bits_per_sample, bytes, at);
            out.push(v);
            assert(frame.take(j + 1) =~= frame.take(j as int).push(v));
            j = j + 1;
            at = at + k;
        }
        proof {
            assert(frame.take(per as int) =~= frame);
            assert(all[f as int] == frame);
            assert(all.take(f + 1) =~= all.take(f as int).push(frame));
            all.take(f as int).lemma_flatten_push(frame);
        }
        f = f + 1;
        start = start + baf;
    }
    assert(all.take(frames as int) =~= all);
    Ok(out)
}

// ---------------------------------------------------------------------------
// Streaming linear PCM in chunks
// ---------------------------------------------------------------------------

/// Seconds of audio per streamed chunk.
pub const PCM_CHUNK_SECS: u32 = 2;

/// Bytes per streamed chunk: [`PCM_CHUNK_SECS`] seconds of frames (at least
/// one frame) times the block alignment; an error where that does not fit
/// the machine's `usize`.
pub fn wav_stream_chunk_bytes(sample_rate: u32, block_align: u16) -> (r: Result<usize, String>)
    ensures
        ({
            let frames = if PCM_CHUNK_SECS * sample_rate >= 1 {
                PCM_CHUNK_SECS * sample_rate
            } else {
                1
            };
            match r {
                Ok(n) => n == frames * block_align,
                Err(m) => frames * block_align > usize::MAX && m@ == "chunk too large"@,
            }
        }),
{
    let secs: u64 = PCM_CHUNK_SECS as u64;
    assert(secs == 2);
    let frames: u64 = secs * (sample_rate as u64);
    let frames: u64 = if frames >= 1 {
        frames
    } else {
        1
    };
    assert(frames * block_align <= 0x2_0000_0000 * 0x1_0000) by (nonlinear_arith)
        requires
            frames <= 0x2_0000_0000,
            block_align <= 0xFFFF,
    ;
    let bytes: u64 = frames * (block_align as u64);
    if bytes > usize::MAX as u64 {
        return Err(String::from_str("chunk too large"));
    }
    Ok(bytes as usize)
}

/// Samples per streamed chunk of decoded audio: [`PCM_CHUNK_SECS`] seconds
/// of frames (at least one) times the channel count, kept to `usize` and at
/// least one frame.
pub open spec fn decoded_chunk_samples_spec(sample_rate: int, channels: int) -> int {
    let frames = if PCM_CHUNK_SECS * sample_rate >= 1 {
        PCM_CHUNK_SECS * sample_rate
    } else {
        1
    };
    let f = if frames > usize::MAX {
        usize::MAX as int
    } else {
        frames
    };
    let t = if f * channels > usize::MAX {
        usize::MAX as int
    } else {
        f * channels
    };
    if t >= channels {
        t
    } else {
        channels
    }
}

/// How many interleaved samples the decoder gathers before handing on a
/// chunk (see [`decoded_chunk_samples_spec`]); a whole number of frames
/// unless that count does not fit `usize`.
pub fn decoded_chunk_samples(sample_rate: u32, channels: u16) -> (r: usize)
    requires
        channels >= 1,
    ensures
        r == decoded_chunk_samples_spec(sample_rate as int, channels as int),
        r >= channels,
        decoded_chunk_samples_spec(sample_rate as int, channels as int) < usize::MAX ==> (r as int)
            % (channels as int) == 0,
{
    let secs: u64 = PCM_CHUNK_SECS as u64;
    assert(secs == 2);
    let frames: u64 = secs * (sample_rate as u64);
    let frames: u64 = if frames >= 1 {
        frames
    } else {
        1
    };
    let f: usize = if frames > usize::MAX as u64 {
        usize::MAX
    } else {
        frames as usize
    };
    let ch: usize = channels as usize;
    assert(f >= 1);
    let t: usize = match f.checked_mul(ch) {
        Some(x) => {
            assert(x >= ch) by (nonlinear_arith)
                requires
                    f >= 1,
                    x == f * ch,
            ;
            x
        },
        None => usize::MAX,
    };
    assert(t < usize::MAX ==> t == f * ch);
    let r = if t >= ch {
        t
    } else {
        ch
    };
    proof {
        if r < usize::MAX {
            assert(r == f * ch);
            assert(((f * ch) as int) % (ch as int) == 0) by (nonlinear_arith)
                requires
                    ch >= 1,
            ;
        }
    }
    r
}

/// One decision of the chunked reader.
#[derive(Debug, Clone, Copy, PartialEq, Eq, Structural)]
pub enum WavStreamStep {
    /// Nothing is left to read.
    Done,
    /// Read and send this many bytes next.
    Read(usize),
    /// What is left holds no whole frame.
    Misaligned,
}

/// What the chunked reader does next with `remaining` bytes of `data` left:
/// stop when nothing is left; otherwise read the whole frames of at most one
/// chunk, or report misaligned data when that is no frame at all.
pub open spec fn stream_step_spec(remaining: int, chunk_bytes: int, block_align: int) -> WavStreamStep {
    if remaining == 0 {
        WavStreamStep::Done
    } else {
        let raw = if chunk_bytes <= remaining { chunk_bytes } else { remaining };
        let n = (raw / block_align) * block_align;
        if n == 0 {
            WavStreamStep::Misaligned
        } else {
            WavStreamStep::Read(n as usize)
        }
    }
}

/// The next step of the chunked reader (see [`stream_step_spec`]).
pub fn wav_stream_step(remaining: usize, chunk_bytes: usize, block_align: u16) -> (r: WavStreamStep)
    requires
        block_align > 0,
    ensures
        r == stream_step_spec(remaining as int, chunk_bytes as int, block_align as int),
        r matches WavStreamStep::Read(n) ==> 0 < n <= remaining && n <= chunk_bytes && (n as int)
            % (block_align as int) == 0,
{
    if remaining == 0 {
        return WavStreamStep::Done;
    }
    let raw = if chunk_bytes <= remaining {
        chunk_bytes
    } else {
        remaining
    };
    let baf = block_align as usize;
    let q = raw / baf;
    assert(q * baf <= raw) by (nonlinear_arith)
        requires
            q == raw / baf,
            baf > 0,
    ;
    assert((q * baf) % (baf as int) == 0) by (nonlinear_arith)
        requires
            baf > 0,
    ;
    let n = q * baf;
    if n == 0 {
        WavStreamStep::Misaligned
    } else {
        WavStreamStep::Read(n)
    }
}

/// Law: streaming whole frames in chunks of whole frames never meets
/// misaligned data, and each read leaves whole frames behind.
pub proof fn law_aligned_stream_never_misaligned(remaining: int, chunk_bytes: int, block_align: int)
    requires
        block_align > 0,
        0 < remaining <= usize::MAX,
        remaining % block_align == 0,
        chunk_bytes >= block_align,
    ensures
        stream_step_spec(remaining, chunk_bytes, block_align) matches WavStreamStep::Read(n) && (
        remaining - n) % block_align == 0 && n <= remaining,
{
    let raw = if chunk_bytes <= remaining { chunk_bytes } else { remaining };
    let n = (raw / block_align) * block_align;
    assert(remaining >= block_align) by (nonlinear_arith)
        requires
            remaining > 0,
            remaining % block_align == 0,
            block_align > 0,
    ;
    assert(n >= block_align && n <= raw && n % block_align == 0) by (nonlinear_arith)
        requires
            raw >= block_align,
            block_align > 0,
            n == (raw / block_align) * block_align,
    ;
    let k1 = remaining / block_align;
    let k2 = raw / block_align;
    vstd::arithmetic::div_mod::lemma_fundamental_div_mod(remaining, block_align);
    assert(remaining - n == (k1 - k2) * block_align) by (nonlinear_arith)
        requires
            remaining == block_align * k1,
            n == k2 * block_align,
    ;
    vstd::arithmetic::div_mod::lemma_mod_multiples_basic(k1 - k2, block_align);
}

} // verus!
