//! RIFF/WAVE container parsing for 16-bit PCM samples, and sample file names.

use vstd::prelude::*;
use vstd::string::StringSliceAdditionalSpecFns;

use crate::bus::ascii_lower;
use crate::pitch::letter_pitch_class;
use crate::text::{all_digits, all_digits_in, split_text_at};

verus! {

/// Why a WAV file was refused.
#[derive(Debug, Clone, Copy, PartialEq, Eq)]
pub enum WavError {
    /// No `RIFF` / `WAVE` header.
    NotRiff,
    /// A chunk's end does not fit in the address space.
    ChunkOverflows,
    /// A chunk runs past the end of the file.
    ChunkTruncated,
    /// No `fmt ` chunk.
    MissingFmt,
    /// No `data` chunk.
    MissingData,
    /// The format declares zero channels.
    NoChannels,
    /// The `fmt ` chunk is shorter than 16 bytes.
    FmtTooShort,
    /// The format is not integer PCM.
    NotPcm,
    /// The samples are not 16-bit.
    Not16Bit,
}

impl WavError {
    /// Human-readable description of the error.
    pub fn message(&self) -> (r: &'static str)
        ensures
            r@ == match *self {
                WavError::NotRiff => "not a RIFF/WAVE file"@,
                WavError::ChunkOverflows => "WAV chunk overflows"@,
                WavError::ChunkTruncated => "WAV chunk truncated"@,
                WavError::MissingFmt => "WAV missing fmt chunk"@,
                WavError::MissingData => "WAV missing data chunk"@,
                WavError::NoChannels => "WAV has no channels"@,
                WavError::FmtTooShort => "WAV fmt chunk too short"@,
                WavError::NotPcm => "WAV must be PCM"@,
                WavError::Not16Bit => "WAV must be 16-bit"@,
            },
    {
        match self {
            WavError::NotRiff => "not a RIFF/WAVE file",
            WavError::ChunkOverflows => "WAV chunk overflows",
            WavError::ChunkTruncated => "WAV chunk truncated",
            WavError::MissingFmt => "WAV missing fmt chunk",
            WavError::MissingData => "WAV missing data chunk",
            WavError::NoChannels => "WAV has no channels",
            WavError::FmtTooShort => "WAV fmt chunk too short",
            WavError::NotPcm => "WAV must be PCM",
            WavError::Not16Bit => "WAV must be 16-bit",
        }
    }
}

/// Decoded 16-bit PCM: channel count, sample rate, interleaved samples.
#[derive(Debug, Clone, PartialEq, Eq)]
pub struct WavPcm {
    pub channels: u16,
    pub sample_rate: u32,
    pub samples: Vec<i16>,
}

/// Little-endian `u16` at `d[i..i + 2]`.
pub open spec fn le_u16(d: Seq<u8>, i: int) -> int {
    d[i] + 256 * d[i + 1]
}

/// Little-endian `u32` at `d[i..i + 4]`.
pub open spec fn le_u32(d: Seq<u8>, i: int) -> int {
    d[i] + 256 * d[i + 1] + 65536 * d[i + 2] + 16777216 * d[i + 3]
}

/// Little-endian two's-complement `i16` from two bytes.
pub open spec fn le_i16(lo: u8, hi: u8) -> int {
    let u = lo + 256 * hi;
    if u >= 32768 {
        u - 65536
    } else {
        u
    }
}

/// `d[i..i + 4]` spells the four ASCII bytes `w`.
pub open spec fn tag_at(d: Seq<u8>, i: int, w: Seq<u8>) -> bool {
    d[i] == w[0] && d[i + 1] == w[1] && d[i + 2] == w[2] && d[i + 3] == w[3]
}

/// `RIFF`.
pub open spec fn riff_tag() -> Seq<u8> {
    seq![82u8, 73u8, 70u8, 70u8]
}

/// `WAVE`.
pub open spec fn wave_tag() -> Seq<u8> {
    seq![87u8, 65u8, 86u8, 69u8]
}

/// `fmt `.
pub open spec fn fmt_tag() -> Seq<u8> {
    seq![102u8, 109u8, 116u8, 32u8]
}

/// `data`.
pub open spec fn data_tag() -> Seq<u8> {
    seq![100u8, 97u8, 116u8, 97u8]
}

/// `(channels, sample_rate)` of a `fmt ` chunk body, or why it is refused.
pub open spec fn fmt_spec(c: Seq<u8>) -> Result<(u16, u32), WavError> {
    if c.len() < 16 {
        Err(WavError::FmtTooShort)
    } else if le_u16(c, 0) != 1 {
        Err(WavError::NotPcm)
    } else if le_u16(c, 14) != 16 {
        Err(WavError::Not16Bit)
    } else {
        Ok((le_u16(c, 2) as u16, le_u32(c, 4) as u32))
    }
}

/// Walk the chunks of `d` from `off`, keeping the last `fmt ` and `data` chunks seen.
pub open spec fn walk(
    d: Seq<u8>,
    off: int,
    fmt: Option<(u16, u32)>,
    pcm: Option<(int, int)>,
) -> Result<(Option<(u16, u32)>, Option<(int, int)>), WavError>
    decreases d.len() - off,
{
    if off < 0 || off + 8 > d.len() {
        Ok((fmt, pcm))
    } else {
        let start = off + 8;
        let end = start + le_u32(d, off + 4);
        if end > usize::MAX {
            Err(WavError::ChunkOverflows)
        } else if end > d.len() {
            Err(WavError::ChunkTruncated)
        } else {
            let next = if le_u32(d, off + 4) % 2 == 1 && end < d.len() {
                end + 1
            } else {
                end
            };
            if tag_at(d, off, fmt_tag()) {
                match fmt_spec(d.subrange(start, end)) {
                    Err(e) => Err(e),
                    Ok(f) => walk(d, next, Some(f), pcm),
                }
            } else if tag_at(d, off, data_tag()) {
                walk(d, next, fmt, Some((start, end)))
            } else {
                walk(d, next, fmt, pcm)
            }
        }
    }
}

/// What a WAV file holds: `(channels, sample_rate, data start, data end)`, or why it is refused.
pub open spec fn wav_spec(d: Seq<u8>) -> Result<(u16, u32, int, int), WavError> {
    if d.len() < 12 || !tag_at(d, 0, riff_tag()) || !tag_at(d, 8, wave_tag()) {
        Err(WavError::NotRiff)
    } else {
        match walk(d, 12, None, None) {
            Err(e) => Err(e),
            Ok((None, _)) => Err(WavError::MissingFmt),
            Ok((Some(_), None)) => Err(WavError::MissingData),
            Ok((Some((channels, rate)), Some((start, end)))) => if channels == 0 {
                Err(WavError::NoChannels)
            } else {
                Ok((channels, rate, start, end))
            },
        }
    }
}

/// The 16-bit samples of `d[start..end]`, a trailing odd byte ignored.
pub open spec fn samples_spec(d: Seq<u8>, start: int, end: int) -> Seq<i16> {
    Seq::new(
        ((end - start) / 2) as nat,
        |k: int| le_i16(d[start + 2 * k], d[start + 2 * k + 1]) as i16,
    )
}

fn read_u16(d: &[u8], i: usize) -> (r: u16)
    requires
        i + 2 <= d@.len(),
    ensures
        r as int == le_u16(d@, i as int),
{
    d[i] as u16 + (d[i + 1] as u16) * 256
}

fn read_u32(d: &[u8], i: usize) -> (r: u32)
    requires
        i + 4 <= d@.len(),
    ensures
        r as int == le_u32(d@, i as int),
{
    d[i] as u32 + (d[i + 1] as u32) * 256 + (d[i + 2] as u32) * 65536 + (d[i + 3] as u32)
        * 16777216
}

fn tag_is(d: &[u8], i: usize, w: [u8; 4]) -> (r: bool)
    requires
        i + 4 <= d@.len(),
    ensures
        r == tag_at(d@, i as int, w@),
{
    d[i] == w[0] && d[i + 1] == w[1] && d[i + 2] == w[2] && d[i + 3] == w[3]
}

/// `(channels, sample_rate)` of the `fmt ` chunk body `d[start..end]`.
pub fn parse_fmt_chunk(d: &[u8], start: usize, end: usize) -> (r: Result<(u16, u32), WavError>)
    requires
        start <= end <= d@.len(),
    ensures
        r == fmt_spec(d@.subrange(start as int, end as int)),
{
    let ghost c = d@.subrange(start as int, end as int);
    if end - start < 16 {
        return Err(WavError::FmtTooShort);
    }
    let format = read_u16(d, start);
    let channels = read_u16(d, start + 2);
    let rate = read_u32(d, start + 4);
    let bits = read_u16(d, start + 14);
    assert(le_u16(c, 0) == le_u16(d@, start as int));
    assert(le_u16(c, 2) == le_u16(d@, start + 2));
    assert(le_u32(c, 4) == le_u32(d@, start + 4));
    assert(le_u16(c, 14) == le_u16(d@, start + 14));
    if format != 1 {
        return Err(WavError::NotPcm);
    }
    if bits != 16 {
        return Err(WavError::Not16Bit);
    }
    Ok((channels, rate))
}

/// Decode a RIFF/WAVE file of 16-bit PCM into its format and samples.
///
/// The last `fmt ` and `data` chunks win; odd-sized chunks are padded by a byte.
pub fn parse_wav(data: &[u8]) -> (r: Result<WavPcm, WavError>)
    ensures
        match wav_spec(data@) {
            Err(e) => r == Err::<WavPcm, WavError>(e),
            Ok((channels, rate, start, end)) => r matches Ok(p) && p.channels == channels
                && p.sample_rate == rate && p.samples@ == samples_spec(data@, start, end),
        },
{
    let riff: [u8; 4] = [82, 73, 70, 70];
    let wave: [u8; 4] = [87, 65, 86, 69];
    let fmt_id: [u8; 4] = [102, 109, 116, 32];
    let data_id: [u8; 4] = [100, 97, 116, 97];
    assert(riff@ == riff_tag());
    assert(wave@ == wave_tag());
    assert(fmt_id@ == fmt_tag());
    assert(data_id@ == data_tag());
    if data.len() < 12 || !tag_is(data, 0, riff) || !tag_is(data, 8, wave) {
        return Err(WavError::NotRiff);
    }
    let mut offset: usize = 12;
    let mut fmt: Option<(u16, u32)> = None;
    let mut pcm: Option<(usize, usize)> = None;
    let ghost d = data@;
    while offset <= data.len() && data.len() - offset >= 8
        invariant
            12 <= offset,
            d == data@,
            d.len() >= 12,
            tag_at(d, 0, riff_tag()),
            tag_at(d, 8, wave_tag()),
            fmt_id@ == fmt_tag(),
            data_id@ == data_tag(),
            pcm matches Some((s, e)) ==> s <= e <= d.len(),
            walk(d, 12, None, None) == walk(
                d,
                offset as int,
                fmt,
                match pcm {
                    Some((s, e)) => Some((s as int, e as int)),
                    None => None,
                },
            ),
        decreases d.len() - offset,
    {
        let size = read_u32(data, offset + 4) as usize;
        let start = offset + 8;
        if size > usize::MAX - start {
            return Err(WavError::ChunkOverflows);
        }
        let end = start + size;
        if end > data.len() {
            return Err(WavError::ChunkTruncated);
        }
        let next = if size % 2 == 1 && end < data.len() {
            end + 1
        } else {
            end
        };
        if tag_is(data, offset, fmt_id) {
            match parse_fmt_chunk(data, start, end) {
                Err(e) => {
                    return Err(e);
                },
                Ok(f) => {
                    fmt = Some(f);
                },
            }
        } else if tag_is(data, offset, data_id) {
            pcm = Some((start, end));
        }
        offset = next;
    }
    let (channels, rate) = match fmt {
        None => {
            return Err(WavError::MissingFmt);
        },
        Some(f) => f,
    };
    let (start, end) = match pcm {
        None => {
            return Err(WavError::MissingData);
        },
        Some(p) => p,
    };
    if channels == 0 {
        return Err(WavError::NoChannels);
    }
    let samples = pcm16_samples(data, start, end);
    Ok(WavPcm { channels, sample_rate: rate, samples })
}

/// Little-endian 16-bit samples of `d[start..end]`; a trailing odd byte is ignored.
pub fn pcm16_samples(d: &[u8], start: usize, end: usize) -> (r: Vec<i16>)
    requires
        start <= end <= d@.len(),
    ensures
        r@ == samples_spec(d@, start as int, end as int),
{
    let n = (end - start) / 2;
    let mut out: Vec<i16> = Vec::new();
    let mut k: usize = 0;
    while k < n
        invariant
            0 <= k <= n,
            n == (end - start) / 2,
            start <= end <= d@.len(),
            out@ =~= samples_spec(d@, start as int, end as int).subrange(0, k as int),
        decreases n - k,
    {
        let lo = d[start + 2 * k];
        let hi = d[start + 2 * k + 1];
        let u = lo as u32 + (hi as u32) * 256;
        let s: i16 = if u >= 32768 {
            (u as i32 - 65536) as i16
        } else {
            u as i16
        };
        assert(s as int == le_i16(lo, hi));
        out.push(s);
        k = k + 1;
    }
    out
}

/// Byte `k` of `v` in little-endian order (byte 0 is the least significant).
pub open spec fn le_byte(v: nat, k: int) -> u8 {
    (if k == 0 {
        v % 256
    } else if k == 1 {
        (v / 256) % 256
    } else if k == 2 {
        (v / 65536) % 256
    } else {
        (v / 16777216) % 256
    }) as u8
}

/// The four little-endian bytes of a `u32` give back the number.
proof fn lemma_le_bytes_u32(v: nat)
    requires
        v <= u32::MAX,
    ensures
        le_byte(v, 0) + 256 * le_byte(v, 1) + 65536 * le_byte(v, 2) + 16777216 * le_byte(v, 3)
            == v,
{
    let w = v as u32;
    assert(w % 256 + 256 * ((w / 256) % 256) + 65536 * ((w / 65536) % 256) + 16777216 * ((w
        / 16777216) % 256) == w) by (bit_vector);
}

/// The two little-endian bytes of a `u16` give back the number.
proof fn lemma_le_bytes_u16(v: nat)
    requires
        v <= u16::MAX,
    ensures
        le_byte(v, 0) + 256 * le_byte(v, 1) == v,
{
    let w = v as u16;
    assert(w % 256 + 256 * ((w / 256) % 256) == w) by (bit_vector);
}

/// Whatever `u32` is written little-endian at `d[i..i + 4]` is read back:
/// a chunk size or a sample rate is the full value of its four bytes.
pub proof fn lemma_le_u32_reads_written(d: Seq<u8>, i: int, v: u32)
    requires
        0 <= i,
        i + 4 <= d.len(),
        forall|k: int| 0 <= k < 4 ==> d[i + k] == le_byte(v as nat, k),
    ensures
        le_u32(d, i) == v,
{
    assert(d[i] == le_byte(v as nat, 0));
    assert(d[i + 1] == le_byte(v as nat, 1));
    assert(d[i + 2] == le_byte(v as nat, 2));
    assert(d[i + 3] == le_byte(v as nat, 3));
    lemma_le_bytes_u32(v as nat);
}

/// Every `i16` written as two's-complement little-endian bytes is read back.
pub proof fn lemma_le_i16_reads_written(x: i16)
    ensures
        ({
            let u: int = if x < 0 {
                x + 65536
            } else {
                x as int
            };
            le_i16((u % 256) as u8, (u / 256) as u8) == x
        }),
{
    let u: int = if x < 0 {
        x + 65536
    } else {
        x as int
    };
    assert(0 <= u < 65536);
    assert((u % 256) + 256 * (u / 256) == u);
}

/// Byte `i` of the 44-byte header of a canonical 16-bit PCM WAV file with
/// `channels` channels at `rate` Hz and `n` bytes of audio: `RIFF`, the file
/// size less 8, `WAVE`, a 16-byte `fmt ` chunk (PCM, channels, rate, byte
/// rate, block align, 16 bits), then the `data` chunk header.
pub open spec fn pcm16_header_byte(channels: u16, rate: u32, n: nat, i: int) -> u8 {
    let align: nat = (2 * channels) as nat % 65536;
    let byte_rate: nat = (rate * align) as nat % 4294967296;
    if i < 4 {
        seq![82u8, 73u8, 70u8, 70u8][i]
    } else if i < 8 {
        le_byte(36 + n, i - 4)
    } else if i < 12 {
        seq![87u8, 65u8, 86u8, 69u8][i - 8]
    } else if i < 16 {
        seq![102u8, 109u8, 116u8, 32u8][i - 12]
    } else if i < 20 {
        le_byte(16, i - 16)
    } else if i < 22 {
        le_byte(1, i - 20)
    } else if i < 24 {
        le_byte(channels as nat, i - 22)
    } else if i < 28 {
        le_byte(rate as nat, i - 24)
    } else if i < 32 {
        le_byte(byte_rate, i - 28)
    } else if i < 34 {
        le_byte(align, i - 32)
    } else if i < 36 {
        le_byte(16, i - 34)
    } else if i < 40 {
        seq![100u8, 97u8, 116u8, 97u8][i - 36]
    } else {
        le_byte(n, i - 40)
    }
}

/// A canonical 16-bit PCM WAV file holding the audio bytes `audio`.
pub open spec fn pcm16_file(channels: u16, rate: u32, audio: Seq<u8>) -> Seq<u8> {
    Seq::new(44, |i: int| pcm16_header_byte(channels, rate, audio.len(), i)) + audio
}

/// A well-formed file decodes to what was written in it: its channel count,
/// its sample rate, and, for `N` bytes of audio, `N / 2` samples, sample `k`
/// being the little-endian `i16` of audio bytes `2k` and `2k + 1`.
pub proof fn lemma_canonical_wav_decodes(channels: u16, rate: u32, audio: Seq<u8>)
    requires
        channels > 0,
        audio.len() + 36 <= u32::MAX,
        audio.len() + 44 <= usize::MAX,
    ensures
        wav_spec(pcm16_file(channels, rate, audio)) == Ok::<(u16, u32, int, int), WavError>(
            (channels, rate, 44, 44 + audio.len() as int),
        ),
        samples_spec(pcm16_file(channels, rate, audio), 44, 44 + audio.len() as int) == Seq::new(
            audio.len() / 2,
            |k: int| le_i16(audio[2 * k], audio[2 * k + 1]) as i16,
        ),
{
    let n: int = audio.len() as int;
    let d = pcm16_file(channels, rate, audio);
    assert(d.len() == 44 + n);
    assert forall|i: int| 0 <= i < 44 implies d[i] == pcm16_header_byte(
        channels,
        rate,
        audio.len(),
        i,
    ) by {}
    assert forall|k: int| 0 <= k < n implies d[44 + k] == audio[k] by {}
    assert(tag_at(d, 0, riff_tag()));
    assert(tag_at(d, 8, wave_tag()));
    assert(tag_at(d, 12, fmt_tag()));
    assert(tag_at(d, 36, data_tag()));
    assert(!tag_at(d, 36, fmt_tag()));
    lemma_le_u32_reads_written(d, 16, 16);
    lemma_le_u32_reads_written(d, 40, n as u32);
    let c = d.subrange(20, 36);
    assert(c.len() == 16);
    lemma_le_bytes_u16(1);
    lemma_le_bytes_u16(channels as nat);
    lemma_le_bytes_u16(16);
    assert(le_u16(c, 0) == 1) by {
        assert(c[0] == d[20] && c[1] == d[21]);
    }
    assert(le_u16(c, 2) == channels) by {
        assert(c[2] == d[22] && c[3] == d[23]);
    }
    assert(le_u16(c, 14) == 16) by {
        assert(c[14] == d[34] && c[15] == d[35]);
    }
    assert(le_u32(c, 4) == rate) by {
        lemma_le_u32_reads_written(c, 4, rate);
    }
    assert(fmt_spec(c) == Ok::<(u16, u32), WavError>((channels, rate)));
    assert(walk(d, 44 + n, Some((channels, rate)), Some((44, 44 + n))) == Ok::<
        (Option<(u16, u32)>, Option<(int, int)>),
        WavError,
    >((Some((channels, rate)), Some((44, 44 + n)))));
    assert(walk(d, 36, Some((channels, rate)), None) == walk(
        d,
        44 + n,
        Some((channels, rate)),
        Some((44, 44 + n)),
    ));
    assert(walk(d, 12, None, None) == walk(d, 36, Some((channels, rate)), None));
    let got = samples_spec(d, 44, 44 + n);
    let want = Seq::new(audio.len() / 2, |k: int| le_i16(audio[2 * k], audio[2 * k + 1]) as i16);
    assert forall|k: int| 0 <= k < n / 2 implies got[k] == want[k] by {
        assert(d[44 + 2 * k] == audio[2 * k]);
        assert(d[44 + 2 * k + 1] == audio[2 * k + 1]);
    }
    assert(got =~= want);
}

/// Sample file name `[A-Ga-g][#b]?[0-9]+` followed by `.wav` in any ASCII case:
/// the stem's byte length.
pub open spec fn wav_stem_len(b: Seq<u8>) -> Option<int> {
    if b.len() < 4 {
        None
    } else {
        let n = b.len() - 4;
        let stem = b.subrange(0, n);
        let head: int = if stem.len() > 1 && (stem[1] == 35 || stem[1] == 98) {
            2
        } else {
            1
        };
        if b[n] == 46 && ascii_lower(b[n + 1]) == 119 && ascii_lower(b[n + 2]) == 97
            && ascii_lower(b[n + 3]) == 118 && stem.len() > 0 && letter_pitch_class(stem[0]) is Some
            && head < stem.len() && all_digits(stem.subrange(head, stem.len() as int)) {
            Some(n)
        } else {
            None
        }
    }
}

/// Note stem of a `C4.wav`-style sample file name (extension in any ASCII case).
pub fn wav_note_stem(name: &str) -> (r: Option<&str>)
    ensures
        match wav_stem_len(name.spec_bytes()) {
            Some(n) => r matches Some(stem) && stem.spec_bytes() == name.spec_bytes().subrange(
                0,
                n,
            ),
            None => r is None,
        },
{
    let bytes = name.as_bytes();
    let ghost b = bytes@;
    if bytes.len() < 4 {
        return None;
    }
    let n = bytes.len() - 4;
    let lower = |x: u8| -> (l: u8)
        ensures
            l == ascii_lower(x),
        {
            if x >= 65 && x <= 90 {
                x + 32
            } else {
                x
            }
        };
    if !(bytes[n] == 46 && lower(bytes[n + 1]) == 119 && lower(bytes[n + 2]) == 97 && lower(
        bytes[n + 3],
    ) == 118) {
        return None;
    }
    if n == 0 {
        return None;
    }
    let first = bytes[0];
    if !((first >= 65 && first <= 71) || (first >= 97 && first <= 103)) {
        return None;
    }
    let mut idx: usize = 1;
    if n > 1 && (bytes[1] == 35 || bytes[1] == 98) {
        idx = 2;
    }
    if idx >= n {
        return None;
    }
    let ghost stem = b.subrange(0, n as int);
    assert(stem.subrange(idx as int, n as int) =~= b.subrange(idx as int, n as int));
    assert(stem[0] == first);
    assert(letter_pitch_class(stem[0]) is Some);
    if !all_digits_in(bytes, idx, n) {
        return None;
    }
    let (stem_text, _) = split_text_at(name, n);
    Some(stem_text)
}

} // verus!
