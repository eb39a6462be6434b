//! Recorded audio to upload: the capture buffer, downmix to mono, linear
//! resampling to 16 kHz, input-device selection by name, and encoding as WAV
//! (hound) or FLAC (flacenc).
use vstd::prelude::*;

use flacenc::component::BitRepr;
use flacenc::error::Verify;

use crate::text::{
    chars_eq_str, chars_of, concat3, contains_seq, contains_sub, debug_quoted, debug_string,
    to_lowercase, unicode_lower,
};

verus! {

broadcast use vstd::string::group_string_axioms;

/// Sample rate of every upload.
pub const TARGET_SAMPLE_RATE: u32 = 16_000;

// ── Downmix ──────────────────────────────────────────────────────────────────

/// Sum of `n` samples of `s` from `start`.
pub open spec fn frame_sum(s: Seq<i16>, start: int, n: int) -> int
    decreases n,
{
    if n <= 0 {
        0
    } else {
        frame_sum(s, start, n - 1) + s[start + n - 1]
    }
}

/// Integer division rounding toward zero (Rust's `/` on signed integers).
pub open spec fn trunc_div(a: int, b: int) -> int {
    if a >= 0 {
        a / b
    } else {
        -((-a) / b)
    }
}

/// Interleaved samples with `ch` channels, averaged to mono: one output
/// sample per complete frame (a trailing partial frame is dropped), the
/// frame's sum divided by `ch` rounding toward zero. One channel (or none)
/// is passed through unchanged.
pub open spec fn downmix_spec(s: Seq<i16>, ch: int) -> Seq<i16> {
    if ch <= 1 {
        s
    } else {
        Seq::new(
            ((s.len() as int) / ch) as nat,
            |j: int| trunc_div(frame_sum(s, j * ch, ch), ch) as i16,
        )
    }
}

proof fn lemma_trunc_div_bounds(x: int, d: int)
    requires
        d > 0,
        -32768 * d <= x <= 32767 * d,
    ensures
        -32768 <= trunc_div(x, d) <= 32767,
{
    if x >= 0 {
        assert(x / d <= 32767) by (nonlinear_arith)
            requires
                d > 0,
                0 <= x <= 32767 * d,
        ;
        assert(x / d >= 0) by (nonlinear_arith)
            requires
                d > 0,
                0 <= x,
        ;
    } else {
        assert((-x) / d <= 32768) by (nonlinear_arith)
            requires
                d > 0,
                0 < -x <= 32768 * d,
        ;
        assert((-x) / d >= 0) by (nonlinear_arith)
            requires
                d > 0,
                0 < -x,
        ;
    }
}

fn trunc_div_i64(x: i64, d: i64) -> (r: i64)
    requires
        d > 0,
        x > i64::MIN,
    ensures
        r == trunc_div(x as int, d as int),
{
    if x >= 0 {
        x / d
    } else {
        -((-x) / d)
    }
}

fn copy_samples(s: &[i16]) -> (r: Vec<i16>)
    ensures
        r@ == s@,
{
    let mut out: Vec<i16> = Vec::new();
    let mut i: usize = 0;
    while i < s.len()
        invariant
            0 <= i <= s@.len(),
            out@ == s@.take(i as int),
        decreases s@.len() - i,
    {
        out.push(s[i]);
        assert(s@.take(i as int).push(s@[i as int]) =~= s@.take(i + 1));
        i = i + 1;
    }
    assert(s@.take(s@.len() as int) =~= s@);
    out
}

/// Average interleaved `channels`-channel samples to mono.
pub fn downmix(samples: &[i16], channels: u16) -> (r: Vec<i16>)
    ensures
        r@ == downmix_spec(samples@, channels as int),
{
    if channels <= 1 {
        return copy_samples(samples);
    }
    let ch = channels as usize;
    let len = samples.len();
    let n = len / ch;
    let mut out: Vec<i16> = Vec::new();
    let mut j: usize = 0;
    let mut base: usize = 0;
    while j < n
        invariant
            ch == channels as usize,
            ch >= 2,
            len == samples@.len(),
            n == (samples@.len() as int) / (ch as int),
            0 <= j <= n,
            base == j * ch,
            out@.len() == j,
            forall|q: int|
                0 <= q < j ==> out@[q] == trunc_div(frame_sum(samples@, q * ch, ch as int), ch as int)
                    as i16,
        decreases n - j,
    {
        assert((j + 1) * ch <= n * ch <= samples@.len()) by (nonlinear_arith)
            requires
                j < n,
                n == (samples@.len() as int) / (ch as int),
                ch >= 2,
        ;
        assert((j + 1) * ch == j * ch + ch) by (nonlinear_arith);
        let mut sum: i64 = 0;
        let mut k: usize = 0;
        while k < ch
            invariant
                ch == channels as usize,
                base == j * ch,
                len == samples@.len(),
                base + ch <= len,
                0 <= k <= ch,
                sum == frame_sum(samples@, base as int, k as int),
                -32768 * k <= sum <= 32767 * k,
            decreases ch - k,
        {
            sum = sum + samples[base + k] as i64;
            k = k + 1;
        }
        proof {
            lemma_trunc_div_bounds(sum as int, ch as int);
        }
        let avg = trunc_div_i64(sum, ch as i64);
        out.push(avg as i16);
        base = base + ch;
        j = j + 1;
    }
    let ghost expect = downmix_spec(samples@, channels as int);
    assert(out@ =~= expect);
    out
}

// ── Linear resampling ────────────────────────────────────────────────────────

/// The sample at `i`, clamped to the last one.
pub open spec fn clamped(s: Seq<i16>, i: int) -> int {
    if i < s.len() {
        s[i] as int
    } else {
        s[s.len() - 1] as int
    }
}

/// Linear interpolation at source position `p / dst` (the output index
/// times the source rate, over the target rate): the neighbouring samples
/// `a` and `b` weighted by the fractional part, rounded toward zero.
pub open spec fn interp(s: Seq<i16>, p: int, dst: int) -> int {
    let idx = p / dst;
    let r = p % dst;
    let a = clamped(s, idx);
    let b = clamped(s, idx + 1);
    trunc_div(a * dst + (b - a) * r, dst)
}

/// `s` at rate `src` resampled to rate `dst` by linear interpolation:
/// `len · dst / src` output samples, output `i` taken at source position
/// `i · src / dst` (computed exactly). Equal rates or no samples: unchanged.
pub open spec fn resample_spec(s: Seq<i16>, src: int, dst: int) -> Seq<i16> {
    if src == dst || s.len() == 0 {
        s
    } else {
        Seq::new(((s.len() as int * dst) / src) as nat, |i: int| interp(s, i * src, dst) as i16)
    }
}

proof fn lemma_interp_bounds(a: int, b: int, r: int, d: int)
    requires
        -32768 <= a <= 32767,
        -32768 <= b <= 32767,
        0 <= r < d,
    ensures
        -32768 * d <= a * d + (b - a) * r <= 32767 * d,
{
    assert(-32768 * d <= a * d + (b - a) * r <= 32767 * d) by (nonlinear_arith)
        requires
            -32768 <= a <= 32767,
            -32768 <= b <= 32767,
            0 <= r < d,
    ;
}

/// Resample `samples` from `src_rate` to `dst_rate` by linear interpolation.
pub fn resample_linear(samples: &[i16], src_rate: u32, dst_rate: u32) -> (r: Vec<i16>)
    requires
        src_rate == dst_rate || samples@.len() == 0 || src_rate > 0,
        src_rate == dst_rate || samples@.len() == 0 || (samples@.len() as int * dst_rate) / (
        src_rate as int) <= usize::MAX,
    ensures
        r@ == resample_spec(samples@, src_rate as int, dst_rate as int),
{
    if src_rate == dst_rate || samples.len() == 0 {
        return copy_samples(samples);
    }
    let src_len = samples.len();
    assert(src_len as int * dst_rate < 0x1_0000_0000_0000_0000_0000_0000) by (nonlinear_arith)
        requires
            src_len <= usize::MAX,
            usize::MAX < 0x1_0000_0000_0000_0000,
            dst_rate <= u32::MAX,
    ;
    let dst_len = ((src_len as u128) * (dst_rate as u128) / (src_rate as u128)) as usize;
    let src = src_rate as u128;
    let dst = dst_rate as u128;
    let mut out: Vec<i16> = Vec::new();
    let mut i: usize = 0;
    while i < dst_len
        invariant
            src_len == samples@.len(),
            src_len > 0,
            src == src_rate as u128,
            dst == dst_rate as u128,
            src > 0,
            dst <= u32::MAX,
            dst_len as int == (src_len as int * dst) / (src as int),
            src_len * dst < 0x1_0000_0000_0000_0000_0000_0000,
            0 <= i <= dst_len,
            out@.len() == i,
            forall|q: int|
                0 <= q < i ==> out@[q] == interp(samples@, q * src, dst as int) as i16,
        decreases dst_len - i,
    {
        assert(dst > 0) by (nonlinear_arith)
            requires
                i < dst_len,
                dst_len as int == (src_len as int * dst) / (src as int),
                src > 0,
        ;
        assert(i * src <= src_len * dst) by (nonlinear_arith)
            requires
                i < dst_len,
                dst_len as int == (src_len as int * dst) / (src as int),
                src > 0,
        ;
        assert((i as int * src) / (dst as int) < src_len) by (nonlinear_arith)
            requires
                i < dst_len,
                dst_len as int == (src_len as int * dst) / (src as int),
                src > 0,
                dst > 0,
        ;
        let p: u128 = (i as u128) * src;
        let idx = p / dst;
        let rem = p % dst;
        let ia: usize = if idx < src_len as u128 {
            idx as usize
        } else {
            src_len - 1
        };
        let ib: usize = if idx + 1 < src_len as u128 {
            (idx + 1) as usize
        } else {
            src_len - 1
        };
        let a = samples[ia] as i64;
        let b = samples[ib] as i64;
        proof {
            lemma_interp_bounds(a as int, b as int, rem as int, dst as int);
        }
        assert(-32768 * 0x1_0000_0000 <= a * dst <= 32768 * 0x1_0000_0000) by (nonlinear_arith)
            requires
                -32768 <= a <= 32767,
                dst <= 0xffff_ffff,
        ;
        assert(-65536 * 0x1_0000_0000 <= (b - a) * rem <= 65536 * 0x1_0000_0000)
            by (nonlinear_arith)
            requires
                -65535 <= b - a <= 65535,
                rem < dst,
                dst <= 0xffff_ffff,
        ;
        let num: i64 = a * (dst as i64) + (b - a) * (rem as i64);
        proof {
            lemma_trunc_div_bounds(num as int, dst as int);
        }
        let v = trunc_div_i64(num, dst as i64);
        out.push(v as i16);
        i = i + 1;
    }
    let ghost expect = resample_spec(samples@, src_rate as int, dst_rate as int);
    assert(out@ =~= expect);
    out
}


// ── Encoding ─────────────────────────────────────────────────────────────────

/// Bytes per 16-bit sample.
pub const BYTES_PER_SAMPLE: u32 = 2;

/// FLAC frames hold this many samples each.
pub const FLAC_BLOCK_SIZE: usize = 4096;

/// `n` as two little-endian bytes (taken modulo 2^16).
pub open spec fn le16(n: int) -> Seq<u8> {
    seq![(n % 256) as u8, ((n / 256) % 256) as u8]
}

/// `n` as four little-endian bytes (taken modulo 2^32).
pub open spec fn le32(n: int) -> Seq<u8> {
    seq![(n % 256) as u8, ((n / 256) % 256) as u8, ((n / 65536) % 256) as u8, ((n / 16777216) % 256) as u8]
}

/// Samples as 16-bit little-endian two's complement.
pub open spec fn pcm16_bytes(s: Seq<i16>) -> Seq<u8>
    decreases s.len(),
{
    if s.len() == 0 {
        Seq::empty()
    } else {
        pcm16_bytes(s.drop_last()) + le16(s.last() as int)
    }
}

/// A canonical 16-bit PCM WAV file: the RIFF header, a 16-byte `fmt ` chunk
/// (format 1, the channel count, the rate, the byte rate, the block
/// alignment, 16 bits) and a `data` chunk holding the samples.
#[verifier::opaque]
pub open spec fn wav_bytes(samples: Seq<i16>, rate: int, channels: int) -> Seq<u8> {
    let data_len: int = 2 * (samples.len() as int);
    seq![82u8, 73, 70, 70] + le32(36 + data_len) + seq![87u8, 65, 86, 69]
        + seq![102u8, 109, 116, 32] + le32(16) + le16(1) + le16(channels) + le32(rate)
        + le32(rate * 2 * channels) + le16(2 * channels) + le16(16)
        + seq![100u8, 97, 116, 97] + le32(data_len) + pcm16_bytes(samples)
}

/// Two bytes per sample.
pub proof fn lemma_pcm16_len(s: Seq<i16>)
    ensures
        pcm16_bytes(s).len() == 2 * s.len(),
    decreases s.len(),
{
    if s.len() > 0 {
        lemma_pcm16_len(s.drop_last());
    }
}

/// A WAV file is its 44-byte header and two bytes per sample, the samples
/// starting right after the header.
pub proof fn lemma_wav_layout(samples: Seq<i16>, rate: int, channels: int)
    ensures
        wav_bytes(samples, rate, channels).len() == 44 + 2 * samples.len(),
        wav_bytes(samples, rate, channels).skip(44) == pcm16_bytes(samples),
        wav_bytes(samples, rate, channels).take(4) == seq![82u8, 73, 70, 70],
{
    reveal(wav_bytes);
    lemma_pcm16_len(samples);
    let w = wav_bytes(samples, rate, channels);
    assert(w.skip(44) =~= pcm16_bytes(samples));
    assert(w.take(4) =~= seq![82u8, 73, 70, 70]);
}

/// The unsigned 16-bit little-endian value at byte `i`.
pub open spec fn read_u16_le(b: Seq<u8>, i: int) -> int {
    b[i] as int + 256 * (b[i + 1] as int)
}

/// The unsigned 32-bit little-endian value at byte `i`.
pub open spec fn read_u32_le(b: Seq<u8>, i: int) -> int {
    read_u16_le(b, i) + 65536 * read_u16_le(b, i + 2)
}

/// The signed (two's complement) 16-bit little-endian value at byte `i`.
pub open spec fn read_i16_le(b: Seq<u8>, i: int) -> int {
    if read_u16_le(b, i) >= 32768 {
        read_u16_le(b, i) - 65536
    } else {
        read_u16_le(b, i)
    }
}

/// The samples of a 16-bit PCM data block: one per two bytes.
pub open spec fn pcm16_decode(b: Seq<u8>) -> Seq<int> {
    Seq::new((b.len() / 2) as nat, |k: int| read_i16_le(b, 2 * k))
}

/// Two little-endian bytes read back give the value.
proof fn lemma_le16_read(n: int)
    requires
        0 <= n < 65536,
    ensures
        read_u16_le(le16(n), 0) == n,
{
}

/// Four little-endian bytes read back give the value.
proof fn lemma_le32_read(n: int)
    requires
        0 <= n < 0x1_0000_0000,
    ensures
        read_u32_le(le32(n), 0) == n,
{
}

/// A 16-bit sample written as two bytes reads back as itself.
proof fn lemma_le16_sample_read(x: i16)
    ensures
        read_i16_le(le16(x as int), 0) == x as int,
{
}

/// The bytes of sample `k` are at `2k` and `2k + 1`.
proof fn lemma_pcm16_at(s: Seq<i16>, k: int)
    requires
        0 <= k < s.len(),
    ensures
        pcm16_bytes(s)[2 * k] == le16(s[k] as int)[0],
        pcm16_bytes(s)[2 * k + 1] == le16(s[k] as int)[1],
    decreases s.len(),
{
    lemma_pcm16_len(s.drop_last());
    if k < s.len() - 1 {
        lemma_pcm16_at(s.drop_last(), k);
    }
}

/// Decoding the 16-bit PCM bytes of samples gives the samples back.
pub proof fn lemma_pcm16_round_trip(s: Seq<i16>)
    ensures
        pcm16_decode(pcm16_bytes(s)) == s.map_values(|x: i16| x as int),
{
    lemma_pcm16_len(s);
    let b = pcm16_bytes(s);
    assert forall|k: int| 0 <= k < s.len() implies #[trigger] read_i16_le(b, 2 * k) == s[k] as int by {
        lemma_pcm16_at(s, k);
        lemma_le16_sample_read(s[k]);
    }
    assert(pcm16_decode(b) =~= s.map_values(|x: i16| x as int));
}

/// A WAV file read back: `RIFF`, `WAVE`, a PCM (format 1) `fmt ` chunk with
/// the channel count, the rate and 16 bits per sample, a `data` chunk of two
/// bytes per sample, and the samples themselves after the 44-byte header.
pub proof fn lemma_wav_round_trip(samples: Seq<i16>, rate: int, channels: int)
    requires
        0 <= rate <= u32::MAX,
        0 <= channels <= u16::MAX,
        2 * samples.len() <= u32::MAX,
    ensures
        ({
            let w = wav_bytes(samples, rate, channels);
            &&& w.take(4) == seq![82u8, 73, 70, 70]
            &&& w.subrange(8, 12) == seq![87u8, 65, 86, 69]
            &&& w.subrange(12, 16) == seq![102u8, 109, 116, 32]
            &&& read_u16_le(w, 20) == 1
            &&& read_u16_le(w, 22) == channels
            &&& read_u32_le(w, 24) == rate
            &&& read_u16_le(w, 34) == 16
            &&& w.subrange(36, 40) == seq![100u8, 97, 116, 97]
            &&& read_u32_le(w, 40) == 2 * samples.len()
            &&& pcm16_decode(w.skip(44)) == samples.map_values(|x: i16| x as int)
        }),
{
    reveal(wav_bytes);
    lemma_wav_layout(samples, rate, channels);
    lemma_pcm16_round_trip(samples);
    let w = wav_bytes(samples, rate, channels);
    let head = w.take(44);
    let data_len: int = 2 * (samples.len() as int);
    let h = seq![82u8, 73, 70, 70] + le32(36 + data_len) + seq![87u8, 65, 86, 69]
        + seq![102u8, 109, 116, 32] + le32(16) + le16(1) + le16(channels) + le32(rate)
        + le32(rate * 2 * channels) + le16(2 * channels) + le16(16)
        + seq![100u8, 97, 116, 97] + le32(data_len);
    lemma_pcm16_len(samples);
    assert(head =~= h);
    lemma_le16_read(1);
    lemma_le16_read(channels);
    lemma_le32_read(rate);
    lemma_le16_read(16);
    lemma_le32_read(data_len);
    assert(w[20] == le16(1)[0] && w[21] == le16(1)[1]);
    assert(w[22] == le16(channels)[0] && w[23] == le16(channels)[1]);
    assert(w[24] == le32(rate)[0] && w[25] == le32(rate)[1] && w[26] == le32(rate)[2] && w[27]
        == le32(rate)[3]);
    assert(w[34] == le16(16)[0] && w[35] == le16(16)[1]);
    assert(w[40] == le32(data_len)[0] && w[41] == le32(data_len)[1] && w[42] == le32(data_len)[2]
        && w[43] == le32(data_len)[3]);
    assert(w.subrange(8, 12) =~= seq![87u8, 65, 86, 69]);
    assert(w.subrange(12, 16) =~= seq![102u8, 109, 116, 32]);
    assert(w.subrange(36, 40) =~= seq![100u8, 97, 116, 97]);
}

/// The sizes in a WAV header are 32-bit: the file and its byte rate must fit.
pub open spec fn wav_fits(len: int, rate: int, channels: int) -> bool {
    36 + 2 * len <= u32::MAX && rate * 2 * channels <= u32::MAX
}

/// Whether `n` mono samples at [`TARGET_SAMPLE_RATE`] fit in a WAV file.
pub fn fits_in_wav(n: usize) -> (r: bool)
    ensures
        r == wav_fits(n as int, TARGET_SAMPLE_RATE as int, 1),
{
    n as u128 * 2 + 36 <= 0xffff_ffffu128
}

/// What flacenc's `encode_with_fixed_block_size` gives for these samples
/// (widened to `i32` in a `MemSource` with this channel count, bit depth
/// and sample rate), single-threaded with the default settings otherwise,
/// and this block size, serialised by `Stream::write` into a `ByteSink`: the
/// FLAC file, or the stage that failed (`true`: writing) and the debug text
/// of the error.
pub uninterp spec fn flac_stream(
    samples: Seq<i16>,
    channels: usize,
    bits: usize,
    rate: usize,
    block: usize,
) -> Result<Seq<u8>, (bool, Seq<char>)>;

/// The four bytes every FLAC stream starts with (`fLaC`).
pub open spec fn flac_magic() -> Seq<u8> {
    seq![0x66u8, 0x4c, 0x61, 0x43]
}

/// Smallest block size flacenc accepts.
pub const FLAC_MIN_BLOCK: usize = 32;

/// Largest block size flacenc accepts.
pub const FLAC_MAX_BLOCK: usize = 32767;

/// hound: a `WavWriter` with 16-bit integer samples over an in-memory
/// `Cursor`, one `write_sample` per sample, then `finalize`. For one or two
/// channels hound writes the 16-byte PCM `fmt` chunk; writes to a `Cursor`
/// over a `Vec` do not fail, 16 bits is a supported depth, and a whole
/// number of frames leaves no sample unfinished, so the result is the file
/// [`wav_bytes`] describes (hound's `write_headers`, `write_pcmwaveformat`,
/// `write_sample` and `update_header`). The rate must be positive: hound
/// divides by it for the block alignment.
#[verifier::external_body]
fn hound_wav(samples: &[i16], sample_rate: u32, channels: u16) -> (r: Result<Vec<u8>, String>)
    requires
        1 <= channels <= 2,
        sample_rate > 0,
        (samples@.len() as int) % (channels as int) == 0,
        wav_fits(samples@.len() as int, sample_rate as int, channels as int),
    ensures
        r is Ok,
        r->Ok_0@ == wav_bytes(samples@, sample_rate as int, channels as int),
{
    let spec = hound::WavSpec {
        channels,
        sample_rate,
        bits_per_sample: 16,
        sample_format: hound::SampleFormat::Int,
    };
    let mut cursor = std::io::Cursor::new(Vec::<u8>::new());
    let mut writer = hound::WavWriter::new(&mut cursor, spec).map_err(|e| e.to_string())?;
    for &s in samples {
        writer.write_sample(s).map_err(|e| e.to_string())?;
    }
    writer.finalize().map_err(|e| e.to_string())?;
    Ok(cursor.into_inner())
}

/// flacenc: `encode_with_fixed_block_size` over a `MemSource` of the
/// samples widened to `i32`, with the default encoder settings made
/// single-threaded (the multithreaded path takes its worker count from the
/// machine and the environment), then `Stream::write` into a `ByteSink`. The
/// outcome is named by [`flac_stream`]; an error comes back with its stage
/// and debug text. `Stream::write` starts the sink with `fLaC`
/// (component/bitrepr.rs), which is stated too. Only mono 16-bit input is
/// passed (every `i16` fits 16 bits), and only block sizes that
/// `FrameBuf::with_size` and `set_block_sizes` accept, so the
/// `set_block_sizes(..).unwrap()` inside cannot panic; an unsupported sample
/// rate is an error from `Stream::new`.
#[verifier::external_body]
fn flacenc_encode(
    samples: &[i16],
    channels: usize,
    bits: usize,
    rate: usize,
    block: usize,
) -> (r: Result<Vec<u8>, (bool, String)>)
    requires
        channels == 1,
        bits == 16,
        FLAC_MIN_BLOCK <= block <= FLAC_MAX_BLOCK,
    ensures
        flac_stream(samples@, channels, bits, rate, block) == (match r {
            Ok(b) => Ok::<Seq<u8>, (bool, Seq<char>)>(b@),
            Err((w, e)) => Err::<Seq<u8>, (bool, Seq<char>)>((w, e@)),
        }),
        r matches Ok(b) ==> b@.len() >= 4 && b@.take(4) == flac_magic(),
{
    let wide: Vec<i32> = samples.iter().map(|&s| s as i32).collect();
    let mut settings = flacenc::config::Encoder::default();
    settings.multithread = false;
    let config = settings.into_verified().map_err(|e| (false, format!("{:?}", e.1)))?;
    let source = flacenc::source::MemSource::from_samples(&wide, channels, bits, rate);
    let stream = flacenc::encode_with_fixed_block_size(&config, source, block)
        .map_err(|e| (false, format!("{:?}", e)))?;
    let mut sink = flacenc::bitsink::ByteSink::new();
    stream.write(&mut sink).map_err(|e| (true, format!("{:?}", e)))?;
    Ok(sink.into_inner())
}

/// Why audio could not be encoded.
#[derive(Debug, Clone)]
pub enum AudioError {
    /// `audio_format` is neither `flac` nor `wav`; holds the value given.
    UnknownFormat(String),
    /// The FLAC encoder failed; holds its report.
    Flac(String),
    /// Writing the encoded FLAC stream out failed; holds the report.
    FlacWrite(String),
}

/// The text of an [`AudioError`], over the characters it holds.
pub open spec fn audio_error_message(e: AudioError) -> Seq<char> {
    match e {
        AudioError::UnknownFormat(f) => "unknown audio_format "@ + debug_quoted(f@)
            + "; use 'flac' or 'wav'"@,
        AudioError::Flac(m) => "FLAC encode error: "@ + m@,
        AudioError::FlacWrite(m) => "FLAC write error: "@ + m@,
    }
}

impl AudioError {
    /// The error's text (what `Display` would show).
    pub fn message(&self) -> (r: String)
        ensures
            r@ == audio_error_message(*self),
    {
        match self {
            AudioError::UnknownFormat(f) => concat3(
                "unknown audio_format ",
                &debug_string(f.as_str()),
                "; use 'flac' or 'wav'",
            ),
            AudioError::Flac(m) => {
                let mut out = "FLAC encode error: ".to_string();
                crate::text::append_str(&mut out, m.as_str());
                out
            },
            AudioError::FlacWrite(m) => {
                let mut out = "FLAC write error: ".to_string();
                crate::text::append_str(&mut out, m.as_str());
                out
            },
        }
    }
}

/// Encode mono 16 kHz samples as a WAV file.
pub fn encode_wav(samples: &[i16]) -> (r: Result<Vec<u8>, AudioError>)
    requires
        wav_fits(samples@.len() as int, TARGET_SAMPLE_RATE as int, 1),
    ensures
        r matches Ok(b) && b@ == wav_bytes(samples@, TARGET_SAMPLE_RATE as int, 1),
{
    match hound_wav(samples, TARGET_SAMPLE_RATE, 1) {
        Ok(b) => Ok(b),
        Err(_) => Err(AudioError::Flac(String::new())),
    }
}

/// What [`encode_flac`] makes of the encoder's outcome: the file, or a FLAC
/// error (encoding or writing) holding the encoder's report.
pub fn flac_outcome(r: Result<Vec<u8>, (bool, String)>) -> (out: Result<Vec<u8>, AudioError>)
    ensures
        match r {
            Ok(b) => out matches Ok(o) && o@ == b@,
            Err((false, e)) => out matches Err(AudioError::Flac(m)) && m@ == e@,
            Err((true, e)) => out matches Err(AudioError::FlacWrite(m)) && m@ == e@,
        },
{
    match r {
        Ok(b) => Ok(b),
        Err((false, e)) => Err(AudioError::Flac(e)),
        Err((true, e)) => Err(AudioError::FlacWrite(e)),
    }
}

/// The result of encoding as the library reports it: the file, or the
/// FLAC error of the failing stage.
pub open spec fn flac_result_matches(
    named: Result<Seq<u8>, (bool, Seq<char>)>,
    r: Result<Vec<u8>, AudioError>,
) -> bool {
    match named {
        Ok(bytes) => r matches Ok(b) && b@ == bytes,
        Err((false, e)) => r matches Err(AudioError::Flac(m)) && m@ == e,
        Err((true, e)) => r matches Err(AudioError::FlacWrite(m)) && m@ == e,
    }
}

/// Encode mono 16 kHz samples as a FLAC file (16 bits, blocks of 4096).
pub fn encode_flac(samples: &[i16]) -> (r: Result<Vec<u8>, AudioError>)
    ensures
        flac_result_matches(
            flac_stream(samples@, 1, 16, TARGET_SAMPLE_RATE as usize, FLAC_BLOCK_SIZE),
            r,
        ),
        r matches Ok(b) ==> b@.len() >= 4 && b@.take(4) == flac_magic(),
{
    let rate = TARGET_SAMPLE_RATE as usize;
    flac_outcome(flacenc_encode(samples, 1, 16, rate, FLAC_BLOCK_SIZE))
}

/// Encode `samples` in `format` (`"flac"` or `"wav"`), with the file name
/// and MIME type to upload it under.
pub fn encode(samples: &[i16], format: &str) -> (r: Result<(Vec<u8>, &'static str, &'static str), AudioError>)
    requires
        format@ == "wav"@ ==> wav_fits(samples@.len() as int, TARGET_SAMPLE_RATE as int, 1),
    ensures
        format@ == "flac"@ ==> match flac_stream(
            samples@,
            1,
            16,
            TARGET_SAMPLE_RATE as usize,
            FLAC_BLOCK_SIZE,
        ) {
            Ok(bytes) => r matches Ok((b, name, mime)) && b@ == bytes && name@ == "recording.flac"@
                && mime@ == "audio/flac"@,
            Err((false, e)) => r matches Err(AudioError::Flac(m)) && m@ == e,
            Err((true, e)) => r matches Err(AudioError::FlacWrite(m)) && m@ == e,
        },
        format@ == "wav"@ ==> (r matches Ok((b, name, mime)) && b@ == wav_bytes(
            samples@,
            TARGET_SAMPLE_RATE as int,
            1,
        ) && name@ == "recording.wav"@ && mime@ == "audio/wav"@),
        format@ != "flac"@ && format@ != "wav"@ ==> (r matches Err(AudioError::UnknownFormat(f))
            && f@ == format@),
{
    let fc = chars_of(format);
    proof {
        reveal_strlit("flac");
        reveal_strlit("wav");
        assert("flac"@.len() == 4);
        assert("wav"@.len() == 3);
    }
    if chars_eq_str(&fc, "flac") {
        let r = encode_flac(samples);
        match r {
            Ok(b) => Ok((b, "recording.flac", "audio/flac")),
            Err(e) => Err(e),
        }
    } else if chars_eq_str(&fc, "wav") {
        let r = encode_wav(samples);
        assert(r is Ok);
        match r {
            Ok(b) => Ok((b, "recording.wav", "audio/wav")),
            Err(e) => Err(e),
        }
    } else {
        Err(AudioError::UnknownFormat(format.to_string()))
    }
}

// ── Capture buffer ───────────────────────────────────────────────────────────

/// What the input stream has delivered since the last `begin`, and the
/// device's native format. Samples are kept only while a recording is active.
pub struct Capture {
    buffer: Vec<i16>,
    active: bool,
    src_sample_rate: u32,
    src_channels: u16,
}

/// Model of a [`Capture`].
pub struct CaptureView {
    pub buffer: Seq<i16>,
    pub active: bool,
    pub src_sample_rate: u32,
    pub src_channels: u16,
}

impl View for Capture {
    type V = CaptureView;

    closed spec fn view(&self) -> CaptureView {
        CaptureView {
            buffer: self.buffer@,
            active: self.active,
            src_sample_rate: self.src_sample_rate,
            src_channels: self.src_channels,
        }
    }
}

/// A `u16` sample recentred to signed: `s − 32768`.
pub open spec fn u16_sample(s: u16) -> i16 {
    (s as int - 32768) as i16
}

/// A recording of `n` samples at `rate` resamples to no more samples than a
/// `usize` counts (always so when the device rate is at least the target
/// rate).
pub open spec fn capture_fits(n: int, rate: int) -> bool {
    (n * TARGET_SAMPLE_RATE) / rate <= usize::MAX
}

/// What ending a recording with these raw samples yields: nothing when no
/// sample arrived, else the samples downmixed to mono and resampled to
/// [`TARGET_SAMPLE_RATE`].
pub open spec fn finished_recording(raw: Seq<i16>, rate: int, channels: int) -> Option<Seq<i16>> {
    if raw.len() == 0 {
        None
    } else {
        Some(resample_spec(downmix_spec(raw, channels), rate, TARGET_SAMPLE_RATE as int))
    }
}

proof fn lemma_downmix_len(s: Seq<i16>, ch: int)
    ensures
        downmix_spec(s, ch).len() <= s.len(),
{
    if ch > 1 {
        assert((s.len() as int) / ch <= s.len()) by (nonlinear_arith)
            requires
                ch > 1,
        ;
    }
}

/// Raw interleaved samples at the device's rate, as mono samples at
/// [`TARGET_SAMPLE_RATE`].
fn process_capture(raw: &Vec<i16>, channels: u16, rate: u32) -> (r: Vec<i16>)
    requires
        raw@.len() > 0,
        rate > 0,
        capture_fits(raw@.len() as int, rate as int),
    ensures
        finished_recording(raw@, rate as int, channels as int) == Some(r@),
{
    let mono = downmix(raw.as_slice(), channels);
    proof {
        lemma_downmix_len(raw@, channels as int);
        assert((mono@.len() as int * TARGET_SAMPLE_RATE) / (rate as int) <= (raw@.len() as int
            * TARGET_SAMPLE_RATE) / (rate as int)) by (nonlinear_arith)
            requires
                mono@.len() <= raw@.len(),
                rate > 0,
        ;
    }
    resample_linear(mono.as_slice(), rate, TARGET_SAMPLE_RATE)
}

impl Capture {
    /// An idle capture for a device with this native rate and channel count.
    pub fn new(src_sample_rate: u32, src_channels: u16) -> (c: Capture)
        ensures
            c@.buffer == Seq::<i16>::empty(),
            !c@.active,
            c@.src_sample_rate == src_sample_rate,
            c@.src_channels == src_channels,
    {
        Capture { buffer: Vec::new(), active: false, src_sample_rate, src_channels }
    }

    /// Number of samples kept so far.
    pub fn buffered_len(&self) -> (n: usize)
        ensures
            n == self@.buffer.len(),
    {
        self.buffer.len()
    }

    /// Start a recording: drop what was kept and accept samples again.
    pub fn begin(&mut self)
        ensures
            final(self)@.buffer == Seq::<i16>::empty(),
            final(self)@.active,
            final(self)@.src_sample_rate == old(self)@.src_sample_rate,
            final(self)@.src_channels == old(self)@.src_channels,
    {
        self.buffer = Vec::new();
        self.active = true;
    }

    /// Samples from the input stream: kept while a recording is active,
    /// dropped otherwise.
    pub fn push_samples(&mut self, data: &[i16])
        ensures
            final(self)@.buffer == (if old(self)@.active {
                old(self)@.buffer + data@
            } else {
                old(self)@.buffer
            }),
            final(self)@.active == old(self)@.active,
            final(self)@.src_sample_rate == old(self)@.src_sample_rate,
            final(self)@.src_channels == old(self)@.src_channels,
    {
        if !self.active {
            return;
        }
        let ghost start = self.buffer@;
        let mut i: usize = 0;
        while i < data.len()
            invariant
                0 <= i <= data@.len(),
                self.buffer@ == start + data@.take(i as int),
                self.active == old(self).active,
                self.src_sample_rate == old(self).src_sample_rate,
                self.src_channels == old(self).src_channels,
            decreases data@.len() - i,
        {
            self.buffer.push(data[i]);
            assert(start + data@.take(i as int) + seq![data@[i as int]] =~= start + data@.take(i + 1));
            i = i + 1;
        }
        assert(data@.take(data@.len() as int) =~= data@);
    }

    /// Unsigned samples from the input stream, recentred to signed; kept
    /// while a recording is active, dropped otherwise.
    pub fn push_u16_samples(&mut self, data: &[u16])
        ensures
            final(self)@.buffer == (if old(self)@.active {
                old(self)@.buffer + data@.map_values(|s: u16| u16_sample(s))
            } else {
                old(self)@.buffer
            }),
            final(self)@.active == old(self)@.active,
            final(self)@.src_sample_rate == old(self)@.src_sample_rate,
            final(self)@.src_channels == old(self)@.src_channels,
    {
        if !self.active {
            return;
        }
        let ghost start = self.buffer@;
        let mut i: usize = 0;
        while i < data.len()
            invariant
                0 <= i <= data@.len(),
                self.buffer@ == start + data@.take(i as int).map_values(|s: u16| u16_sample(s)),
                self.active == old(self).active,
                self.src_sample_rate == old(self).src_sample_rate,
                self.src_channels == old(self).src_channels,
            decreases data@.len() - i,
        {
            let v: i32 = data[i] as i32 - 32768;
            self.buffer.push(v as i16);
            assert(start + data@.take(i as int).map_values(|s: u16| u16_sample(s)) + seq![
                u16_sample(data@[i as int]),
            ] =~= start + data@.take(i + 1).map_values(|s: u16| u16_sample(s)));
            i = i + 1;
        }
        assert(data@.take(data@.len() as int) =~= data@);
    }

    /// Abandon the recording: stop accepting samples and drop what was kept.
    pub fn cancel(&mut self)
        ensures
            !final(self)@.active,
            final(self)@.buffer == Seq::<i16>::empty(),
            final(self)@.src_sample_rate == old(self)@.src_sample_rate,
            final(self)@.src_channels == old(self)@.src_channels,
    {
        self.active = false;
        self.buffer = Vec::new();
    }

    /// Hand over what the recording has captured so far (as in [`Self::end`])
    /// and keep recording into an empty buffer; `None` when nothing arrived
    /// since the last hand-over.
    pub fn checkpoint(&mut self) -> (r: Option<Vec<i16>>)
        requires
            old(self)@.src_sample_rate > 0,
            capture_fits(old(self)@.buffer.len() as int, old(self)@.src_sample_rate as int),
        ensures
            final(self)@.active == old(self)@.active,
            final(self)@.buffer == Seq::<i16>::empty(),
            final(self)@.src_sample_rate == old(self)@.src_sample_rate,
            final(self)@.src_channels == old(self)@.src_channels,
            match finished_recording(
                old(self)@.buffer,
                old(self)@.src_sample_rate as int,
                old(self)@.src_channels as int,
            ) {
                Some(out) => r matches Some(v) && v@ == out,
                None => r is None,
            },
    {
        if self.buffer.len() == 0 {
            return None;
        }
        let mut raw: Vec<i16> = Vec::new();
        std::mem::swap(&mut raw, &mut self.buffer);
        Some(process_capture(&raw, self.src_channels, self.src_sample_rate))
    }

    /// Stop the recording and hand back what it captured, as mono samples
    /// at [`TARGET_SAMPLE_RATE`]; `None` when nothing arrived.
    pub fn end(&mut self) -> (r: Option<Vec<i16>>)
        requires
            old(self)@.src_sample_rate > 0,
            capture_fits(old(self)@.buffer.len() as int, old(self)@.src_sample_rate as int),
        ensures
            !final(self)@.active,
            final(self)@.buffer == Seq::<i16>::empty(),
            final(self)@.src_sample_rate == old(self)@.src_sample_rate,
            final(self)@.src_channels == old(self)@.src_channels,
            match finished_recording(
                old(self)@.buffer,
                old(self)@.src_sample_rate as int,
                old(self)@.src_channels as int,
            ) {
                Some(out) => r matches Some(v) && v@ == out,
                None => r is None,
            },
    {
        self.active = false;
        if self.buffer.len() == 0 {
            return None;
        }
        let mut raw: Vec<i16> = Vec::new();
        std::mem::swap(&mut raw, &mut self.buffer);
        Some(process_capture(&raw, self.src_channels, self.src_sample_rate))
    }
}

// ── Input device selection ───────────────────────────────────────────────────

/// Which input device a name filter selects.
#[derive(Debug, Clone, Copy, PartialEq, Eq, Structural)]
pub enum DevicePick {
    /// The filter is empty: the host's default input device.
    Default,
    /// The first device (by this index) whose name contains the filter,
    /// ignoring case.
    Index(usize),
    /// No device name contains the filter.
    NoMatch,
}

/// The device name at `i` contains the filter, both lowercased.
pub open spec fn device_matches(names: Seq<String>, i: int, filter: Seq<char>) -> bool {
    contains_seq(unicode_lower(names[i]@), unicode_lower(filter))
}

/// Pick an input device by a case-insensitive substring of its name: the
/// default device for an empty filter, else the first match.
pub fn pick_device(filter: &str, names: &Vec<String>) -> (r: DevicePick)
    ensures
        filter@.len() == 0 ==> r == DevicePick::Default,
        filter@.len() > 0 ==> match r {
            DevicePick::Default => false,
            DevicePick::Index(i) => i < names@.len() && device_matches(names@, i as int, filter@)
                && forall|j: int| 0 <= j < i ==> !device_matches(names@, j, filter@),
            DevicePick::NoMatch => forall|j: int|
                0 <= j < names@.len() ==> !device_matches(names@, j, filter@),
        },
{
    if filter.unicode_len() == 0 {
        return DevicePick::Default;
    }
    let needle = chars_of(to_lowercase(filter).as_str());
    let mut i: usize = 0;
    while i < names.len()
        invariant
            0 <= i <= names@.len(),
            filter@.len() > 0,
            needle@ == unicode_lower(filter@),
            forall|j: int| 0 <= j < i ==> !device_matches(names@, j, filter@),
        decreases names@.len() - i,
    {
        let name = chars_of(to_lowercase(names[i].as_str()).as_str());
        if contains_sub(&name, &needle) {
            return DevicePick::Index(i);
        }
        i = i + 1;
    }
    DevicePick::NoMatch
}

/// The error text when no input device matches `filter`.
pub fn no_device_message(filter: &str) -> (r: String)
    ensures
        r@ == "no input device matched "@ + debug_quoted(filter@)
            + " (use empty string for default)"@,
{
    concat3("no input device matched ", &debug_string(filter), " (use empty string for default)")
}

} // verus!
