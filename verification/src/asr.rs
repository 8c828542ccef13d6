//! Speech recognition: from an uploaded WAV file to the samples that the
//! recogniser takes, and from its segments to one transcript.

use vstd::arithmetic::div_mod::lemma_fundamental_div_mod;
use vstd::prelude::*;
use vstd::slice::slice_subrange;
use vstd::string::*;

use crate::config::AsrConfig;
use crate::error::{AppError, AppResult};
use crate::text::{decimal, decimal_text, same, trimmed};

verus! {

/// The sample rate that the recogniser takes.
pub const TARGET_RATE: u32 = 16_000;

// ---------------------------------------------------------------- WAV files

/// The little-endian 16-bit number at `i`.
pub open spec fn le16(b: Seq<u8>, i: int) -> int {
    b[i] + 256 * b[i + 1]
}

/// The little-endian 32-bit number at `i`.
pub open spec fn le32(b: Seq<u8>, i: int) -> int {
    b[i] + 256 * b[i + 1] + 65536 * b[i + 2] + 16777216 * b[i + 3]
}

/// Whether the four bytes at `i` are `a`, `b`, `c` and `d`.
pub open spec fn tag_at(s: Seq<u8>, i: int, a: u8, b: u8, c: u8, d: u8) -> bool {
    s[i] == a && s[i + 1] == b && s[i + 2] == c && s[i + 3] == d
}

/// Whether the file begins as a RIFF file of kind WAVE does.
pub open spec fn is_riff_wave(s: Seq<u8>) -> bool {
    &&& s.len() >= 12
    &&& tag_at(s, 0, 0x52, 0x49, 0x46, 0x46)
    &&& tag_at(s, 8, 0x57, 0x41, 0x56, 0x45)
}

/// The size that the chunk at `pos` gives for its body.
pub open spec fn chunk_size(s: Seq<u8>, pos: int) -> int {
    le32(s, pos + 4)
}

/// Where the body of the chunk at `pos` ends: at the end of the file if it is cut short.
pub open spec fn body_end(s: Seq<u8>, pos: int) -> int {
    if pos + 8 + chunk_size(s, pos) <= s.len() {
        pos + 8 + chunk_size(s, pos)
    } else {
        s.len() as int
    }
}

/// Where the chunk after the one at `pos` begins: bodies are padded to an even size.
pub open spec fn next_chunk(s: Seq<u8>, pos: int) -> int {
    pos + 8 + chunk_size(s, pos) + chunk_size(s, pos) % 2
}

/// How many bytes the file has from `pos` on.
pub open spec fn bytes_left(s: Seq<u8>, pos: int) -> int {
    if pos <= s.len() {
        s.len() - pos
    } else {
        0
    }
}

/// Whether a format chunk begins at `pos`.
pub open spec fn is_format(s: Seq<u8>, pos: int) -> bool {
    tag_at(s, pos, 0x66, 0x6d, 0x74, 0x20) && chunk_size(s, pos) >= 16
}

/// Whether a data chunk begins at `pos`.
pub open spec fn is_data(s: Seq<u8>, pos: int) -> bool {
    tag_at(s, pos, 0x64, 0x61, 0x74, 0x61)
}

/// The last format chunk of the chain that begins at `pos`.
pub open spec fn last_format(s: Seq<u8>, pos: int) -> Option<int>
    decreases bytes_left(s, pos),
{
    if 0 <= pos && pos + 8 <= s.len() {
        let later = last_format(s, next_chunk(s, pos));
        if later is Some {
            later
        } else if is_format(s, pos) {
            Some(pos)
        } else {
            None
        }
    } else {
        None
    }
}

/// The last data chunk of the chain that begins at `pos`.
pub open spec fn last_data(s: Seq<u8>, pos: int) -> Option<int>
    decreases bytes_left(s, pos),
{
    if 0 <= pos && pos + 8 <= s.len() {
        let later = last_data(s, next_chunk(s, pos));
        if later is Some {
            later
        } else if is_data(s, pos) {
            Some(pos)
        } else {
            None
        }
    } else {
        None
    }
}

/// Whether every format chunk of the chain that begins at `pos` has the sixteen
/// bytes that are read from it. A file that breaks off inside one does not.
pub open spec fn formats_are_whole(s: Seq<u8>, pos: int) -> bool
    decreases bytes_left(s, pos),
{
    0 <= pos && pos + 8 <= s.len() ==> {
        &&& is_format(s, pos) ==> pos + 24 <= s.len()
        &&& formats_are_whole(s, next_chunk(s, pos))
    }
}

/// What is wrong with a WAV file, the first fault that is found.
pub open spec fn wav_fault(s: Seq<u8>) -> Option<Seq<char>> {
    if !is_riff_wave(s) || !formats_are_whole(s, 12) {
        Some("不是合法的 WAV 文件"@)
    } else if last_format(s, 12) is None {
        Some("WAV 缺少 fmt 块"@)
    } else if last_data(s, 12) is None {
        Some("WAV 缺少 data 块"@)
    } else if wav_channels(s) == 0 {
        Some("声道数为 0"@)
    } else {
        None
    }
}

/// The number of channels that the format chunk gives.
pub open spec fn wav_channels(s: Seq<u8>) -> int {
    le16(s, last_format(s, 12)->0 + 10)
}

/// The sample rate that the format chunk gives.
pub open spec fn wav_rate(s: Seq<u8>) -> int {
    le32(s, last_format(s, 12)->0 + 12)
}

/// The sample size in bits that the format chunk gives.
pub open spec fn wav_bits(s: Seq<u8>) -> int {
    le16(s, last_format(s, 12)->0 + 22)
}

/// The body of the data chunk.
pub open spec fn wav_data(s: Seq<u8>) -> Seq<u8> {
    let q = last_data(s, 12)->0;
    s.subrange(q + 8, body_end(s, q))
}

/// Whether `e` refuses a request for the reason `why`.
pub open spec fn refuses(e: AppError, why: Seq<char>) -> bool {
    e matches AppError::BadRequest(what) && what@ == why
}

fn read_le16(s: &[u8], i: usize) -> (r: u16)
    requires
        i + 2 <= s@.len(),
    ensures
        r == le16(s@, i as int),
{
    s[i] as u16 + 256 * (s[i + 1] as u16)
}

fn read_le32(s: &[u8], i: usize) -> (r: u32)
    requires
        i + 4 <= s@.len(),
    ensures
        r == le32(s@, i as int),
{
    s[i] as u32 + 256 * (s[i + 1] as u32) + 65536 * (s[i + 2] as u32) + 16777216 * (s[i + 3] as u32)
}

fn has_tag(s: &[u8], i: usize, a: u8, b: u8, c: u8, d: u8) -> (r: bool)
    requires
        i + 4 <= s@.len(),
    ensures
        r == tag_at(s@, i as int, a, b, c, d),
{
    s[i] == a && s[i + 1] == b && s[i + 2] == c && s[i + 3] == d
}

/// Reads a WAV file: its sample rate, channels, bits per sample and sample data.
/// The last `fmt ` chunk and the last `data` chunk are the ones that count. A file that
/// breaks off inside a `fmt ` chunk is no WAV file.
pub fn parse_wav(bytes: &[u8]) -> (r: AppResult<(u32, u16, u16, &[u8])>)
    ensures
        r is Ok == (wav_fault(bytes@) is None),
        r matches Ok((rate, channels, bits, data)) ==> {
            &&& rate == wav_rate(bytes@)
            &&& channels == wav_channels(bytes@)
            &&& channels != 0
            &&& bits == wav_bits(bytes@)
            &&& data@ == wav_data(bytes@)
        },
        r matches Err(e) ==> refuses(e, wav_fault(bytes@)->0),
{
    let len = bytes.len();
    if !(len >= 12 && has_tag(bytes, 0, 0x52, 0x49, 0x46, 0x46) && has_tag(bytes, 8, 0x57, 0x41, 0x56, 0x45)) {
        return Err(AppError::BadRequest("不是合法的 WAV 文件".to_owned()));
    }
    let ghost s = bytes@;
    let mut pos: usize = 12;
    let mut format: Option<(u32, u16, u16)> = None;
    let mut data: Option<&[u8]> = None;
    let ghost mut at_format: Option<int> = None;
    let ghost mut at_data: Option<int> = None;
    let mut more: bool = true;
    while more && len - pos >= 8
        invariant
            s == bytes@,
            len == s.len(),
            12 <= pos <= len,
            is_riff_wave(s),
            formats_are_whole(s, 12) == (more ==> formats_are_whole(s, pos as int)),
            last_format(s, 12) == (if more && last_format(s, pos as int) is Some {
                last_format(s, pos as int)
            } else {
                at_format
            }),
            last_data(s, 12) == (if more && last_data(s, pos as int) is Some {
                last_data(s, pos as int)
            } else {
                at_data
            }),
            format is Some == at_format is Some,
            format matches Some((rate, channels, bits)) ==> {
                &&& rate == le32(s, at_format->0 + 12)
                &&& channels == le16(s, at_format->0 + 10)
                &&& bits == le16(s, at_format->0 + 22)
            },
            data is Some == at_data is Some,
            data matches Some(d) ==> d@ == s.subrange(at_data->0 + 8, body_end(s, at_data->0)),
        decreases len - pos, if more { 1int } else { 0int },
    {
        let size = read_le32(bytes, pos + 4) as usize;
        let body = pos + 8;
        let left = len - body;
        let end = if size <= left {
            body + size
        } else {
            len
        };
        assert(end == body_end(s, pos as int));
        let ghost next = next_chunk(s, pos as int);
        if size >= 16 && has_tag(bytes, pos, 0x66, 0x6d, 0x74, 0x20) {
            assert(is_format(s, pos as int));
            if left < 16 {
                return Err(AppError::BadRequest("不是合法的 WAV 文件".to_owned()));
            }
            format = Some((read_le32(bytes, pos + 12), read_le16(bytes, pos + 10), read_le16(bytes, pos + 22)));
            proof {
                at_format = Some(pos as int);
            }
        } else if has_tag(bytes, pos, 0x64, 0x61, 0x74, 0x61) {
            data = Some(slice_subrange(bytes, body, end));
            proof {
                at_data = Some(pos as int);
            }
        }
        if size > left || size + size % 2 > left {
            assert(last_format(s, next) is None && last_data(s, next) is None && formats_are_whole(s, next));
            more = false;
        } else {
            pos = body + size + size % 2;
            assert(pos == next);
        }
    }
    match format {
        None => Err(AppError::BadRequest("WAV 缺少 fmt 块".to_owned())),
        Some((rate, channels, bits)) => match data {
            None => Err(AppError::BadRequest("WAV 缺少 data 块".to_owned())),
            Some(d) => if channels == 0 {
                Err(AppError::BadRequest("声道数为 0".to_owned()))
            } else {
                Ok((rate, channels, bits, d))
            },
        },
    }
}

// ---------------------------------------------------------------- samples

/// The signed 16-bit number with the bits of `n`.
pub open spec fn signed16(n: int) -> int {
    if n < 32768 {
        n
    } else {
        n - 65536
    }
}

/// The 16-bit samples that the bytes of `data` are. An odd byte at the end is left out.
pub open spec fn samples_of(data: Seq<u8>) -> Seq<int> {
    Seq::new(data.len() / 2, |k: int| signed16(le16(data, 2 * k)))
}

/// The sum of a row of samples.
pub open spec fn total_of(s: Seq<int>) -> int
    decreases s.len(),
{
    if s.len() == 0 {
        0
    } else {
        total_of(s.drop_last()) + s.last()
    }
}

/// The channels of each frame added up: `channels` samples make a frame, and the
/// last one may be short.
pub open spec fn mixed(s: Seq<int>, channels: int) -> Seq<int>
    decreases s.len(),
{
    if s.len() == 0 || channels <= 0 {
        seq![]
    } else if s.len() <= channels {
        seq![total_of(s)]
    } else {
        seq![total_of(s.take(channels))] + mixed(s.skip(channels), channels)
    }
}

/// The value of a signal between its samples, times the target rate, at the time
/// `pos / TARGET_RATE` counted in samples: on the straight line between its neighbours.
pub open spec fn between(s: Seq<int>, pos: int) -> int {
    let k = pos / (TARGET_RATE as int);
    let part = pos % (TARGET_RATE as int);
    let a = s[k];
    let b = if k + 1 < s.len() {
        s[k + 1]
    } else {
        a
    };
    a * (TARGET_RATE - part) + b * part
}

/// A signal of the rate `rate` brought to the target rate, its values times the target rate.
pub open spec fn resampled(s: Seq<int>, rate: int) -> Seq<int> {
    Seq::new(
        ((s.len() * TARGET_RATE) / rate) as nat,
        |i: int| between(s, i * rate),
    )
}

/// A signal of one channel is not changed by mixing.
pub proof fn one_channel_stays_as_it_is(s: Seq<int>)
    ensures
        mixed(s, 1) == s,
    decreases s.len(),
{
    reveal_with_fuel(total_of, 2);
    if s.len() == 1 {
        assert(total_of(s.drop_last()) == 0);
        assert(mixed(s, 1) =~= s);
    } else if s.len() > 1 {
        one_channel_stays_as_it_is(s.skip(1));
        assert(total_of(s.take(1).drop_last()) == 0);
        assert(mixed(s, 1) =~= s);
    } else {
        assert(mixed(s, 1) =~= s);
    }
}

/// Mixing leaves one value for each frame, whole or short.
pub proof fn mixing_leaves_one_value_per_frame(s: Seq<int>, channels: int)
    requires
        channels > 0,
    ensures
        mixed(s, channels).len() == (s.len() + channels - 1) / channels,
    decreases s.len(),
{
    if s.len() == 0 {
        assert((channels - 1) / channels == 0) by (nonlinear_arith)
            requires
                channels > 0,
        ;
    } else if s.len() <= channels {
        assert((s.len() + channels - 1) / channels == 1) by (nonlinear_arith)
            requires
                0 < s.len() <= channels,
        ;
    } else {
        mixing_leaves_one_value_per_frame(s.skip(channels), channels);
        let n = s.len() - channels;
        assert((n + channels - 1) / channels + 1 == (n + 2 * channels - 1) / channels) by (nonlinear_arith)
            requires
                channels > 0,
                n > 0,
        ;
    }
}

/// Samples at the target rate, one channel. Each stands for the fraction
/// `numerators[i] / scale`, which lies between -1 and 1.
#[derive(Debug)]
pub struct Pcm {
    pub numerators: Vec<i64>,
    pub scale: u64,
}

impl Pcm {
    /// Whether every sample lies between -1 and 1.
    pub open spec fn is_normal(self) -> bool {
        &&& self.scale > 0
        &&& forall|i: int|
            0 <= i < self.numerators@.len() ==> -self.scale <= #[trigger] self.numerators@[i] <= self.scale
    }
}

/// What keeps a file from being decoded, the first fault that is found.
pub open spec fn decode_fault(s: Seq<u8>) -> Option<Seq<char>> {
    if wav_fault(s) is Some {
        wav_fault(s)
    } else if wav_bits(s) != 16 {
        Some("只支持 16 位 PCM WAV，收到 "@ + decimal(wav_bits(s) as nat) + " 位"@)
    } else if wav_rate(s) == 0 {
        Some("WAV 头里的采样率为 0"@)
    } else {
        None
    }
}

/// The fractions that a WAV file decodes to: numerators and their common scale.
pub open spec fn decoded(s: Seq<u8>) -> (Seq<int>, int) {
    let mono = mixed(samples_of(wav_data(s)), wav_channels(s));
    if wav_rate(s) == TARGET_RATE {
        (mono, 32768 * wav_channels(s))
    } else {
        (resampled(mono, wav_rate(s)), 32768 * wav_channels(s) * TARGET_RATE)
    }
}

/// The integers that a row of `i64` holds.
pub open spec fn ints(s: Seq<i64>) -> Seq<int> {
    s.map_values(|n: i64| n as int)
}

fn read_samples(data: &[u8]) -> (r: Vec<i64>)
    ensures
        ints(r@) == samples_of(data@),
        forall|i: int| 0 <= i < r@.len() ==> -32768 <= #[trigger] r@[i] <= 32767,
{
    let mut out: Vec<i64> = Vec::new();
    let len = data.len();
    let n = len / 2;
    let mut k: usize = 0;
    while k < n
        invariant
            len == data@.len(),
            n == len / 2,
            k <= n,
            out@.len() == k,
            forall|i: int| 0 <= i < k ==> #[trigger] out@[i] == samples_of(data@)[i],
            forall|i: int| 0 <= i < k ==> -32768 <= #[trigger] out@[i] <= 32767,
        decreases n - k,
    {
        let raw = read_le16(data, 2 * k) as i64;
        let value: i64 = if raw < 32768 {
            raw
        } else {
            raw - 65536
        };
        out.push(value);
        k += 1;
    }
    assert(ints(out@) =~= samples_of(data@));
    out
}

fn mix(samples: &Vec<i64>, channels: u16) -> (r: Vec<i64>)
    requires
        channels > 0,
        forall|i: int| 0 <= i < samples@.len() ==> -32768 <= #[trigger] samples@[i] <= 32767,
    ensures
        ints(r@) == mixed(ints(samples@), channels as int),
        forall|i: int| 0 <= i < r@.len() ==> -32768 * channels <= #[trigger] r@[i] <= 32768 * channels,
{
    let ghost all = ints(samples@);
    let ghost width = channels as int;
    let mut out: Vec<i64> = Vec::new();
    let mut start: usize = 0;
    assert(all.skip(0) =~= all);
    assert(ints(out@) + mixed(all, width) =~= mixed(all, width));
    let len = samples.len();
    while start < len
        invariant
            len == samples@.len(),
            width == channels,
            channels > 0,
            all == ints(samples@),
            start <= samples@.len(),
            forall|i: int| 0 <= i < samples@.len() ==> -32768 <= #[trigger] samples@[i] <= 32767,
            forall|i: int| 0 <= i < out@.len() ==> -32768 * channels <= #[trigger] out@[i] <= 32768 * channels,
            ints(out@) + mixed(all.skip(start as int), width) == mixed(all, width),
        decreases samples@.len() - start,
    {
        let left = len - start;
        let take: usize = if left < channels as usize {
            left
        } else {
            channels as usize
        };
        let ghost rest = all.skip(start as int);
        let mut sum: i64 = 0;
        let mut j: usize = 0;
        assert(rest.take(0) =~= Seq::<int>::empty());
        while j < take
            invariant
                j <= take <= channels,
                start + take <= len,
                len == samples@.len(),
                all == ints(samples@),
                rest == all.skip(start as int),
                forall|i: int| 0 <= i < samples@.len() ==> -32768 <= #[trigger] samples@[i] <= 32767,
                sum == total_of(rest.take(j as int)),
                -32768 * j <= sum <= 32768 * j,
            decreases take - j,
        {
            assert(rest.take(j + 1).drop_last() =~= rest.take(j as int));
            assert(rest.take(j + 1).last() == samples@[start + j]);
            sum = sum + samples[start + j];
            j += 1;
        }
        let ghost before = ints(out@);
        out.push(sum);
        proof {
            assert(ints(out@) =~= before.push(sum as int));
            let tail = mixed(all.skip(start + take), width);
            if rest.len() <= width {
                assert(rest.take(take as int) =~= rest);
                assert(all.skip(start + take).len() == 0);
                assert(ints(out@) + tail =~= before + seq![total_of(rest)]);
            } else {
                assert(rest.skip(width) =~= all.skip(start + take));
                assert(ints(out@) + tail =~= before + (seq![total_of(rest.take(width))] + tail));
            }
        }
        start += take;
    }
    assert(all.skip(start as int).len() == 0);
    assert(ints(out@) + mixed(all.skip(start as int), width) =~= ints(out@));
    out
}

fn resample(mono: &Vec<i64>, rate: u32, bound: u64) -> (r: Vec<i64>)
    requires
        rate > 0,
        bound <= 32768 * 65535,
        forall|i: int| 0 <= i < mono@.len() ==> -bound <= #[trigger] mono@[i] <= bound,
    ensures
        ints(r@) == resampled(ints(mono@), rate as int),
        forall|i: int| 0 <= i < r@.len() ==> -bound * TARGET_RATE <= #[trigger] r@[i] <= bound * TARGET_RATE,
{
    let ghost s = ints(mono@);
    let len = mono.len() as u128;
    let count: u128 = len * (TARGET_RATE as u128) / (rate as u128);
    assert(count == (s.len() * TARGET_RATE) / (rate as int));
    let mut out: Vec<i64> = Vec::new();
    let mut i: u128 = 0;
    while i < count
        invariant
            rate > 0,
            bound <= 32768 * 65535,
            len == mono@.len(),
            len <= usize::MAX,
            s == ints(mono@),
            count == (s.len() * TARGET_RATE) / (rate as int),
            i <= count,
            out@.len() == i,
            forall|k: int| 0 <= k < mono@.len() ==> -bound <= #[trigger] mono@[k] <= bound,
            forall|k: int| 0 <= k < i ==> #[trigger] out@[k] == between(s, k * rate),
            forall|k: int| 0 <= k < i ==> -bound * TARGET_RATE <= #[trigger] out@[k] <= bound * TARGET_RATE,
        decreases count - i,
    {
        let ghost whole = s.len() * TARGET_RATE;
        assert(i * rate < whole && i * rate <= u64::MAX * TARGET_RATE) by (nonlinear_arith)
            requires
                i + 1 <= count,
                rate > 0,
                count == whole / (rate as int),
                whole == len * TARGET_RATE,
                len <= usize::MAX,
        ;
        let pos: u128 = i * (rate as u128);
        let at = pos / (TARGET_RATE as u128);
        let part = (pos % (TARGET_RATE as u128)) as i64;
        assert(at < len) by (nonlinear_arith)
            requires
                pos < len * TARGET_RATE,
                at == pos / (TARGET_RATE as u128),
        ;
        let k = at as usize;
        let a = mono[k];
        let b = if k < mono.len() - 1 {
            mono[k + 1]
        } else {
            a
        };
        let rest: i64 = TARGET_RATE as i64 - part;
        assert(s[k as int] == a);
        assert(-40_000_000_000_000 <= a * rest <= 40_000_000_000_000 && -40_000_000_000_000 <= b * part
            <= 40_000_000_000_000 && -bound * TARGET_RATE <= a * rest + b * part <= bound * TARGET_RATE)
            by (nonlinear_arith)
            requires
                -bound <= a <= bound,
                -bound <= b <= bound,
                bound <= 32768 * 65535,
                part >= 0,
                rest >= 0,
                rest + part == TARGET_RATE,
        ;
        let value: i64 = a * rest + b * part;
        assert(value == between(s, i * rate));
        out.push(value);
        i += 1;
    }
    assert(ints(out@) =~= resampled(s, rate as int));
    out
}

/// Decodes a WAV file of 16-bit samples to one channel at the target rate: the
/// channels of a frame are averaged, then other rates are brought to the target
/// rate on straight lines between the samples.
pub fn decode_to_pcm(bytes: &[u8]) -> (r: AppResult<Pcm>)
    ensures
        r is Ok == (decode_fault(bytes@) is None),
        r matches Ok(pcm) ==> {
            &&& ints(pcm.numerators@) == decoded(bytes@).0
            &&& pcm.scale == decoded(bytes@).1
            &&& pcm.is_normal()
        },
        r matches Err(e) ==> refuses(e, decode_fault(bytes@)->0),
{
    let (rate, channels, bits, data) = match parse_wav(bytes) {
        Ok(parts) => parts,
        Err(e) => return Err(e),
    };
    if bits != 16 {
        let shown = decimal_text(bits as u64);
        return Err(
            AppError::BadRequest(
                "只支持 16 位 PCM WAV，收到 ".to_owned().concat(shown.as_str()).concat(" 位"),
            ),
        );
    }
    let mono = mix(&read_samples(data), channels);
    let scale: u64 = 32768 * (channels as u64);
    if rate == TARGET_RATE {
        return Ok(Pcm { numerators: mono, scale });
    }
    if rate == 0 {
        return Err(AppError::BadRequest("WAV 头里的采样率为 0".to_owned()));
    }
    let numerators = resample(&mono, rate, scale);
    Ok(Pcm { numerators, scale: scale * (TARGET_RATE as u64) })
}

// ---------------------------------------------------------------- recognition

/// What was recognised.
#[derive(Debug)]
pub struct Transcript {
    pub text: String,
    pub language: String,
    /// The number of samples, of which a second has `TARGET_RATE`.
    pub samples: usize,
}

/// A recording that is ready to be recognised.
pub struct Job {
    pub model_path: String,
    pub pcm: Pcm,
    pub language: String,
}

/// Readies a recording: finds the model, then decodes the recording.
pub fn prepare(config: &AsrConfig, audio: &[u8], language: &str) -> (r: AppResult<Job>)
    ensures
        match config.model_path {
            None => r matches Err(AppError::NotImplemented(what)) && what@ == "whisper 模型（未设置 SPEAKLAB_ASR_MODEL）"@,
            Some(path) => match decode_fault(audio@) {
                Some(why) => r matches Err(e) && refuses(e, why),
                None => {
                    &&& r matches Ok(job)
                    &&& job.model_path@ == path@
                    &&& job.language@ == language@
                    &&& job.pcm.is_normal()
                    &&& (ints(job.pcm.numerators@), job.pcm.scale as int) == decoded(audio@)
                },
            },
        },
{
    let model_path = match &config.model_path {
        Some(path) => path.clone(),
        None => return Err(AppError::NotImplemented("whisper 模型（未设置 SPEAKLAB_ASR_MODEL）".to_owned())),
    };
    let pcm = match decode_to_pcm(audio) {
        Ok(pcm) => pcm,
        Err(e) => return Err(e),
    };
    Ok(Job { model_path, pcm, language: language.to_owned() })
}

/// Whether the model has to be loaded. One that is loaded is used again, whatever has
/// become of its file; one that is not needs its file.
pub fn must_load(loaded: bool, path: &str, found: bool) -> (r: AppResult<bool>)
    ensures
        loaded ==> r == Ok::<bool, AppError>(false),
        !loaded && found ==> r == Ok::<bool, AppError>(true),
        !loaded && !found ==> (r matches Err(AppError::NotImplemented(what)) && what@ == "whisper 模型文件（找不到 "@ + path@
            + "）"@),
{
    if loaded {
        return Ok(false);
    }
    if !found {
        return Err(AppError::NotImplemented("whisper 模型文件（找不到 ".to_owned().concat(path).concat("）")));
    }
    Ok(true)
}

/// The language to ask for; none where it is to be found out.
pub fn asked_language(language: &str) -> (r: Option<&str>)
    ensures
        r is None == (language@ == "auto"@),
        r matches Some(l) ==> l@ == language@,
{
    if same(language, "auto") {
        None
    } else {
        Some(language)
    }
}

/// Texts, each trimmed and followed by a space.
pub open spec fn spaced(segments: Seq<String>) -> Seq<char>
    decreases segments.len(),
{
    if segments.len() == 0 {
        Seq::empty()
    } else {
        spaced(segments.drop_last()) + trimmed(segments.last()@) + " "@
    }
}

/// The text that the recognised segments make up: each trimmed, with a space between.
pub fn join_segments(segments: &Vec<String>) -> (r: String)
    ensures
        r@ == trimmed(spaced(segments@)),
{
    proof {
        reveal_strlit("");
    }
    let mut out: String = "".to_owned();
    let mut i: usize = 0;
    assert(out@ =~= spaced(segments@.take(0)));
    while i < segments.len()
        invariant
            i <= segments@.len(),
            out@ == spaced(segments@.take(i as int)),
        decreases segments@.len() - i,
    {
        assert(segments@.take(i + 1).drop_last() =~= segments@.take(i as int));
        out = out.concat(segments[i].as_str().trim()).concat(" ");
        i += 1;
    }
    assert(segments@.take(segments@.len() as int) =~= segments@);
    out.as_str().trim().to_owned()
}

/// The transcript of a recording of so many samples.
pub fn transcript(segments: &Vec<String>, language: String, samples: usize) -> (r: Transcript)
    ensures
        r.text@ == trimmed(spaced(segments@)),
        r.language@ == language@,
        r.samples == samples,
{
    Transcript { text: join_segments(segments), language, samples }
}

/// What can go wrong with the recogniser, each with what it said.
#[derive(Debug)]
pub enum AsrFault {
    LockPoisoned,
    NotLoaded(String),
    NoState(String),
    NotRecognised(String),
    NoSegments(String),
    NoSegmentText(String),
    Crashed(String),
    GateClosed(String),
}

impl AsrFault {
    /// The fault in words.
    pub open spec fn words(self) -> Seq<char> {
        match self {
            AsrFault::LockPoisoned => "模型锁被污染"@,
            AsrFault::NotLoaded(e) => "加载模型失败："@ + e@,
            AsrFault::NoState(e) => "创建识别状态失败："@ + e@,
            AsrFault::NotRecognised(e) => "识别失败："@ + e@,
            AsrFault::NoSegments(e) => "读取分段失败："@ + e@,
            AsrFault::NoSegmentText(e) => "读取分段文本失败："@ + e@,
            AsrFault::Crashed(e) => "识别任务崩溃："@ + e@,
            AsrFault::GateClosed(e) => "并发闸门已关闭："@ + e@,
        }
    }

    /// The error that the fault is reported as.
    pub fn error(self) -> (r: AppError)
        ensures
            r matches AppError::Internal(why) && why@ == self.words(),
    {
        let why = match self {
            AsrFault::LockPoisoned => "模型锁被污染".to_owned(),
            AsrFault::NotLoaded(e) => "加载模型失败：".to_owned().concat(e.as_str()),
            AsrFault::NoState(e) => "创建识别状态失败：".to_owned().concat(e.as_str()),
            AsrFault::NotRecognised(e) => "识别失败：".to_owned().concat(e.as_str()),
            AsrFault::NoSegments(e) => "读取分段失败：".to_owned().concat(e.as_str()),
            AsrFault::NoSegmentText(e) => "读取分段文本失败：".to_owned().concat(e.as_str()),
            AsrFault::Crashed(e) => "识别任务崩溃：".to_owned().concat(e.as_str()),
            AsrFault::GateClosed(e) => "并发闸门已关闭：".to_owned().concat(e.as_str()),
        };
        AppError::Internal(why)
    }
}

// ---------------------------------------------------------------- laws

/// The number that four bytes stand for, the lowest first.
pub open spec fn four_bytes(s: Seq<u8>, i: int) -> int {
    s[i] as int + 0x100 * s[i + 1] as int + 0x1_0000 * s[i + 2] as int + 0x100_0000 * s[i + 3] as int
}

/// A file is read as WAV files are written: behind the twelve bytes at its head a format
/// chunk, then a chunk of another kind, which is passed over with the byte that pads it
/// where its size is odd, then the data. The format gives the channels, the rate and the
/// size of a sample, each in its place, and the data is what the data chunk holds.
pub proof fn a_wav_file_is_read_as_written(s: Seq<u8>, n: int, m: int)
    requires
        0 <= n,
        0 <= m,
        ({
            let p = 44 + n + n % 2;
            &&& p + 8 + m <= s.len() < p + 16 + m
            &&& s[0] == 0x52 && s[1] == 0x49 && s[2] == 0x46 && s[3] == 0x46
            &&& s[8] == 0x57 && s[9] == 0x41 && s[10] == 0x56 && s[11] == 0x45
            &&& s[12] == 0x66 && s[13] == 0x6d && s[14] == 0x74 && s[15] == 0x20
            &&& four_bytes(s, 16) == 16
            &&& s[36] != 0x66 && s[36] != 0x64
            &&& four_bytes(s, 40) == n
            &&& s[p] == 0x64 && s[p + 1] == 0x61 && s[p + 2] == 0x74 && s[p + 3] == 0x61
            &&& four_bytes(s, p + 4) == m
        }),
    ensures
        ({
            let p = 44 + n + n % 2;
            &&& wav_channels(s) == s[22] + 0x100 * s[23]
            &&& wav_rate(s) == four_bytes(s, 24)
            &&& wav_bits(s) == s[34] + 0x100 * s[35]
            &&& wav_data(s) == s.subrange(p + 8, p + 8 + m)
            &&& wav_fault(s) is None == (s[22] != 0 || s[23] != 0)
        }),
{
    let p = 44 + n + n % 2;
    let end = p + 8 + m + m % 2;
    assert(le32(s, 16) == 16 && le32(s, 40) == n && le32(s, p + 4) == m);
    assert(next_chunk(s, 12) == 36);
    assert(next_chunk(s, 36) == p);
    assert(next_chunk(s, p) == end);
    assert(last_format(s, end) is None && last_data(s, end) is None && formats_are_whole(s, end));
    assert(last_data(s, p) == Some(p));
    assert(last_format(s, p) is None && formats_are_whole(s, p));
    assert(last_data(s, 36) == Some(p) && last_format(s, 36) is None && formats_are_whole(s, 36));
    assert(last_data(s, 12) == Some(p) && last_format(s, 12) == Some(12int) && formats_are_whole(s, 12));
}

/// What does not begin as a WAV file does is refused as none.
pub proof fn what_is_no_wav_file_is_refused(s: Seq<u8>)
    requires
        s.len() < 12 || s[0] != 0x52 || s[1] != 0x49 || s[2] != 0x46 || s[3] != 0x46 || s[8] != 0x57 || s[9] != 0x41
            || s[10] != 0x56 || s[11] != 0x45,
    ensures
        wav_fault(s) == Some("不是合法的 WAV 文件"@),
        decode_fault(s) == Some("不是合法的 WAV 文件"@),
{
}

/// A file is decoded exactly if it can be read, its samples have 16 bits, and its rate is
/// not 0.
pub proof fn sixteen_bits_are_decoded(s: Seq<u8>)
    ensures
        decode_fault(s) is None == (wav_fault(s) is None && wav_bits(s) == 16 && wav_rate(s) != 0),
        wav_fault(s) is None && wav_bits(s) != 16 ==> decode_fault(s) == Some(
            "只支持 16 位 PCM WAV，收到 "@ + decimal(wav_bits(s) as nat) + " 位"@,
        ),
        wav_fault(s) is None && wav_bits(s) == 16 && wav_rate(s) == 0 ==> decode_fault(s) == Some(
            "WAV 头里的采样率为 0"@,
        ),
{
}

/// Two bytes are one sample, the lower first, and the higher one has its sign.
pub proof fn two_bytes_are_a_sample(data: Seq<u8>, k: int)
    requires
        0 <= k < data.len() / 2,
    ensures
        samples_of(data).len() == data.len() / 2,
        data[2 * k + 1] < 0x80 ==> samples_of(data)[k] == data[2 * k] + 0x100 * data[2 * k + 1],
        data[2 * k + 1] >= 0x80 ==> samples_of(data)[k] == data[2 * k] + 0x100 * data[2 * k + 1] - 0x1_0000,
        -0x8000 <= samples_of(data)[k] < 0x8000,
{
}

/// A sum grows by each sample that is added to it.
pub proof fn samples_add_up(s: Seq<int>, x: int)
    ensures
        total_of(s.push(x)) == total_of(s) + x,
        total_of(Seq::<int>::empty()) == 0,
{
    assert(s.push(x).drop_last() =~= s);
}

/// Each frame is mixed into the sum of its own channels.
pub proof fn a_frame_is_the_sum_of_its_channels(s: Seq<int>, channels: int, i: int)
    requires
        channels > 0,
        0 <= i,
        i * channels < s.len(),
    ensures
        i < mixed(s, channels).len(),
        i * channels + channels <= s.len() ==> mixed(s, channels)[i] == total_of(
            s.subrange(i * channels, i * channels + channels),
        ),
        i * channels + channels > s.len() ==> mixed(s, channels)[i] == total_of(s.skip(i * channels)),
    decreases s.len(),
{
    if s.len() <= channels {
        assert(i == 0) by (nonlinear_arith)
            requires
                0 <= i,
                i * channels < s.len(),
                s.len() <= channels,
        ;
        assert(0 * channels == 0);
        assert(s.skip(0) =~= s);
        assert(s.subrange(0, s.len() as int) =~= s);
    } else if i == 0 {
        assert(0 * channels == 0);
        assert(s.take(channels) =~= s.subrange(0, channels));
    } else {
        let rest = s.skip(channels);
        assert((i - 1) * channels == i * channels - channels) by (nonlinear_arith);
        assert((i - 1) * channels >= 0) by (nonlinear_arith)
            requires
                i >= 1,
                channels > 0,
        ;
        a_frame_is_the_sum_of_its_channels(rest, channels, i - 1);
        let a = (i - 1) * channels;
        assert(mixed(s, channels)[i] == mixed(rest, channels)[i - 1]);
        if i * channels + channels <= s.len() {
            assert(rest.subrange(a, a + channels) =~= s.subrange(i * channels, i * channels + channels));
        } else {
            assert(rest.skip(a) =~= s.skip(i * channels));
        }
    }
}

/// A signal is brought to 16000 samples a second without a change of its length in time,
/// but for a part of a sample.
pub proof fn resampling_keeps_the_time(s: Seq<int>, rate: int)
    requires
        rate > 0,
    ensures
        resampled(s, rate).len() * rate <= s.len() * 16_000 < (resampled(s, rate).len() + 1) * rate,
{
    let n = s.len() * 16_000;
    lemma_fundamental_div_mod(n as int, rate);
    let q = n as int / rate;
    assert(q >= 0) by (nonlinear_arith)
        requires
            n == rate * q + n as int % rate,
            0 <= n as int % rate < rate,
            n >= 0,
            rate > 0,
    ;
    assert(q * rate == rate * q && (q + 1) * rate == rate * q + rate) by (nonlinear_arith);
}

/// Resampling draws straight lines: a signal that rises by the same amount from sample to
/// sample does so still, and at the times of its samples it has their values.
pub proof fn resampling_draws_straight_lines(s: Seq<int>, rate: int, a: int, b: int, i: int)
    requires
        rate > 0,
        forall|k: int| 0 <= k < s.len() ==> #[trigger] s[k] == a * k + b,
        0 <= i < resampled(s, rate).len(),
        i * rate + 16_000 < s.len() * 16_000,
    ensures
        resampled(s, rate)[i] == a * (i * rate) + b * 16_000,
{
    let pos = i * rate;
    assert(pos >= 0) by (nonlinear_arith)
        requires
            pos == i * rate,
            i >= 0,
            rate > 0,
    ;
    let k = pos / 16_000;
    let part = pos % 16_000;
    assert(k + 1 < s.len());
    assert(s[k] == a * k + b);
    assert(s[k + 1] == a * (k + 1) + b);
    assert((a * k + b) * (16_000 - part) + (a * (k + 1) + b) * part == a * (16_000 * k + part) + b * 16_000)
        by (nonlinear_arith);
}

/// A signal keeps its values at the times of its own samples, and its last value behind
/// the last of them.
pub proof fn resampling_keeps_the_samples(s: Seq<int>, k: int, part: int)
    requires
        0 <= k < s.len(),
        0 <= part < 16_000,
    ensures
        between(s, k * 16_000) == s[k] * 16_000,
        k == s.len() - 1 ==> between(s, k * 16_000 + part) == s[k] * 16_000,
{
    assert((k * 16_000) / 16_000 == k && (k * 16_000) % 16_000 == 0);
    assert((k * 16_000 + part) / 16_000 == k && (k * 16_000 + part) % 16_000 == part);
    let a = s[k];
    assert(a * (16_000 - part) + a * part == a * 16_000) by (nonlinear_arith);
    let b = if k + 1 < s.len() {
        s[k + 1]
    } else {
        a
    };
    assert(a * (16_000 - 0) + b * 0 == a * 16_000);
}

/// A recording is decoded to the mean of its channels, as a part of full scale: the
/// channels added up, over 32768 times their number; at another rate brought to 16000
/// samples a second.
pub proof fn a_recording_is_decoded_to_parts_of_full_scale(s: Seq<u8>)
    ensures
        wav_rate(s) == 16_000 ==> decoded(s).0 == mixed(samples_of(wav_data(s)), wav_channels(s)) && decoded(s).1
            == 32_768 * wav_channels(s),
        wav_rate(s) != 16_000 ==> decoded(s).0 == resampled(
            mixed(samples_of(wav_data(s)), wav_channels(s)),
            wav_rate(s),
        ) && decoded(s).1 == 32_768 * wav_channels(s) * 16_000,
{
}

/// What was recognised is put together in the order of the segments, each of them
/// trimmed, with a space behind it.
pub proof fn segments_come_in_their_order(segments: Seq<String>, next: String)
    ensures
        spaced(segments.push(next)) == spaced(segments) + trimmed(next@) + " "@,
        spaced(Seq::<String>::empty()).len() == 0,
{
    assert(segments.push(next).drop_last() =~= segments);
}

/// Of several chunks of a kind the last one counts.
pub proof fn a_later_chunk_counts(s: Seq<u8>, pos: int, later: int)
    requires
        0 <= pos,
        pos + 8 <= s.len(),
    ensures
        last_format(s, next_chunk(s, pos)) == Some(later) ==> last_format(s, pos) == Some(later),
        last_data(s, next_chunk(s, pos)) == Some(later) ==> last_data(s, pos) == Some(later),
{
}

/// A format chunk has sixteen bytes at least, and goes by its name, as a data chunk does.
pub proof fn chunks_go_by_their_names(s: Seq<u8>, pos: int)
    ensures
        is_format(s, pos) == (s[pos] == 0x66 && s[pos + 1] == 0x6d && s[pos + 2] == 0x74 && s[pos + 3] == 0x20
            && four_bytes(s, pos + 4) >= 16),
        is_data(s, pos) == (s[pos] == 0x64 && s[pos + 1] == 0x61 && s[pos + 2] == 0x74 && s[pos + 3] == 0x61),
        next_chunk(s, pos) % 2 == pos % 2,
        next_chunk(s, pos) - (pos + 8 + four_bytes(s, pos + 4)) == four_bytes(s, pos + 4) % 2,
{
}

/// A file that lacks something is refused for what it lacks: the format before the data,
/// and the data before the channels.
pub proof fn what_is_missing_is_said(s: Seq<u8>)
    requires
        is_riff_wave(s),
        formats_are_whole(s, 12),
    ensures
        last_format(s, 12) is None ==> wav_fault(s) == Some("WAV 缺少 fmt 块"@),
        last_format(s, 12) is Some && last_data(s, 12) is None ==> wav_fault(s) == Some("WAV 缺少 data 块"@),
        last_format(s, 12) is Some && last_data(s, 12) is Some && wav_channels(s) == 0 ==> wav_fault(s) == Some(
            "声道数为 0"@,
        ),
        last_format(s, 12) is Some && last_data(s, 12) is Some && wav_channels(s) != 0 ==> wav_fault(s) is None,
{
}

/// A file that breaks off inside a format chunk is refused as no WAV file.
pub proof fn a_cut_off_format_is_refused(s: Seq<u8>)
    requires
        20 <= s.len() < 36,
        s[12] == 0x66 && s[13] == 0x6d && s[14] == 0x74 && s[15] == 0x20,
        four_bytes(s, 16) >= 16,
    ensures
        wav_fault(s) == Some("不是合法的 WAV 文件"@),
{
    assert(is_format(s, 12));
    assert(!formats_are_whole(s, 12));
}

} // verus!
