//! The NWA container: its 44-byte header, its block offset table and the
//! layout of its sample blocks.
use vstd::prelude::*;
use vstd::string::*;
use crate::error::{DecoderError, ErrorView};
use crate::text::{decimal, int_text};
use crate::nwa_dpcm::{DpcmParams, decode_dpcm, dpcm_samples, dpcm_initial, le_i16};

verus! {

/// Size of the NWA header in bytes.
pub const NWA_HEADER_LEN: usize = 0x2c;

/// Samples per block of an uncompressed stream.
pub const UNCOMPRESSED_BLOCK_SAMPLES: i32 = 65536;

/// Largest number of blocks accepted.
pub const MAX_BLOCK_COUNT: i32 = 1_000_000;

/// The fields of an NWA header, after the adjustments for uncompressed streams.
#[derive(Debug, Clone, Copy, PartialEq, Eq, Structural)]
pub struct NwaHeader {
    pub channels: u16,
    /// Bits per sample: 8 or 16.
    pub bps: u16,
    pub sample_rate: u32,
    /// -1 for uncompressed data, else 0 to 5.
    pub comp_level: i32,
    pub use_run_length: i32,
    pub block_count: i32,
    pub data_size: i32,
    pub comp_data_size: i32,
    /// Number of sample values over all channels.
    pub sample_count: i32,
    /// Samples per block.
    pub block_size: i32,
    /// Samples in the last block.
    pub rest_size: i32,
}

/// The little-endian unsigned 16-bit value at byte `i`.
pub open spec fn le_u16_at(b: Seq<u8>, i: int) -> u16 {
    (b[i] + 256 * b[i + 1]) as u16
}

/// The little-endian unsigned 32-bit value at byte `i`.
pub open spec fn le_u32_at(b: Seq<u8>, i: int) -> u32 {
    (b[i] + 256 * b[i + 1] + 65536 * b[i + 2] + 16777216 * b[i + 3]) as u32
}

/// The little-endian signed 32-bit value at byte `i`.
pub open spec fn le_i32_at(b: Seq<u8>, i: int) -> i32 {
    le_u32_at(b, i) as i32
}

/// The header fields exactly as they are stored.
pub open spec fn stored_header(b: Seq<u8>) -> NwaHeader {
    NwaHeader {
        channels: le_u16_at(b, 0x00),
        bps: le_u16_at(b, 0x02),
        sample_rate: le_u32_at(b, 0x04),
        comp_level: le_i32_at(b, 0x08),
        use_run_length: le_i32_at(b, 0x0c),
        block_count: le_i32_at(b, 0x10),
        data_size: le_i32_at(b, 0x14),
        comp_data_size: le_i32_at(b, 0x18),
        sample_count: le_i32_at(b, 0x1c),
        block_size: le_i32_at(b, 0x20),
        rest_size: le_i32_at(b, 0x24),
    }
}

/// Division that rounds towards zero (for `m > 0`), as Rust's `/` on integers does.
pub open spec fn trunc_div(a: int, m: int) -> int {
    if a >= 0 {
        a / m
    } else {
        -((-a) / m)
    }
}

/// The remainder that goes with `trunc_div`, as Rust's `%` on integers gives it.
pub open spec fn trunc_rem(a: int, m: int) -> int {
    a - m * trunc_div(a, m)
}

/// Bytes per sample.
pub open spec fn bytes_per_sample(bps: u16) -> int {
    bps as int / 8
}

/// An uncompressed stream's layout, derived from its data size: blocks of 65536
/// samples, then a partial block with the remaining whole samples.
pub open spec fn uncompressed_layout(h: NwaHeader) -> NwaHeader {
    let byps = bytes_per_sample(h.bps);
    let unit = UNCOMPRESSED_BLOCK_SAMPLES * byps;
    let rest = trunc_div(trunc_rem(h.data_size as int, unit), byps);
    let count = trunc_div(h.data_size as int, unit) + if rest > 0 {
        1int
    } else {
        0int
    };
    NwaHeader {
        block_size: UNCOMPRESSED_BLOCK_SAMPLES,
        rest_size: rest as i32,
        block_count: count as i32,
        ..h
    }
}

pub open spec fn msg_channels(channels: u16) -> Seq<char> {
    "NWA: only mono/stereo supported, got "@ + decimal(channels as int) + " channels"@
}

pub open spec fn msg_bps(bps: u16) -> Seq<char> {
    "NWA: only 8/16 bit supported, got "@ + decimal(bps as int) + " bits"@
}

pub open spec fn msg_comp_level(level: i32) -> Seq<char> {
    "NWA: unsupported compression level "@ + decimal(level as int)
}

pub open spec fn msg_block_count(count: i32) -> Seq<char> {
    "NWA: invalid block count "@ + decimal(count as int)
}

/// What reading the header `b` gives: the checks in order (channels, bits per
/// sample, compression level, then the block count of the possibly derived
/// layout), each with its message, else the header.
pub open spec fn spec_read_header(b: Seq<u8>) -> Result<NwaHeader, ErrorView> {
    let h = stored_header(b);
    if h.channels != 1 && h.channels != 2 {
        Err(ErrorView::UnsupportedFormat(msg_channels(h.channels)))
    } else if h.bps != 8 && h.bps != 16 {
        Err(ErrorView::UnsupportedFormat(msg_bps(h.bps)))
    } else if h.comp_level < -1 || h.comp_level > 5 {
        Err(ErrorView::UnsupportedFormat(msg_comp_level(h.comp_level)))
    } else {
        let l = if h.comp_level == -1 {
            uncompressed_layout(h)
        } else {
            h
        };
        if l.block_count <= 0 || l.block_count > MAX_BLOCK_COUNT {
            Err(ErrorView::UnsupportedFormat(msg_block_count(l.block_count)))
        } else {
            Ok(l)
        }
    }
}

/// A header that passed the checks.
pub open spec fn header_ok(h: NwaHeader) -> bool {
    &&& (h.channels == 1 || h.channels == 2)
    &&& (h.bps == 8 || h.bps == 16)
    &&& -1 <= h.comp_level <= 5
    &&& 0 < h.block_count <= MAX_BLOCK_COUNT
    &&& (h.comp_level == -1 ==> h.block_size == UNCOMPRESSED_BLOCK_SAMPLES && 0 <= h.rest_size
        < UNCOMPRESSED_BLOCK_SAMPLES)
}

/// A result seen through the error's view.
pub open spec fn result_view<T>(r: Result<T, DecoderError>) -> Result<T, ErrorView> {
    match r {
        Ok(v) => Ok(v),
        Err(e) => Err(e@),
    }
}

fn read_le_u16(b: &[u8], i: usize) -> (v: u16)
    requires
        i + 2 <= b@.len(),
    ensures
        v == le_u16_at(b@, i as int),
{
    (b[i] as u16) + 256 * (b[i + 1] as u16)
}

fn read_le_u32(b: &[u8], i: usize) -> (v: u32)
    requires
        i + 4 <= b@.len(),
    ensures
        v == le_u32_at(b@, i as int),
{
    (b[i] as u32) + 256 * (b[i + 1] as u32) + 65536 * (b[i + 2] as u32) + 16777216 * (b[i
        + 3] as u32)
}

fn read_le_i32(b: &[u8], i: usize) -> (v: i32)
    requires
        i + 4 <= b@.len(),
    ensures
        v == le_i32_at(b@, i as int),
{
    read_le_u32(b, i) as i32
}

proof fn lemma_trunc_rem_bounds(a: int, m: int)
    requires
        m > 0,
    ensures
        a >= 0 ==> 0 <= trunc_rem(a, m) < m,
        a < 0 ==> -m < trunc_rem(a, m) <= 0,
{
    if a >= 0 {
        vstd::arithmetic::div_mod::lemma_fundamental_div_mod(a, m);
        vstd::arithmetic::div_mod::lemma_mod_pos_bound(a, m);
    } else {
        vstd::arithmetic::div_mod::lemma_fundamental_div_mod(-a, m);
        vstd::arithmetic::div_mod::lemma_mod_pos_bound(-a, m);
        assert(trunc_rem(a, m) == -((-a) % m)) by (nonlinear_arith)
            requires
                -a == m * ((-a) / m) + (-a) % m,
                trunc_rem(a, m) == a - m * (-((-a) / m)),
        ;
    }
}

/// Division rounding towards zero by a positive divisor.
fn trunc_div_i32(a: i32, m: i32) -> (q: i32)
    requires
        m > 0,
    ensures
        q == trunc_div(a as int, m as int),
        trunc_rem(a as int, m as int) == a - m * q,
        a >= 0 ==> 0 <= a - m * q < m,
        a < 0 ==> -m < a - m * q <= 0,
{
    proof {
        lemma_trunc_rem_bounds(a as int, m as int);
    }
    if a >= 0 {
        ((a as u32) / (m as u32)) as i32
    } else {
        let magnitude: u32 = (-(a as i64)) as u32;
        let q: u32 = magnitude / (m as u32);
        (-(q as i64)) as i32
    }
}

/// The message text of `prefix` followed by the decimal text of `n`.
fn message_number(prefix: &str, n: i64) -> (text: String)
    ensures
        text@ == prefix@ + decimal(n as int),
{
    String::from_str(prefix).concat(int_text(n).as_str())
}

/// The message text of `prefix` followed by the decimal text of `n` and `suffix`.
fn message_with_number(prefix: &str, n: i64, suffix: &str) -> (text: String)
    ensures
        text@ == prefix@ + decimal(n as int) + suffix@,
{
    message_number(prefix, n).concat(suffix)
}

/// Reads an NWA header from its first 44 bytes: checks the format and, for an
/// uncompressed stream, derives the block layout from the data size.
pub fn read_header(bytes: &[u8]) -> (header: Result<NwaHeader, DecoderError>)
    requires
        bytes@.len() >= NWA_HEADER_LEN,
    ensures
        result_view(header) == spec_read_header(bytes@),
        header matches Ok(h) ==> header_ok(h),
{
    let channels = read_le_u16(bytes, 0x00);
    let bps = read_le_u16(bytes, 0x02);
    let sample_rate = read_le_u32(bytes, 0x04);
    let comp_level = read_le_i32(bytes, 0x08);
    let use_run_length = read_le_i32(bytes, 0x0c);
    let mut block_count = read_le_i32(bytes, 0x10);
    let data_size = read_le_i32(bytes, 0x14);
    let comp_data_size = read_le_i32(bytes, 0x18);
    let sample_count = read_le_i32(bytes, 0x1c);
    let mut block_size = read_le_i32(bytes, 0x20);
    let mut rest_size = read_le_i32(bytes, 0x24);
    let ghost stored = stored_header(bytes@);
    if channels != 1 && channels != 2 {
        return Err(
            DecoderError::UnsupportedFormat(
                message_with_number(
                    "NWA: only mono/stereo supported, got ",
                    channels as i64,
                    " channels",
                ),
            ),
        );
    }
    if bps != 8 && bps != 16 {
        return Err(
            DecoderError::UnsupportedFormat(
                message_with_number("NWA: only 8/16 bit supported, got ", bps as i64, " bits"),
            ),
        );
    }
    if comp_level < -1 || comp_level > 5 {
        return Err(
            DecoderError::UnsupportedFormat(
                message_number("NWA: unsupported compression level ", comp_level as i64),
            ),
        );
    }
    if comp_level == -1 {
        block_size = UNCOMPRESSED_BLOCK_SAMPLES;
        let byps: i32 = (bps / 8) as i32;
        let unit: i32 = block_size * byps;
        let q = trunc_div_i32(data_size, unit);
        let r: i32 = data_size - unit * q;
        rest_size = trunc_div_i32(r, byps);
        let rest: i32 = if rest_size > 0 {
            1
        } else {
            0
        };
        block_count = q + rest;
    }
    if block_count <= 0 || block_count > MAX_BLOCK_COUNT {
        return Err(
            DecoderError::UnsupportedFormat(
                message_number("NWA: invalid block count ", block_count as i64),
            ),
        );
    }
    Ok(
        NwaHeader {
            channels,
            bps,
            sample_rate,
            comp_level,
            use_run_length,
            block_count,
            data_size,
            comp_data_size,
            sample_count,
            block_size,
            rest_size,
        },
    )
}

/// The message of an offset table whose last entry lies past the compressed data.
pub open spec fn msg_offset_overrun() -> Seq<char> {
    "NWA: last offset overruns file"@
}

/// The offset table: `count` little-endian signed 32-bit values.
pub open spec fn offset_table(table: Seq<u8>, count: int) -> Seq<i32> {
    Seq::new(count as nat, |i: int| le_i32_at(table, 4 * i))
}

/// What reading the offset table gives: nothing for an uncompressed stream; else the
/// table, refused when its last offset is not below the compressed data size.
pub open spec fn spec_read_offsets(h: NwaHeader, table: Seq<u8>) -> Result<Seq<i32>, ErrorView> {
    if h.comp_level == -1 {
        Ok(Seq::empty())
    } else {
        let offsets = offset_table(table, h.block_count as int);
        if offsets.last() >= h.comp_data_size {
            Err(ErrorView::Decode(msg_offset_overrun()))
        } else {
            Ok(offsets)
        }
    }
}

/// Reads the block offset table that follows the header of a compressed stream
/// (`table` holds its `4 * block_count` bytes); an uncompressed stream has none.
pub fn read_offsets(h: &NwaHeader, table: &[u8]) -> (offsets: Result<Vec<i32>, DecoderError>)
    requires
        header_ok(*h),
        h.comp_level != -1 ==> table@.len() == 4 * h.block_count,
    ensures
        match offsets {
            Ok(v) => spec_read_offsets(*h, table@) == Ok::<Seq<i32>, ErrorView>(v@),
            Err(e) => spec_read_offsets(*h, table@) == Err::<Seq<i32>, ErrorView>(e@),
        },
{
    let mut offsets: Vec<i32> = Vec::new();
    if h.comp_level == -1 {
        return Ok(offsets);
    }
    let count = h.block_count as usize;
    let mut i: usize = 0;
    while i < count
        invariant
            count == h.block_count,
            count <= MAX_BLOCK_COUNT,
            table@.len() == 4 * count,
            i <= count,
            offsets@ == offset_table(table@, i as int),
        decreases count - i,
    {
        offsets.push(read_le_i32(table, 4 * i));
        i = i + 1;
        assert(offsets@ =~= offset_table(table@, i as int));
    }
    assert(offsets@ =~= offset_table(table@, h.block_count as int));
    if offsets[count - 1] >= h.comp_data_size {
        return Err(DecoderError::Decode(String::from_str("NWA: last offset overruns file")));
    }
    Ok(offsets)
}

/// The duration in milliseconds of `sample_count` sample values over all channels at
/// `rate` frames per second; 0 when the rate or the channel count is 0. The count is
/// taken as an unsigned 64-bit value and the product with 1000 wraps around, as
/// Rust's release builds compute it.
pub open spec fn spec_duration_ms(sample_count: i32, rate: u32, channels: u16) -> u64 {
    if rate > 0 && channels > 0 {
        (vstd::wrapping::u64_specs::wrapping_mul(sample_count as u64, 1000) as int / (rate as int
            * channels as int)) as u64
    } else {
        0
    }
}

/// Computes `spec_duration_ms`.
pub fn duration_ms(sample_count: i32, rate: u32, channels: u16) -> (ms: u64)
    ensures
        ms == spec_duration_ms(sample_count, rate, channels),
        0 <= sample_count && rate > 0 && channels > 0 ==> ms == (sample_count as int * 1000) / (
        rate as int * channels as int),
{
    if rate > 0 && channels > 0 {
        proof {
            assert(0 < rate as int * channels as int <= 0xffff_ffff * 0xffff) by (nonlinear_arith)
                requires
                    0 < rate <= 0xffff_ffff,
                    0 < channels <= 0xffff,
            ;
        }
        let den: u64 = rate as u64 * channels as u64;
        let count: u64 = #[verifier::truncate] (sample_count as u64);
        count.wrapping_mul(1000) / den
    } else {
        0
    }
}

/// The number of sample values over all channels in the first `ms` milliseconds at
/// `rate` frames per second; the products wrap around, as Rust's release builds compute it.
pub open spec fn spec_samples_at_ms(ms: u64, rate: u32, channels: u16) -> u64 {
    (vstd::wrapping::u64_specs::wrapping_mul(
        vstd::wrapping::u64_specs::wrapping_mul(ms, rate as u64),
        channels as u64,
    ) / 1000) as u64
}

/// Computes `spec_samples_at_ms`.
pub fn samples_at_ms(ms: u64, rate: u32, channels: u16) -> (samples: u64)
    ensures
        samples == spec_samples_at_ms(ms, rate, channels),
        ms * rate * channels <= u64::MAX ==> samples == (ms * rate * channels) / 1000,
{
    proof {
        if channels == 0 {
            let w = vstd::wrapping::u64_specs::wrapping_mul(ms, rate as u64);
            assert(w * 0 == 0);
        }
        if ms * rate * channels <= u64::MAX && channels > 0 {
            assert(ms * rate <= u64::MAX) by (nonlinear_arith)
                requires
                    ms * rate * channels <= u64::MAX,
                    ms >= 0,
                    rate >= 0,
                    channels >= 1,
            ;
        }
    }
    ms.wrapping_mul(rate as u64).wrapping_mul(channels as u64) / 1000
}

/// One decoded sample of uncompressed data: little-endian 16-bit values, or bytes
/// taken as signed and moved to the high byte.
pub open spec fn pcm_sample(raw: Seq<u8>, wide: bool, i: int) -> i16 {
    if wide {
        le_i16(raw, 2 * i)
    } else {
        ((raw[i] as i8) as int * 256) as i16
    }
}

/// The samples of an uncompressed block: every whole sample of `raw`.
pub open spec fn pcm_samples(raw: Seq<u8>, wide: bool) -> Seq<i16> {
    let width: nat = if wide {
        2
    } else {
        1
    };
    Seq::new(raw.len() / width, |i: int| pcm_sample(raw, wide, i))
}

/// Decodes the whole samples of an uncompressed block.
pub fn decode_pcm(raw: &[u8], wide: bool) -> (samples: Vec<i16>)
    ensures
        samples@ == pcm_samples(raw@, wide),
{
    let len = raw.len();
    let count: usize = if wide {
        len / 2
    } else {
        len
    };
    let mut out: Vec<i16> = Vec::with_capacity(count);
    let mut i: usize = 0;
    while i < count
        invariant
            count == (if wide {
                raw@.len() / 2
            } else {
                raw@.len()
            }),
            i <= count,
            len == raw@.len(),
            out@ =~= pcm_samples(raw@, wide).subrange(0, i as int),
        decreases count - i,
    {
        let sample: i16 = if wide {
            (raw[2 * i] as u16 + 256 * (raw[2 * i + 1] as u16)) as i16
        } else {
            let byte: i8 = #[verifier::truncate] (raw[i] as i8);
            (byte as i16) * 256
        };
        out.push(sample);
        i = i + 1;
    }
    out
}

/// A stream of NWA blocks: the header, the offset table, and the block being read.
/// The file itself is read by the caller, which hands each block's bytes in.
pub struct NwaStream {
    pub header: NwaHeader,
    pub offsets: Vec<i32>,
    /// Index of the block in `decoded`; -1 before the first.
    pub cur_block: i32,
    /// Samples of the current block.
    pub decoded: Vec<i16>,
    /// Samples of the current block already handed out.
    pub decoded_pos: usize,
    /// Sample values handed out since the start (or the last seek target).
    pub total_samples: u64,
    pub duration_ms: u64,
}

/// The stream holds compressed blocks.
pub open spec fn is_compressed(h: NwaHeader) -> bool {
    h.comp_level != -1
}

/// The compressed-stream parameters of `h`.
pub open spec fn dpcm_params(h: NwaHeader) -> DpcmParams {
    DpcmParams { stereo: h.channels == 2, comp_level: h.comp_level, run_length: h.use_run_length == 1 }
}

/// The next block to decode, as (samples in it, bytes to read for it); `None` at
/// the end of the stream. Uncompressed blocks hold their samples' bytes; a compressed
/// block spans up to the next offset, and the last one is read with at most
/// twice a block's bytes (capped at 1 MiB).
pub open spec fn spec_next_block(s: NwaStream) -> Option<(usize, usize)> {
    let h = s.header;
    let next = vstd::wrapping::i32_specs::wrapping_add(s.cur_block, 1);
    let last = h.block_count - 1;
    let byps = bytes_per_sample(h.bps);
    if !is_compressed(h) {
        if next < last {
            Some((h.block_size as usize, (h.block_size * byps) as usize))
        } else if next == last {
            Some((h.rest_size as usize, (h.rest_size * byps) as usize))
        } else {
            None
        }
    } else {
        if next < last {
            Some(
                (
                    h.block_size as usize,
                    vstd::wrapping::i32_specs::wrapping_sub(
                        s.offsets@[next + 1],
                        s.offsets@[next as int],
                    ) as usize,
                ),
            )
        } else if next == last {
            let span = vstd::wrapping::usize_specs::wrapping_mul(
                vstd::wrapping::usize_specs::wrapping_mul(h.block_size as usize, byps as usize),
                2,
            );
            Some((h.rest_size as usize, if span < 0x100000 {
                span
            } else {
                0x100000usize
            }))
        } else {
            None
        }
    }
}

/// The number of samples of the next block (when there is one).
pub open spec fn next_block_samples(s: NwaStream) -> usize {
    match spec_next_block(s) {
        Some((samples, _)) => samples,
        None => 0,
    }
}

/// The samples that the bytes `raw` of the next block decode to (`samples` of them
/// for a compressed block).
pub open spec fn block_samples(h: NwaHeader, raw: Seq<u8>, samples: usize) -> Seq<i16> {
    if is_compressed(h) {
        dpcm_samples(
            raw,
            dpcm_params(h),
            dpcm_initial(raw, h.channels == 2, h.bps == 16),
            samples as nat,
        )
    } else {
        pcm_samples(raw, h.bps == 16)
    }
}

/// The first sample of the uncompressed block that holds sample `target`.
pub open spec fn uncompressed_block_start(target: u64) -> u64 {
    (target - target % 65536) as u64
}

/// Where a seek to sample `target` moves the file: `Some(position)` of the block that
/// holds the sample (for uncompressed data, the byte of that block's first sample),
/// `None` when the current block already holds it, or the error for a block past the
/// table.
pub open spec fn spec_seek_position(s: NwaStream, target: u64) -> Result<Option<u64>, ErrorView> {
    let h = s.header;
    if !is_compressed(h) {
        Ok(
            Some(
                vstd::wrapping::u64_specs::wrapping_add(
                    0x2c,
                    vstd::wrapping::u64_specs::wrapping_mul(
                        uncompressed_block_start(target),
                        bytes_per_sample(h.bps) as u64,
                    ),
                ),
            ),
        )
    } else {
        let idx = target_block(h, target);
        if idx == s.cur_block {
            Ok(None)
        } else if 0 <= idx < s.offsets@.len() {
            Ok(Some(s.offsets@[idx as int] as u64))
        } else {
            Err(ErrorView::SeekError("block index out of range"@))
        }
    }
}

/// The block that holds sample `target`.
pub open spec fn target_block(h: NwaHeader, target: u64) -> i32 {
    if !is_compressed(h) {
        (target / 65536) as i32
    } else if h.block_size > 0 {
        (target / (h.block_size as u64)) as i32
    } else {
        0
    }
}

/// Where in its block sample `target` stands.
pub open spec fn target_offset(h: NwaHeader, target: u64) -> u64 {
    if !is_compressed(h) {
        target % 65536
    } else {
        target % (h.block_size as u64)
    }
}

impl NwaStream {
    /// The stream is in shape: a checked header, one offset per block for compressed
    /// data (none else), the current block within the table, and the read position
    /// within the current block.
    pub open spec fn wf(&self) -> bool {
        &&& header_ok(self.header)
        &&& (is_compressed(self.header) ==> self.offsets@.len() == self.header.block_count && -1
            <= self.cur_block < self.header.block_count)
        &&& (!is_compressed(self.header) ==> self.offsets@.len() == 0)
        &&& self.decoded_pos <= self.decoded@.len()
    }

    /// A stream at its start: no block decoded yet, and the duration from the header.
    pub fn new(header: NwaHeader, offsets: Vec<i32>) -> (s: NwaStream)
        requires
            header_ok(header),
            is_compressed(header) ==> offsets@.len() == header.block_count,
            !is_compressed(header) ==> offsets@.len() == 0,
        ensures
            s.wf(),
            s.header == header,
            s.offsets@ == offsets@,
            s.cur_block == -1,
            s.decoded@.len() == 0,
            s.decoded_pos == 0,
            s.total_samples == 0,
            s.duration_ms == spec_duration_ms(
                header.sample_count,
                header.sample_rate,
                header.channels,
            ),
    {
        let duration_ms = duration_ms(header.sample_count, header.sample_rate, header.channels);
        NwaStream {
            header,
            offsets,
            cur_block: -1,
            decoded: Vec::new(),
            decoded_pos: 0,
            total_samples: 0,
            duration_ms,
        }
    }

    /// The current block has no samples left to hand out.
    pub fn needs_block(&self) -> (needed: bool)
        ensures
            needed == (self.decoded@.len() == 0 || self.decoded_pos >= self.decoded@.len()),
    {
        self.decoded.len() == 0 || self.decoded_pos >= self.decoded.len()
    }

    /// The next block to read, as `spec_next_block` says.
    pub fn next_block(&self) -> (next: Option<(usize, usize)>)
        requires
            self.wf(),
        ensures
            next == spec_next_block(*self),
    {
        let h = &self.header;
        let next = self.cur_block.wrapping_add(1);
        let last = h.block_count - 1;
        let byps: usize = (h.bps / 8) as usize;
        if h.comp_level == -1 {
            assert(byps <= 2 && 0 <= h.rest_size < 65536 && h.block_size == 65536);
            if next < last {
                Some((h.block_size as usize, h.block_size as usize * byps))
            } else if next == last {
                let rest: usize = h.rest_size as usize;
                assert(rest * byps <= 131070) by (nonlinear_arith)
                    requires
                        rest < 65536,
                        byps <= 2,
                ;
                Some((rest, rest * byps))
            } else {
                None
            }
        } else {
            if next < last {
                let idx = next as usize;
                Some(
                    (
                        h.block_size as usize,
                        self.offsets[idx + 1].wrapping_sub(self.offsets[idx]) as usize,
                    ),
                )
            } else if next == last {
                let span = (h.block_size as usize).wrapping_mul(byps).wrapping_mul(2);
                Some((h.rest_size as usize, if span < 0x100000 {
                    span
                } else {
                    0x100000
                }))
            } else {
                None
            }
        }
    }

    /// Decodes the bytes `raw` read for the next block and makes it the current block;
    /// answers its number of samples. No next block, or no bytes, means the end of the
    /// stream.
    pub fn load_block(&mut self, raw: &[u8]) -> (loaded: Result<usize, DecoderError>)
        requires
            old(self).wf(),
            is_compressed(old(self).header) && raw@.len() > 0 ==> raw@.len() >= old(
                self,
            ).header.channels * bytes_per_sample(old(self).header.bps),
        ensures
            final(self).wf(),
            final(self).header == old(self).header,
            final(self).offsets@ == old(self).offsets@,
            final(self).total_samples == old(self).total_samples,
            final(self).duration_ms == old(self).duration_ms,
            (spec_next_block(*old(self)) is None || raw@.len() == 0) ==> {
                &&& loaded matches Err(e) && e@ == ErrorView::EndOfStream
                &&& final(self).cur_block == old(self).cur_block
                &&& final(self).decoded@ == old(self).decoded@
                &&& final(self).decoded_pos == old(self).decoded_pos
            },
            (spec_next_block(*old(self)) is Some && raw@.len() > 0) ==> {
                let samples = next_block_samples(*old(self));
                &&& final(self).decoded@ == block_samples(old(self).header, raw@, samples)
                &&& loaded == Ok::<usize, DecoderError>(final(self).decoded@.len() as usize)
                &&& final(self).decoded_pos == 0
                &&& final(self).cur_block == vstd::wrapping::i32_specs::wrapping_add(
                    old(self).cur_block,
                    1,
                )
            },
    {
        let samples = match self.next_block() {
            Some((samples, _)) => samples,
            None => {
                return Err(DecoderError::EndOfStream);
            },
        };
        if raw.len() == 0 {
            return Err(DecoderError::EndOfStream);
        }
        if self.header.comp_level == -1 {
            self.decoded = decode_pcm(raw, self.header.bps == 16);
        } else {
            let p = DpcmParams {
                stereo: self.header.channels == 2,
                comp_level: self.header.comp_level,
                run_length: self.header.use_run_length == 1,
            };
            self.decoded = decode_dpcm(raw, samples, p, self.header.bps == 16);
            proof {
                law_dpcm_block_length(raw@, p, dpcm_initial(raw@, p.stereo, self.header.bps == 16), samples as nat);
            }
        }
        self.decoded_pos = 0;
        self.cur_block = self.cur_block.wrapping_add(1);
        Ok(self.decoded.len())
    }

    /// Hands out up to `max` samples of the current block and counts them.
    pub fn take_samples(&mut self, max: usize) -> (taken: Vec<i16>)
        requires
            old(self).wf(),
        ensures
            final(self).wf(),
            ({
                let pos = old(self).decoded_pos as int;
                let left = old(self).decoded@.len() - pos;
                let n = if left < max {
                    left
                } else {
                    max as int
                };
                &&& taken@ == old(self).decoded@.subrange(pos, pos + n)
                &&& final(self).decoded_pos == pos + n
                &&& final(self).total_samples == vstd::wrapping::u64_specs::wrapping_add(
                    old(self).total_samples,
                    n as u64,
                )
            }),
            final(self).decoded@ == old(self).decoded@,
            final(self).header == old(self).header,
            final(self).offsets@ == old(self).offsets@,
            final(self).cur_block == old(self).cur_block,
            final(self).duration_ms == old(self).duration_ms,
    {
        let len = self.decoded.len();
        let remaining = len - self.decoded_pos;
        let n = if remaining < max {
            remaining
        } else {
            max
        };
        let mut taken: Vec<i16> = Vec::with_capacity(n);
        let mut i: usize = 0;
        while i < n
            invariant
                i <= n,
                len == self.decoded@.len(),
                self.decoded_pos + n <= len,
                taken@ =~= self.decoded@.subrange(
                    self.decoded_pos as int,
                    self.decoded_pos + i,
                ),
            decreases n - i,
        {
            taken.push(self.decoded[self.decoded_pos + i]);
            i = i + 1;
        }
        self.decoded_pos = self.decoded_pos + n;
        self.total_samples = self.total_samples.wrapping_add(n as u64);
        taken
    }

    /// The sample value that `time_ms` milliseconds into the stream stand at.
    pub fn seek_target(&self, time_ms: u64) -> (target: u64)
        ensures
            target == spec_samples_at_ms(time_ms, self.header.sample_rate, self.header.channels),
    {
        samples_at_ms(time_ms, self.header.sample_rate, self.header.channels)
    }

    fn target_block_exec(&self, target: u64) -> (idx: i32)
        ensures
            idx == target_block(self.header, target),
    {
        if self.header.comp_level == -1 {
            (target / 65536) as i32
        } else if self.header.block_size > 0 {
            (target / (self.header.block_size as u64)) as i32
        } else {
            0
        }
    }

    /// Where the file must move for a seek to sample `target`, as `spec_seek_position`
    /// says.
    pub fn seek_position(&self, target: u64) -> (position: Result<Option<u64>, DecoderError>)
        requires
            self.wf(),
        ensures
            result_view(position) == spec_seek_position(*self, target),
    {
        if self.header.comp_level == -1 {
            let byps: u64 = (self.header.bps / 8) as u64;
            let block_start: u64 = target - target % 65536;
            return Ok(Some(0x2cu64.wrapping_add(block_start.wrapping_mul(byps))));
        }
        let idx = self.target_block_exec(target);
        if idx == self.cur_block {
            Ok(None)
        } else if idx >= 0 && (idx as usize) < self.offsets.len() {
            Ok(Some(self.offsets[idx as usize] as u64))
        } else {
            Err(DecoderError::SeekError(String::from_str("block index out of range")))
        }
    }

    /// Once the file stands at the block of sample `target`: makes that block the next
    /// one to decode and drops the current one.
    pub fn reposition(&mut self, target: u64)
        requires
            old(self).wf(),
            is_compressed(old(self).header) ==> spec_seek_position(*old(self), target) matches Ok(
                Some(_),
            ),
        ensures
            final(self).wf(),
            final(self).cur_block == vstd::wrapping::i32_specs::wrapping_sub(
                target_block(old(self).header, target),
                1,
            ),
            final(self).decoded@.len() == 0,
            final(self).decoded_pos == 0,
            final(self).header == old(self).header,
            final(self).offsets@ == old(self).offsets@,
            final(self).total_samples == old(self).total_samples,
            final(self).duration_ms == old(self).duration_ms,
    {
        let idx = self.target_block_exec(target);
        self.cur_block = idx.wrapping_sub(1);
        self.decoded.clear();
        self.decoded_pos = 0;
    }

    /// Ends a seek to sample `target` once its block is decoded: the read position moves
    /// to the sample (or the end of the block) and the count of samples becomes `target`.
    pub fn finish_seek(&mut self, target: u64)
        requires
            old(self).wf(),
            is_compressed(old(self).header) ==> old(self).header.block_size != 0,
        ensures
            final(self).wf(),
            final(self).decoded_pos == (if (target_offset(old(self).header, target) as usize)
                < old(self).decoded@.len() {
                target_offset(old(self).header, target) as usize
            } else {
                old(self).decoded@.len() as usize
            }),
            final(self).total_samples == target,
            final(self).decoded@ == old(self).decoded@,
            final(self).cur_block == old(self).cur_block,
            final(self).header == old(self).header,
            final(self).offsets@ == old(self).offsets@,
            final(self).duration_ms == old(self).duration_ms,
    {
        let skip: u64 = if self.header.comp_level == -1 {
            target % 65536
        } else {
            let block_size = self.header.block_size;
            let divisor: u64 = #[verifier::truncate] (block_size as u64);
            assert(block_size != 0 ==> divisor != 0) by (bit_vector)
                requires
                    divisor == block_size as u64,
            ;
            target % divisor
        };
        let skip: usize = #[verifier::truncate] (skip as usize);
        self.decoded_pos = if skip < self.decoded.len() {
            skip
        } else {
            self.decoded.len()
        };
        self.total_samples = target;
    }
}

/// A seek in uncompressed data lands on its target: the file moves to the first byte
/// of the block that holds the target (the block's first sample is the block's index
/// times 65536), and the read position within that block is the target's distance
/// from that first sample.
pub proof fn law_uncompressed_seek_lands_on_target(s: NwaStream, target: u64)
    requires
        s.wf(),
        !is_compressed(s.header),
        target / 65536 <= i32::MAX,
        0x2c + target * 2 <= u64::MAX,
    ensures
        spec_seek_position(s, target) == Ok::<Option<u64>, ErrorView>(
            Some((0x2c + uncompressed_block_start(target) * bytes_per_sample(s.header.bps)) as u64),
        ),
        uncompressed_block_start(target) == target_block(s.header, target) as int * 65536,
        uncompressed_block_start(target) + target_offset(s.header, target) == target,
{
    let byps = bytes_per_sample(s.header.bps);
    let start = uncompressed_block_start(target);
    assert(start <= target);
    assert(start * byps <= target * 2) by (nonlinear_arith)
        requires
            start <= target,
            0 <= start,
            1 <= byps <= 2,
    ;
    vstd::arithmetic::div_mod::lemma_fundamental_div_mod(target as int, 65536);
}

/// The stream `s` placed before block `k` (so that block `k` is the next one).
pub open spec fn before_block(s: NwaStream, k: int) -> NwaStream {
    NwaStream { cur_block: (k - 1) as i32, ..s }
}

/// The number of bytes read for block `k`.
pub open spec fn block_bytes(s: NwaStream, k: int) -> int {
    match spec_next_block(before_block(s, k)) {
        Some((_, nbytes)) => nbytes as int,
        None => 0,
    }
}

/// The bytes read for the first `k` blocks together.
pub open spec fn bytes_of_blocks(s: NwaStream, k: nat) -> int
    decreases k,
{
    if k == 0 {
        0
    } else {
        bytes_of_blocks(s, (k - 1) as nat) + block_bytes(s, k - 1)
    }
}

/// An uncompressed block is read whole: the bytes read for it are its samples times
/// the bytes per sample, for full blocks and for the last one alike.
pub proof fn law_uncompressed_block_bytes(s: NwaStream)
    requires
        s.wf(),
        !is_compressed(s.header),
    ensures
        spec_next_block(s) matches Some((samples, nbytes)) ==> nbytes == samples
            * bytes_per_sample(s.header.bps),
{
}

proof fn lemma_uncompressed_bytes_prefix(s: NwaStream, k: nat)
    requires
        s.wf(),
        !is_compressed(s.header),
        k <= s.header.block_count,
    ensures
        bytes_of_blocks(s, k) == (if k < s.header.block_count {
            k * 65536 * bytes_per_sample(s.header.bps)
        } else {
            (k - 1) * 65536 * bytes_per_sample(s.header.bps) + s.header.rest_size
                * bytes_per_sample(s.header.bps)
        }),
    decreases k,
{
    if k > 0 {
        lemma_uncompressed_bytes_prefix(s, (k - 1) as nat);
        let j = k - 1;
        assert(vstd::wrapping::i32_specs::wrapping_add((j - 1) as i32, 1) == j);
        let byps = bytes_per_sample(s.header.bps);
        let h = s.header;
        assert(byps == 1 || byps == 2);
        let t = before_block(s, j);
        assert(t.header == h);
        assert(t.cur_block == j - 1);
        assert(vstd::wrapping::i32_specs::wrapping_add(t.cur_block, 1) == j);
        assert(h.block_size * byps == 65536 * byps);
        if j < h.block_count - 1 {
            assert(spec_next_block(t) == Some::<(usize, usize)>((65536usize, (65536 * byps) as usize)));
            assert(block_bytes(s, j) == 65536 * byps);
        } else {
            assert(block_bytes(s, j) == h.rest_size * byps);
        }
        assert(bytes_of_blocks(s, k) == bytes_of_blocks(s, j as nat) + block_bytes(s, j));
        assert(bytes_of_blocks(s, j as nat) == j * 65536 * byps);
        if k < h.block_count {
            assert((j * 65536 * byps) + 65536 * byps == k * 65536 * byps) by (nonlinear_arith)
                requires
                    j == k - 1,
            ;
        } else {
            assert(j == k - 1);
            assert(bytes_of_blocks(s, k) == (k - 1) * 65536 * byps + h.rest_size * byps);
        }
    } else {
        assert(bytes_of_blocks(s, k) == 0);
        assert(k * 65536 * bytes_per_sample(s.header.bps) == 0) by (nonlinear_arith)
            requires
                k == 0,
        ;
    }
}

/// The blocks of an uncompressed stream read exactly its data: for a header read from
/// `bytes`, the bytes read for all its blocks sum to the data size, when the data size
/// is a whole number of samples and the data does not end on a block boundary (when it
/// does, the last block is counted with no samples, as the stream's layout says).
pub proof fn law_uncompressed_blocks_cover_data(bytes: Seq<u8>, s: NwaStream)
    requires
        s.wf(),
        spec_read_header(bytes) == Ok::<NwaHeader, ErrorView>(s.header),
        !is_compressed(s.header),
        s.header.data_size % (bytes_per_sample(s.header.bps) as i32) == 0,
        s.header.rest_size > 0,
    ensures
        bytes_of_blocks(s, s.header.block_count as nat) == s.header.data_size,
{
    let h = s.header;
    let stored = stored_header(bytes);
    let byps = bytes_per_sample(h.bps);
    let unit = 65536 * byps;
    assert(h == uncompressed_layout(stored));
    lemma_uncompressed_bytes_prefix(s, h.block_count as nat);
    let d = h.data_size as int;
    let q = trunc_div(d, unit);
    let r = trunc_rem(d, unit);
    lemma_trunc_rem_bounds(d, unit);
    lemma_trunc_rem_bounds(r, byps);
    // The rest is positive, so the data size is not negative.
    if d < 0 {
        assert(r <= 0);
        assert(trunc_div(r, byps) <= 0) by {
            vstd::arithmetic::div_mod::lemma_div_pos_is_pos(-r, byps);
        }
    }
    assert(d >= 0);
    assert(r >= 0);
    assert(h.block_count == q + 1);
    assert(h.rest_size == trunc_div(r, byps));
    // The rest is a whole number of samples, since the data size and the block unit are.
    vstd::arithmetic::div_mod::lemma_fundamental_div_mod(d, byps);
    vstd::arithmetic::div_mod::lemma_fundamental_div_mod(r, byps);
    vstd::arithmetic::div_mod::lemma_fundamental_div_mod(d, unit);
    assert(d % byps == 0);
    assert(r % byps == 0) by {
        assert(r == d - unit * q);
        assert(unit * q == byps * (65536 * q)) by (nonlinear_arith)
            requires unit == 65536 * byps;
        vstd::arithmetic::div_mod::lemma_mod_multiples_vanish(-(65536 * q), d, byps);
        assert(d + byps * (-(65536 * q)) == r) by (nonlinear_arith)
            requires r == d - unit * q, unit == 65536 * byps;
    }
    assert(h.rest_size * byps == r) by (nonlinear_arith)
        requires
            r == byps * (r / byps) + r % byps,
            r % byps == 0,
            h.rest_size == r / byps,
    ;
    assert((h.block_count - 1) * 65536 * byps == unit * q) by (nonlinear_arith)
        requires
            h.block_count == q + 1,
            unit == 65536 * byps,
    ;
}

/// A compressed block decodes to exactly the number of samples asked for.
pub proof fn law_dpcm_block_length(raw: Seq<u8>, p: DpcmParams, init: crate::nwa_dpcm::DpcmState, n: nat)
    ensures
        dpcm_samples(raw, p, init, n).len() == n,
    decreases n,
{
    if n > 0 {
        law_dpcm_block_length(raw, p, init, (n - 1) as nat);
    }
}

} // verus!
