//! The bit reader and the DPCM sample decoder of compressed NWA blocks.
//!
//! A compressed block is a little-endian bit stream. Each output sample is
//! the running value of its channel after an optional change read from the
//! stream: a 3-bit exponent selects "no change / run of repeats" (0), a small
//! signed step (1..=6) or a large signed step or a reset to zero (7).
use vstd::prelude::*;

verus! {

/// The cursor of the bit reader is consistent with a stream of `len` bytes:
/// at most 16 bits are pending, the cursor is not past the end (nor at the last
/// index a `usize` can hold), and a pending overflow past one byte implies that the
/// two bytes under the cursor exist. The decoder keeps its cursor so.
pub open spec fn cursor_ok(len: nat, byte_idx: usize, bit_shift: u32) -> bool {
    &&& bit_shift <= 16
    &&& byte_idx <= len
    &&& byte_idx < usize::MAX
    &&& (bit_shift > 8 ==> byte_idx + 1 < len)
}

/// A read of bits from a cursor is defined: the byte index after the adjustment,
/// and the index after it, fit in a `usize`, and when two bytes are read the shift
/// is below the width of the word.
pub open spec fn get_bits_defined(len: nat, byte_idx: usize, bit_shift: u32) -> bool {
    let bi: int = if bit_shift > 8 {
        byte_idx + 1
    } else {
        byte_idx as int
    };
    let bs: int = if bit_shift > 8 {
        bit_shift - 8
    } else {
        bit_shift as int
    };
    &&& bi + 1 <= usize::MAX
    &&& (bi + 1 < len ==> bs < 32)
}

/// The little-endian 16-bit word that starts at byte `i`.
pub open spec fn le_word(data: Seq<u8>, i: int) -> u32 {
    (data[i] as int + 256 * data[i + 1] as int) as u32
}

/// A mask of the `bits` lowest bits.
pub open spec fn low_mask(bits: u32) -> u32 {
    ((1u32 << bits) - 1) as u32
}

/// Reading `bits` bits: when more than 8 bits of the current byte were used,
/// the cursor first moves one byte on; with fewer than two bytes left the read
/// gives 0 and the bit position stays; otherwise the bits at the bit position of
/// the 16-bit word under the cursor come back and the bit position moves on.
/// Answers the value and the new cursor.
pub open spec fn spec_get_bits(data: Seq<u8>, byte_idx: usize, bit_shift: u32, bits: u32) -> (
    u32,
    usize,
    u32,
) {
    let bi: usize = if bit_shift > 8 {
        (byte_idx + 1) as usize
    } else {
        byte_idx
    };
    let bs: u32 = if bit_shift > 8 {
        (bit_shift - 8) as u32
    } else {
        bit_shift
    };
    if bi + 1 >= data.len() {
        (0, bi, bs)
    } else {
        ((le_word(data, bi as int) >> bs) & low_mask(bits), bi, (bs + bits) as u32)
    }
}

proof fn lemma_masks(bits: u32)
    requires
        1 <= bits <= 8,
    ensures
        (1u32 << bits) >= 1,
        (1u32 << (bits - 1) as u32) >= 1,
{
    assert(1 <= bits <= 8 ==> (1u32 << bits) >= 1) by (bit_vector);
    assert(1 <= bits <= 8 ==> (1u32 << (bits - 1) as u32) >= 1) by (bit_vector);
}

/// Reads `bits` bits (fewer than 32) from `data` at the cursor `byte_idx`/`bit_shift`
/// and moves the cursor, as `spec_get_bits` says; past the end of the data it answers 0.
pub fn get_bits(data: &[u8], byte_idx: &mut usize, bit_shift: &mut u32, bits: u32) -> (value: u32)
    requires
        bits < 32,
        get_bits_defined(data@.len(), *old(byte_idx), *old(bit_shift)),
    ensures
        (value, *final(byte_idx), *final(bit_shift)) == spec_get_bits(
            data@,
            *old(byte_idx),
            *old(bit_shift),
            bits,
        ),
        cursor_ok(data@.len(), *old(byte_idx), *old(bit_shift)) && bits <= 8 ==> cursor_ok(
            data@.len(),
            *final(byte_idx),
            *final(bit_shift),
        ),
        value <= low_mask(bits),
{
    let len = data.len();
    if *bit_shift > 8 {
        *byte_idx = *byte_idx + 1;
        *bit_shift = *bit_shift - 8;
    }
    if *byte_idx + 1 >= len {
        return 0;
    }
    let val: u32 = data[*byte_idx] as u32 + 256 * (data[*byte_idx + 1] as u32);
    assert(bits < 32 ==> (1u32 << bits) >= 1) by (bit_vector);
    let mask: u32 = (1u32 << bits) - 1;
    let ret = (val >> *bit_shift) & mask;
    assert(ret <= mask) by (bit_vector)
        requires
            ret == (val >> *bit_shift) & mask,
    {
    }
    *bit_shift = *bit_shift + bits;
    ret
}

/// The fixed parameters of a compressed stream.
#[derive(Clone, Copy)]
pub struct DpcmParams {
    /// Two interleaved channels (else one).
    pub stereo: bool,
    /// Compression level, 0 to 5.
    pub comp_level: i32,
    /// Whether exponent 0 may start a run of repeated values.
    pub run_length: bool,
}

/// The decoder's state between two samples.
#[derive(Clone, Copy)]
pub struct DpcmState {
    /// Running value of the first channel.
    pub d0: i32,
    /// Running value of the second channel.
    pub d1: i32,
    /// The next sample belongs to the second channel.
    pub second: bool,
    /// Samples left in the current run of repeats.
    pub run: i32,
    pub byte_idx: usize,
    pub bit_shift: u32,
}

/// The running value of the channel that the next sample belongs to.
pub open spec fn current_value(st: DpcmState) -> i32 {
    if st.second {
        st.d1
    } else {
        st.d0
    }
}

/// `st` with the running value of the current channel replaced by `v`.
pub open spec fn with_current(st: DpcmState, v: i32) -> DpcmState {
    if st.second {
        DpcmState { d1: v, ..st }
    } else {
        DpcmState { d0: v, ..st }
    }
}

/// `st` with the bit cursor moved to `byte_idx`/`bit_shift`.
pub open spec fn at_cursor(st: DpcmState, byte_idx: usize, bit_shift: u32) -> DpcmState {
    DpcmState { byte_idx, bit_shift, ..st }
}

/// The width in bits of the step that follows `exponent`, and how far it is shifted.
pub open spec fn step_widths(comp_level: i32, exponent: u32) -> (u32, u32) {
    if exponent == 7 {
        if comp_level >= 3 {
            (8u32, 9u32)
        } else {
            ((8 - comp_level) as u32, (9 + comp_level) as u32)
        }
    } else {
        if comp_level >= 3 {
            ((comp_level + 3) as u32, (1 + exponent) as u32)
        } else {
            ((5 - comp_level) as u32, (2 + exponent + comp_level) as u32)
        }
    }
}

/// The running value `d` after a step read as `b` (`bits` wide, shifted by `shift`):
/// the top bit of `b` is the sign, the rest the magnitude.
pub open spec fn apply_step(d: i32, b: u32, bits: u32, shift: u32) -> i32 {
    let magnitude = ((b & low_mask((bits - 1) as u32)) << shift) as i32;
    if b & (1u32 << (bits - 1) as u32) != 0 {
        vstd::wrapping::i32_specs::wrapping_sub(d, magnitude)
    } else {
        vstd::wrapping::i32_specs::wrapping_add(d, magnitude)
    }
}

/// The state once a signed step of the given widths has been read and applied.
pub open spec fn read_step(data: Seq<u8>, st: DpcmState, bits: u32, shift: u32) -> DpcmState {
    let (b, bi, bs) = spec_get_bits(data, st.byte_idx, st.bit_shift, bits);
    with_current(at_cursor(st, bi, bs), apply_step(current_value(st), b, bits, shift))
}

/// The state once the code in front of one sample has been read (the running value
/// of the current channel is then the sample).
pub open spec fn dpcm_update(data: Seq<u8>, p: DpcmParams, st: DpcmState) -> DpcmState {
    if st.run != 0 {
        DpcmState { run: (st.run - 1) as i32, ..st }
    } else {
        let (e, bi, bs) = spec_get_bits(data, st.byte_idx, st.bit_shift, 3);
        let st1 = at_cursor(st, bi, bs);
        if e == 7 {
            let (z, bi2, bs2) = spec_get_bits(data, bi, bs, 1);
            let st2 = at_cursor(st1, bi2, bs2);
            if z == 1 {
                with_current(st2, 0)
            } else {
                let (bits, shift) = step_widths(p.comp_level, 7);
                read_step(data, st2, bits, shift)
            }
        } else if 1 <= e <= 6 {
            let (bits, shift) = step_widths(p.comp_level, e);
            read_step(data, st1, bits, shift)
        } else if e == 0 && p.run_length {
            let (r1, bi2, bs2) = spec_get_bits(data, bi, bs, 1);
            if r1 == 1 {
                let (r2, bi3, bs3) = spec_get_bits(data, bi2, bs2, 2);
                if r2 == 3 {
                    let (r3, bi4, bs4) = spec_get_bits(data, bi3, bs3, 8);
                    DpcmState { run: r3 as i32, ..at_cursor(st1, bi4, bs4) }
                } else {
                    DpcmState { run: r2 as i32, ..at_cursor(st1, bi3, bs3) }
                }
            } else {
                DpcmState { run: r1 as i32, ..at_cursor(st1, bi2, bs2) }
            }
        } else {
            st1
        }
    }
}

/// The sample that the decoder emits from state `st`.
pub open spec fn dpcm_emit(data: Seq<u8>, p: DpcmParams, st: DpcmState) -> i16 {
    current_value(dpcm_update(data, p, st)) as i16
}

/// The state after emitting one sample from `st`: stereo streams alternate channels.
pub open spec fn dpcm_next(data: Seq<u8>, p: DpcmParams, st: DpcmState) -> DpcmState {
    let u = dpcm_update(data, p, st);
    if p.stereo {
        DpcmState { second: !u.second, ..u }
    } else {
        u
    }
}

/// The state after `n` samples.
pub open spec fn dpcm_state_after(data: Seq<u8>, p: DpcmParams, init: DpcmState, n: nat) -> DpcmState
    decreases n,
{
    if n == 0 {
        init
    } else {
        dpcm_next(data, p, dpcm_state_after(data, p, init, (n - 1) as nat))
    }
}

/// The first `n` samples.
pub open spec fn dpcm_samples(data: Seq<u8>, p: DpcmParams, init: DpcmState, n: nat) -> Seq<i16>
    decreases n,
{
    if n == 0 {
        Seq::empty()
    } else {
        dpcm_samples(data, p, init, (n - 1) as nat).push(
            dpcm_emit(data, p, dpcm_state_after(data, p, init, (n - 1) as nat)),
        )
    }
}

/// The little-endian signed 16-bit value that starts at byte `i`.
pub open spec fn le_i16(data: Seq<u8>, i: int) -> i16 {
    le_word(data, i) as i16
}

/// The starting value of a channel whose first value stands at byte `i`: a byte for
/// 8-bit streams, a little-endian signed 16-bit value otherwise.
pub open spec fn initial_value(data: Seq<u8>, wide: bool, i: int) -> i32 {
    if wide {
        le_i16(data, i) as i32
    } else {
        data[i] as i32
    }
}

/// The state before the first sample: the starting values stand at the head of the
/// block (they are read without moving the bit cursor, which starts at byte 0).
pub open spec fn dpcm_initial(data: Seq<u8>, stereo: bool, wide: bool) -> DpcmState {
    let w: int = if wide {
        2
    } else {
        1
    };
    DpcmState {
        d0: initial_value(data, wide, 0),
        d1: if stereo {
            initial_value(data, wide, w)
        } else {
            0
        },
        second: false,
        run: 0,
        byte_idx: 0,
        bit_shift: 0,
    }
}

/// The decoder keeps its state in shape: consistent cursor, compression level in range,
/// no negative run.
pub open spec fn dpcm_state_ok(len: nat, p: DpcmParams, st: DpcmState) -> bool {
    &&& cursor_ok(len, st.byte_idx, st.bit_shift)
    &&& 0 <= p.comp_level <= 5
    &&& 0 <= st.run <= 255
}

fn step_widths_exec(comp_level: i32, exponent: u32) -> (w: (u32, u32))
    requires
        0 <= comp_level <= 5,
        1 <= exponent <= 7,
    ensures
        w == step_widths(comp_level, exponent),
        1 <= w.0 <= 8,
        w.1 <= 11,
{
    if exponent == 7 {
        if comp_level >= 3 {
            (8, 9)
        } else {
            ((8 - comp_level) as u32, (9 + comp_level) as u32)
        }
    } else {
        if comp_level >= 3 {
            ((comp_level + 3) as u32, 1 + exponent)
        } else {
            ((5 - comp_level) as u32, (2 + exponent as i32 + comp_level) as u32)
        }
    }
}

fn apply_step_exec(d: i32, b: u32, bits: u32, shift: u32) -> (r: i32)
    requires
        1 <= bits <= 8,
        shift <= 11,
    ensures
        r == apply_step(d, b, bits, shift),
{
    proof {
        lemma_masks(bits);
    }
    let mask1 = 1u32 << (bits - 1);
    let mask2 = (1u32 << (bits - 1)) - 1;
    let magnitude = ((b & mask2) << shift) as i32;
    if b & mask1 != 0 {
        d.wrapping_sub(magnitude)
    } else {
        d.wrapping_add(magnitude)
    }
}

/// Reads the code in front of one sample and emits the sample, as `dpcm_emit` and
/// `dpcm_next` say.
fn dpcm_step(data: &[u8], p: DpcmParams, st: &mut DpcmState) -> (sample: i16)
    requires
        dpcm_state_ok(data@.len(), p, *old(st)),
    ensures
        sample == dpcm_emit(data@, p, *old(st)),
        *final(st) == dpcm_next(data@, p, *old(st)),
        dpcm_state_ok(data@.len(), p, *final(st)),
{
    let _len = data.len();
    if st.run == 0 {
        let exponent = get_bits(data, &mut st.byte_idx, &mut st.bit_shift, 3);
        assert(low_mask(3) == 7) by (bit_vector);
        assert(exponent <= 7);
        if exponent == 7 {
            let z = get_bits(data, &mut st.byte_idx, &mut st.bit_shift, 1);
            if z == 1 {
                if st.second {
                    st.d1 = 0;
                } else {
                    st.d0 = 0;
                }
            } else {
                let (bits, shift) = step_widths_exec(p.comp_level, 7);
                let b = get_bits(data, &mut st.byte_idx, &mut st.bit_shift, bits);
                if st.second {
                    st.d1 = apply_step_exec(st.d1, b, bits, shift);
                } else {
                    st.d0 = apply_step_exec(st.d0, b, bits, shift);
                }
            }
        } else if exponent >= 1 {
            let (bits, shift) = step_widths_exec(p.comp_level, exponent);
            let b = get_bits(data, &mut st.byte_idx, &mut st.bit_shift, bits);
            if st.second {
                st.d1 = apply_step_exec(st.d1, b, bits, shift);
            } else {
                st.d0 = apply_step_exec(st.d0, b, bits, shift);
            }
        } else if p.run_length {
            let r1 = get_bits(data, &mut st.byte_idx, &mut st.bit_shift, 1);
            if r1 == 1 {
                let r2 = get_bits(data, &mut st.byte_idx, &mut st.bit_shift, 2);
                if r2 == 3 {
                    let r3 = get_bits(data, &mut st.byte_idx, &mut st.bit_shift, 8);
                    assert(low_mask(8) == 255) by (bit_vector);
        assert(r3 <= 255);
                    st.run = r3 as i32;
                } else {
                    assert(low_mask(2) == 3) by (bit_vector);
        assert(r2 <= 3);
                    st.run = r2 as i32;
                }
            } else {
                assert(low_mask(1) == 1) by (bit_vector);
        assert(r1 <= 1);
                st.run = r1 as i32;
            }
        }
    } else {
        st.run = st.run - 1;
    }
    let sample = if st.second {
        #[verifier::truncate]
        (st.d1 as i16)
    } else {
        #[verifier::truncate]
        (st.d0 as i16)
    };
    if p.stereo {
        st.second = !st.second;
    }
    sample
}

/// The code in front of a sample is exponent 7 followed by the bit 1 (a reset).
pub open spec fn reset_code_next(data: Seq<u8>, st: DpcmState) -> bool {
    let (e, bi, bs) = spec_get_bits(data, st.byte_idx, st.bit_shift, 3);
    &&& e == 7
    &&& spec_get_bits(data, bi, bs, 1).0 == 1
}

/// A reset code sets its channel to zero: when no run is pending and the next bits
/// are exponent 7 then 1, the sample is 0 and the channel's running value is 0 from
/// then on, whatever it was before; the other channel keeps its value.
pub proof fn law_reset_code_gives_zero(data: Seq<u8>, p: DpcmParams, st: DpcmState)
    requires
        st.run == 0,
        reset_code_next(data, st),
    ensures
        dpcm_emit(data, p, st) == 0,
        current_value(dpcm_update(data, p, st)) == 0,
        dpcm_update(data, p, st).second == st.second,
        st.second ==> dpcm_update(data, p, st).d0 == st.d0,
        !st.second ==> dpcm_update(data, p, st).d1 == st.d1,
        dpcm_update(data, p, st).run == 0,
{
}

/// While a run of repeats is pending, no bits are read: the sample repeats the
/// channel's running value, both running values stay, and the run shortens by one.
pub proof fn law_pending_run_repeats(data: Seq<u8>, p: DpcmParams, st: DpcmState)
    requires
        st.run > 0,
    ensures
        dpcm_emit(data, p, st) == current_value(st) as i16,
        dpcm_update(data, p, st).d0 == st.d0,
        dpcm_update(data, p, st).d1 == st.d1,
        dpcm_update(data, p, st).run == st.run - 1,
        dpcm_update(data, p, st).byte_idx == st.byte_idx,
        dpcm_update(data, p, st).bit_shift == st.bit_shift,
{
}

/// Exponent 0 changes no value: the sample repeats the channel's running value and
/// both running values stay (with run-length coding it may start a run).
pub proof fn law_exponent_zero_keeps_values(data: Seq<u8>, p: DpcmParams, st: DpcmState)
    requires
        st.run == 0,
        spec_get_bits(data, st.byte_idx, st.bit_shift, 3).0 == 0,
    ensures
        dpcm_emit(data, p, st) == current_value(st) as i16,
        dpcm_update(data, p, st).d0 == st.d0,
        dpcm_update(data, p, st).d1 == st.d1,
        !p.run_length ==> dpcm_update(data, p, st).run == 0,
{
}

/// Sample `k` of a block is the one emitted from the state after `k` samples.
pub proof fn law_sample_at(data: Seq<u8>, p: DpcmParams, init: DpcmState, n: nat, k: nat)
    requires
        k < n,
    ensures
        dpcm_samples(data, p, init, n).len() == n,
        dpcm_samples(data, p, init, n)[k as int] == dpcm_emit(
            data,
            p,
            dpcm_state_after(data, p, init, k),
        ),
    decreases n,
{
    if k + 1 < n {
        law_sample_at(data, p, init, (n - 1) as nat, k);
    } else {
        lemma_samples_len(data, p, init, (n - 1) as nat);
    }
}

proof fn lemma_samples_len(data: Seq<u8>, p: DpcmParams, init: DpcmState, n: nat)
    ensures
        dpcm_samples(data, p, init, n).len() == n,
    decreases n,
{
    if n > 0 {
        lemma_samples_len(data, p, init, (n - 1) as nat);
    }
}

/// Samples of a stereo block alternate between the channels, starting with the first;
/// a mono block uses only the first.
pub proof fn law_channels_alternate(data: Seq<u8>, p: DpcmParams, init: DpcmState, k: nat)
    requires
        !init.second,
    ensures
        dpcm_state_after(data, p, init, k).second == (p.stereo && k % 2 == 1),
    decreases k,
{
    if k > 0 {
        law_channels_alternate(data, p, init, (k - 1) as nat);
    }
}

/// In a decoded block, a sample whose code is a reset (exponent 7 then the bit 1, with
/// no run pending) is 0.
pub proof fn law_reset_sample_in_block(data: Seq<u8>, p: DpcmParams, init: DpcmState, n: nat, k: nat)
    requires
        k < n,
        dpcm_state_after(data, p, init, k).run == 0,
        reset_code_next(data, dpcm_state_after(data, p, init, k)),
    ensures
        dpcm_samples(data, p, init, n)[k as int] == 0,
{
    law_sample_at(data, p, init, n, k);
    law_reset_code_gives_zero(data, p, dpcm_state_after(data, p, init, k));
}

/// Decodes `out_samples` samples of a compressed block `raw` whose running values
/// start as `dpcm_initial` says (the head of `raw` must hold one starting value per
/// channel).
pub fn decode_dpcm(raw: &[u8], out_samples: usize, p: DpcmParams, wide: bool) -> (samples: Vec<
    i16,
>)
    requires
        0 <= p.comp_level <= 5,
        raw@.len() >= (if p.stereo {
            2int
        } else {
            1int
        }) * (if wide {
            2int
        } else {
            1int
        }),
    ensures
        samples@ == dpcm_samples(raw@, p, dpcm_initial(raw@, p.stereo, wide), out_samples as nat),
{
    let d0: i32 = if wide {
        ((raw[0] as u16 + 256 * (raw[1] as u16)) as i16) as i32
    } else {
        raw[0] as i32
    };
    let d1: i32 = if p.stereo {
        if wide {
            ((raw[2] as u16 + 256 * (raw[3] as u16)) as i16) as i32
        } else {
            raw[1] as i32
        }
    } else {
        0
    };
    let ghost init = dpcm_initial(raw@, p.stereo, wide);
    let mut st = DpcmState { d0, d1, second: false, run: 0, byte_idx: 0, bit_shift: 0 };
    assert(st == init);
    let mut out: Vec<i16> = Vec::with_capacity(out_samples);
    while out.len() < out_samples
        invariant
            out@.len() <= out_samples,
            out@ == dpcm_samples(raw@, p, init, out@.len() as nat),
            st == dpcm_state_after(raw@, p, init, out@.len() as nat),
            dpcm_state_ok(raw@.len(), p, st),
        decreases out_samples - out@.len(),
    {
        let sample = dpcm_step(raw, p, &mut st);
        out.push(sample);
    }
    out
}

} // verus!
