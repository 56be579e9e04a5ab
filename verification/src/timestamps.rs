//! PES timestamps: decoding the 33-bit PTS/DTS fields, unrolling their
//! wrap-around into a monotone 64-bit clock, and moving between time scales.

use vstd::prelude::*;
use crate::error::RemuxError;

verus! {

/// The clock of PES timestamps, in ticks per second.
pub const MPEG_TS_TIMESCALE: u32 = 90_000;

/// A backward jump larger than this is taken for a wrap of the 33-bit clock.
pub const PTS_WRAP_THRESHOLD: u64 = 0x1_0000_0000;

/// One full cycle of the 33-bit clock.
pub const PTS_FULL_CYCLE: u64 = 0x2_0000_0000;

/// The 33-bit value of a five-byte PTS/DTS field: three bits from the first
/// byte, fifteen from the next two and fifteen from the last two, skipping
/// the marker bit at the bottom of bytes 0, 2 and 4.
pub open spec fn spec_timestamp_field(d: Seq<u8>) -> int {
    ((d[0] / 2) % 8) * 0x4000_0000 + d[1] * 0x40_0000 + (d[2] / 2) * 0x8000 + d[3] * 0x80 + d[4]
        / 2
}

/// Whether the three marker bits of a timestamp field are set.
pub open spec fn timestamp_markers_set(d: Seq<u8>) -> bool {
    d[0] % 2 == 1 && d[2] % 2 == 1 && d[4] % 2 == 1
}

pub open spec fn spec_parse_pts_dts(d: Seq<u8>) -> Result<u64, RemuxError> {
    if d.len() < 5 {
        Err(RemuxError::TimestampFieldTooShort)
    } else if !timestamp_markers_set(d) {
        Err(RemuxError::TimestampMarkerBitInvalid)
    } else {
        Ok(spec_timestamp_field(d) as u64)
    }
}

proof fn lemma_timestamp_bits(b0: u8, b1: u8, b2: u8, b3: u8, b4: u8)
    ensures
        ((((b0 >> 1u8) & 0x07u8) as u64) << 30u64 | (b1 as u64) << 22u64 | ((b2 >> 1u8) as u64)
            << 15u64 | (b3 as u64) << 7u64 | ((b4 >> 1u8) as u64)) as int == ((b0 / 2) % 8)
            * 0x4000_0000 + b1 * 0x40_0000 + (b2 / 2) * 0x8000 + b3 * 0x80 + b4 / 2,
        (b0 & 0x01u8 == 0x01u8) == (b0 % 2 == 1),
        (b2 & 0x01u8 == 0x01u8) == (b2 % 2 == 1),
        (b4 & 0x01u8 == 0x01u8) == (b4 % 2 == 1),
{
    assert(((((b0 >> 1u8) & 0x07u8) as u64) << 30u64 | (b1 as u64) << 22u64 | ((b2 >> 1u8) as u64)
        << 15u64 | (b3 as u64) << 7u64 | ((b4 >> 1u8) as u64)) as int == ((b0 / 2) % 8)
        * 0x4000_0000 + b1 * 0x40_0000 + (b2 / 2) * 0x8000 + b3 * 0x80 + b4 / 2) by (bit_vector);
    assert((b0 & 0x01u8 == 0x01u8) == (b0 % 2 == 1)) by (bit_vector);
    assert((b2 & 0x01u8 == 0x01u8) == (b2 % 2 == 1)) by (bit_vector);
    assert((b4 & 0x01u8 == 0x01u8) == (b4 % 2 == 1)) by (bit_vector);
}

/// Decodes a five-byte PTS/DTS field.
pub fn parse_pts_dts(data: &[u8]) -> (r: Result<u64, RemuxError>)
    ensures
        r == spec_parse_pts_dts(data@),
{
    if data.len() < 5 {
        return Err(RemuxError::TimestampFieldTooShort);
    }
    proof {
        lemma_timestamp_bits(data@[0], data@[1], data@[2], data@[3], data@[4]);
    }
    if data[0] & 0x01 != 0x01 || data[2] & 0x01 != 0x01 || data[4] & 0x01 != 0x01 {
        return Err(RemuxError::TimestampMarkerBitInvalid);
    }
    let value = (((data[0] >> 1) & 0x07) as u64) << 30 | (data[1] as u64) << 22 | ((data[2]
        >> 1) as u64) << 15 | (data[3] as u64) << 7 | ((data[4] >> 1) as u64);
    Ok(value)
}

/// A decoded timestamp field always fits the 33-bit clock.
pub proof fn lemma_timestamp_field_fits(d: Seq<u8>)
    requires
        d.len() >= 5,
    ensures
        0 <= spec_timestamp_field(d) < PTS_FULL_CYCLE,
{
}

/// Follows one 33-bit timestamp stream and adds a whole number of clock
/// cycles to each value, so that the values keep growing across the wraps
/// of the 33-bit clock.
#[derive(Debug, Clone, Copy, PartialEq, Eq, Structural)]
pub struct TimestampUnroller {
    pub last_raw: Option<u64>,
    pub wrap_base: u64,
}

impl Default for TimestampUnroller {
    fn default() -> (r: Self)
        ensures
            r == (TimestampUnroller { last_raw: None, wrap_base: 0 }),
    {
        TimestampUnroller { last_raw: None, wrap_base: 0 }
    }
}

/// Whether `value` is taken for a wrap of the clock: it lies more than the
/// threshold below the previous raw value.
pub open spec fn spec_wraps(u: TimestampUnroller, value: u64) -> bool {
    match u.last_raw {
        Some(last) => value < last && last - value > PTS_WRAP_THRESHOLD,
        None => false,
    }
}

/// The number of ticks added to `value` and to what follows it.
pub open spec fn spec_next_wrap_base(u: TimestampUnroller, value: u64) -> int {
    if spec_wraps(u, value) {
        u.wrap_base + PTS_FULL_CYCLE
    } else {
        u.wrap_base as int
    }
}

/// The state after unrolling `value`.
pub open spec fn spec_unroll_state(u: TimestampUnroller, value: u64) -> TimestampUnroller {
    TimestampUnroller { last_raw: Some(value), wrap_base: spec_next_wrap_base(u, value) as u64 }
}

/// The unrolled value.
pub open spec fn spec_unrolled(u: TimestampUnroller, value: u64) -> int {
    spec_next_wrap_base(u, value) + value
}

impl TimestampUnroller {
    pub fn unroll(&mut self, value: u64) -> (r: u64)
        requires
            spec_unrolled(*old(self), value) <= u64::MAX,
        ensures
            *final(self) == spec_unroll_state(*old(self), value),
            r == spec_unrolled(*old(self), value),
    {
        if let Some(last_raw) = self.last_raw {
            if value < last_raw && last_raw - value > PTS_WRAP_THRESHOLD {
                self.wrap_base += PTS_FULL_CYCLE;
            }
        }
        self.last_raw = Some(value);
        self.wrap_base + value
    }
}

/// Unrolling never changes a value modulo the clock cycle, and keeps the
/// added ticks a whole number of cycles.
pub proof fn lemma_unroll_keeps_residue(u: TimestampUnroller, value: u64)
    requires
        (u.wrap_base as int) % (PTS_FULL_CYCLE as int) == 0,
        value < PTS_FULL_CYCLE,
    ensures
        spec_next_wrap_base(u, value) % (PTS_FULL_CYCLE as int) == 0,
        spec_unrolled(u, value) % (PTS_FULL_CYCLE as int) == value,
{
    let b = spec_next_wrap_base(u, value);
    let k = b / (PTS_FULL_CYCLE as int);
    assert(b == k * (PTS_FULL_CYCLE as int)) by {
        if spec_wraps(u, value) {
            assert(u.wrap_base == ((u.wrap_base as int) / (PTS_FULL_CYCLE as int)) * (PTS_FULL_CYCLE as int));
        }
    }
    vstd::arithmetic::div_mod::lemma_mod_multiples_vanish(k, value as int, PTS_FULL_CYCLE as int);
    vstd::arithmetic::div_mod::lemma_small_mod(value as nat, PTS_FULL_CYCLE as nat);
}

/// For 33-bit inputs, an unrolled value never lies more than the wrap
/// threshold below the value unrolled before it; after a wrap it lies above.
pub proof fn lemma_unroll_never_steps_far_back(u: TimestampUnroller, last: u64, value: u64)
    requires
        u.last_raw == Some(last),
        last < PTS_FULL_CYCLE,
        value < PTS_FULL_CYCLE,
    ensures
        spec_unrolled(u, value) + PTS_WRAP_THRESHOLD >= u.wrap_base + last,
        spec_wraps(u, value) ==> spec_unrolled(u, value) > u.wrap_base + last,
{
}

/// The same time expressed in another clock: `value` ticks of `from_scale`
/// rounded to the nearest tick of `to_scale`, halves rounding up, and capped
/// at the largest `u64`.
pub open spec fn spec_scale_timestamp(value: u64, to_scale: u32, from_scale: u32) -> u64 {
    if to_scale == from_scale {
        value
    } else {
        let scaled = (value * to_scale + from_scale / 2) / (from_scale as int);
        if scaled > u64::MAX {
            u64::MAX
        } else {
            scaled as u64
        }
    }
}

pub fn scale_timestamp(value: u64, to_scale: u32, from_scale: u32) -> (r: u64)
    requires
        to_scale == from_scale || from_scale > 0,
    ensures
        r == spec_scale_timestamp(value, to_scale, from_scale),
{
    if to_scale == from_scale {
        return value;
    }
    proof {
        vstd::arithmetic::mul::lemma_mul_upper_bound(
            value as int,
            u64::MAX as int,
            to_scale as int,
            u32::MAX as int,
        );
    }
    let product = (value as u128) * (to_scale as u128);
    let scaled = product.saturating_add((from_scale / 2) as u128) / from_scale as u128;
    if scaled > u64::MAX as u128 {
        u64::MAX
    } else {
        scaled as u64
    }
}

/// Rescaling keeps the order of timestamps.
pub proof fn lemma_scale_timestamp_monotone(a: u64, b: u64, to_scale: u32, from_scale: u32)
    requires
        a <= b,
        to_scale == from_scale || from_scale > 0,
    ensures
        spec_scale_timestamp(a, to_scale, from_scale) <= spec_scale_timestamp(b, to_scale, from_scale),
{
    if to_scale != from_scale {
        vstd::arithmetic::mul::lemma_mul_inequality(a as int, b as int, to_scale as int);
        vstd::arithmetic::div_mod::lemma_div_is_ordered(
            a * to_scale + from_scale / 2,
            b * to_scale + from_scale / 2,
            from_scale as int,
        );
    }
}

/// Rescaling rounds to the nearest tick: unless capped, the result times the
/// target scale lies within half a source tick of the original time.
pub proof fn lemma_scale_timestamp_nearest(value: u64, to_scale: u32, from_scale: u32)
    requires
        from_scale > 0,
        to_scale != from_scale,
        spec_scale_timestamp(value, to_scale, from_scale) < u64::MAX,
    ensures
        spec_scale_timestamp(value, to_scale, from_scale) * from_scale <= value * to_scale
            + from_scale / 2,
        value * to_scale + from_scale / 2 < (spec_scale_timestamp(value, to_scale, from_scale) + 1)
            * from_scale,
{
    let n = value * to_scale + from_scale / 2;
    vstd::arithmetic::div_mod::lemma_fundamental_div_mod(n, from_scale as int);
    vstd::arithmetic::div_mod::lemma_mod_bound(n, from_scale as int);
    let q = n / (from_scale as int);
    assert(q * from_scale == from_scale * q) by (nonlinear_arith);
    assert((q + 1) * from_scale == from_scale * q + from_scale) by (nonlinear_arith);
}

} // verus!
