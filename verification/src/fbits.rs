//! IEEE 754 bit patterns, read as integers.
//!
//! Audio samples, gains and limiter settings travel through this crate as the
//! bit patterns of their floating-point values. Everything decided on them here
//! (order, finiteness, sign) is exact on the pattern itself.

use vstd::prelude::*;

verus! {

/// The bit pattern of single-precision one.
pub const F32_ONE: u32 = 0x3f80_0000;

/// The bit pattern of single-precision minus one.
pub const F32_MINUS_ONE: u32 = 0xbf80_0000;

/// The pattern of positive infinity; a magnitude above it is a NaN.
pub const F32_INF: u32 = 0x7f80_0000;

/// The sign bit of a single-precision pattern.
pub const F32_SIGN: u32 = 0x8000_0000;

/// The pattern of double-precision infinity; a magnitude above it is a NaN.
pub const F64_INF: u64 = 0x7ff0_0000_0000_0000;

/// The sign bit of a double-precision pattern.
pub const F64_SIGN: u64 = 0x8000_0000_0000_0000;

/// A double-precision pattern without its sign.
pub open spec fn mag64(bits: u64) -> int {
    if bits < F64_SIGN {
        bits as int
    } else {
        bits - F64_SIGN
    }
}

/// A signed integer that orders double-precision patterns as their values are
/// ordered, with the two zeros equal. Meaningless for a NaN.
pub open spec fn ord64(bits: u64) -> int {
    if bits < F64_SIGN {
        mag64(bits)
    } else {
        -mag64(bits)
    }
}

/// Whether the pattern is a number in `lo..=hi`, the bounds given as patterns.
/// A NaN is in no range.
pub open spec fn within64(bits: u64, lo: u64, hi: u64) -> bool {
    mag64(bits) <= F64_INF && ord64(lo) <= ord64(bits) <= ord64(hi)
}

/// A single-precision pattern without its sign.
pub open spec fn mag32(bits: u32) -> int {
    if bits < F32_SIGN {
        bits as int
    } else {
        bits - F32_SIGN
    }
}

/// As `ord64`, for single precision.
pub open spec fn ord32(bits: u32) -> int {
    if bits < F32_SIGN {
        mag32(bits)
    } else {
        -mag32(bits)
    }
}

/// Not a number.
pub open spec fn is_nan32(bits: u32) -> bool {
    mag32(bits) > F32_INF
}

/// One, in double precision.
pub const F64_ONE: u64 = 0x3ff0_0000_0000_0000;

/// Neither infinite nor a NaN.
pub open spec fn is_finite32(bits: u32) -> bool {
    mag32(bits) < F32_INF
}

fn order64(bits: u64) -> (r: i64)
    ensures
        r == ord64(bits),
{
    if bits < F64_SIGN {
        bits as i64
    } else {
        let m: i64 = (bits - F64_SIGN) as i64;
        -m
    }
}

/// Whether a double-precision pattern is a number in `lo..=hi`.
pub fn in_range64(bits: u64, lo: u64, hi: u64) -> (r: bool)
    ensures
        r == within64(bits, lo, hi),
{
    let m: u64 = if bits < F64_SIGN {
        bits
    } else {
        bits - F64_SIGN
    };
    m <= F64_INF && order64(lo) <= order64(bits) && order64(bits) <= order64(hi)
}

/// Whether one double-precision pattern is a number that is at most another.
/// A NaN compares with nothing.
pub open spec fn at_most64(a: u64, b: u64) -> bool {
    mag64(a) <= F64_INF && mag64(b) <= F64_INF && ord64(a) <= ord64(b)
}

/// Whether `a <= b`, as numbers.
pub fn not_above64(a: u64, b: u64) -> (r: bool)
    ensures
        r == at_most64(a, b),
{
    let ma: u64 = if a < F64_SIGN {
        a
    } else {
        a - F64_SIGN
    };
    let mb: u64 = if b < F64_SIGN {
        b
    } else {
        b - F64_SIGN
    };
    ma <= F64_INF && mb <= F64_INF && order64(a) <= order64(b)
}

/// A pattern without its sign.
pub fn magnitude32(bits: u32) -> (r: u32)
    ensures
        r == mag32(bits),
{
    if bits < F32_SIGN {
        bits
    } else {
        bits - F32_SIGN
    }
}

} // verus!
