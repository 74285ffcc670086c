//! A time-scale multiplier: a finite, non-negative single-precision value,
//! held as its IEEE 754 bit pattern, and the scaling of a duration by it in
//! single precision.

use vstd::prelude::*;
use crate::duration::Duration;
use crate::single::{
    single_of_nat, single_div_billion, single_add, single_mul, below_two_pow_64, nanos_of_single,
    single_of_nat_exec, single_div_billion_exec, single_add_exec, single_mul_exec,
    below_two_pow_64_exec, nanos_of_single_exec,
};

verus! {

/// The sign bit of a single-precision bit pattern.
pub open spec fn sign_field(bits: u32) -> nat {
    (bits / 0x8000_0000) as nat
}

/// The eight biased exponent bits of a single-precision bit pattern.
pub open spec fn exponent_field(bits: u32) -> nat {
    ((bits / 0x80_0000) % 0x100) as nat
}

/// The 23 fraction bits of a single-precision bit pattern.
pub open spec fn fraction_field(bits: u32) -> nat {
    (bits % 0x80_0000) as nat
}

/// The pattern encodes a NaN.
pub open spec fn is_nan_bits(bits: u32) -> bool {
    exponent_field(bits) == 0xff && fraction_field(bits) != 0
}

/// The pattern encodes positive or negative infinity.
pub open spec fn is_infinite_bits(bits: u32) -> bool {
    exponent_field(bits) == 0xff && fraction_field(bits) == 0
}

/// The pattern encodes positive or negative zero.
pub open spec fn is_zero_bits(bits: u32) -> bool {
    exponent_field(bits) == 0 && fraction_field(bits) == 0
}

/// The pattern encodes a number below zero (negative zero is not one).
pub open spec fn is_negative_bits(bits: u32) -> bool {
    sign_field(bits) == 1 && !is_zero_bits(bits) && !is_nan_bits(bits)
}

/// The pattern is usable as a time scale: not NaN, not infinite, not negative.
pub open spec fn is_valid_scale_bits(bits: u32) -> bool {
    !is_nan_bits(bits) && !is_infinite_bits(bits) && !is_negative_bits(bits)
}

/// The integer significand of a finite pattern, implicit leading bit included.
pub open spec fn significand(bits: u32) -> nat {
    if exponent_field(bits) == 0 {
        fraction_field(bits)
    } else {
        fraction_field(bits) + 0x80_0000
    }
}

/// The power of two by which the significand is multiplied: a finite,
/// non-negative pattern stands for `significand(bits) * 2^binary_exponent(bits)`.
pub open spec fn binary_exponent(bits: u32) -> int {
    if exponent_field(bits) == 0 {
        -149
    } else {
        exponent_field(bits) - 150
    }
}

/// The seconds of a span of `nanos` nanoseconds in single precision: the
/// whole seconds and the nanoseconds past them each converted, the latter
/// divided by 10^9, and the two added, every step rounded.
pub open spec fn secs_single(nanos: nat) -> (nat, int) {
    single_add(
        single_of_nat(nanos / 1_000_000_000),
        single_div_billion(single_of_nat(nanos % 1_000_000_000)),
    )
}

/// The single-precision product of the multiplier that `bits` encodes and
/// the seconds of a span of `nanos` nanoseconds.
pub open spec fn scaled_secs(nanos: nat, bits: u32) -> (nat, int) {
    single_mul((significand(bits), binary_exponent(bits)), secs_single(nanos))
}

/// Scaling a span of `nanos` nanoseconds by `bits` gives fewer than 2^64 seconds.
pub open spec fn scale_fits(nanos: nat, bits: u32) -> bool {
    below_two_pow_64(scaled_secs(nanos, bits))
}

/// A span of `nanos` nanoseconds scaled by the multiplier that `bits`
/// encodes, in single precision: the span's seconds rounded to single
/// precision, multiplied and rounded again, and the product rounded to the
/// nearest nanosecond, ties to even.
pub open spec fn scaled_nanos(nanos: nat, bits: u32) -> nat {
    nanos_of_single(scaled_secs(nanos, bits))
}

/// The bit pattern of 1.0.
pub const ONE_BITS: u32 = 0x3f80_0000;

/// A multiplier applied to frame durations.
#[derive(Clone, Copy, Debug, PartialEq, Eq, Structural)]
pub struct TimeScale {
    bits: u32,
}

impl View for TimeScale {
    type V = u32;

    /// The IEEE 754 single-precision bit pattern of the multiplier.
    closed spec fn view(&self) -> u32 {
        self.bits
    }
}

impl TimeScale {
    #[verifier::type_invariant]
    spec fn valid(self) -> bool {
        is_valid_scale_bits(self.bits)
    }

    /// The multiplier whose single-precision bit pattern is `bits`, or `None`
    /// where that pattern is NaN, infinite or negative.
    pub fn from_f32_bits(bits: u32) -> (r: Option<TimeScale>)
        ensures
            r.is_some() <==> is_valid_scale_bits(bits),
            r.is_some() ==> r.unwrap()@ == bits,
    {
        let sign: u32 = bits / 0x8000_0000;
        let exponent: u32 = (bits / 0x80_0000) % 0x100;
        let fraction: u32 = bits % 0x80_0000;
        if exponent == 0xff {
            None
        } else if sign == 1 && !(exponent == 0 && fraction == 0) {
            None
        } else {
            Some(TimeScale { bits })
        }
    }

    /// The multiplier 1.0, which leaves durations unchanged.
    pub fn one() -> (r: TimeScale)
        ensures
            r@ == ONE_BITS,
    {
        TimeScale { bits: ONE_BITS }
    }

    /// The single-precision bit pattern of the multiplier.
    pub fn to_f32_bits(&self) -> (r: u32)
        ensures
            r == self@,
            is_valid_scale_bits(r),
    {
        proof {
            use_type_invariant(self);
        }
        self.bits
    }

    /// `d` multiplied by this scale in single precision, as `mul_f32` does.
    pub fn scale(&self, d: Duration) -> (r: Duration)
        requires
            scale_fits(d@, self@),
        ensures
            r@ == scaled_nanos(d@, self@),
    {
        self.checked_scale(d).unwrap()
    }

    /// `d` multiplied by this scale in single precision, or `None` where the
    /// product reaches 2^64 seconds.
    pub fn checked_scale(&self, d: Duration) -> (r: Option<Duration>)
        ensures
            r.is_some() <==> scale_fits(d@, self@),
            r.is_some() ==> r.unwrap()@ == scaled_nanos(d@, self@),
    {
        proof {
            use_type_invariant(self);
        }
        let bits = self.bits;
        let exponent: u32 = (bits / 0x80_0000) % 0x100;
        let fraction: u32 = bits % 0x80_0000;
        let sig: u128 = if exponent == 0 {
            fraction as u128
        } else {
            fraction as u128 + 0x80_0000
        };
        let exp: i32 = if exponent == 0 {
            -149
        } else {
            exponent as i32 - 150
        };
        let n: u128 = d.as_nanos();
        let whole = single_of_nat_exec(n / 1_000_000_000);
        let part = single_of_nat_exec(n % 1_000_000_000);
        let frac = single_div_billion_exec(part);
        let secs = single_add_exec(whole, frac);
        let product = single_mul_exec((sig, exp), secs);
        if below_two_pow_64_exec(product) {
            let nanos = nanos_of_single_exec(product);
            Some(Duration::from_nanos(nanos))
        } else {
            None
        }
    }
}

} // verus!
