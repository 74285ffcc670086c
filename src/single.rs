//! Single-precision arithmetic on non-negative values, computed exactly in
//! integers. A value is a pair `(sig, exp)` standing for `sig * 2^exp`; every
//! operation rounds its exact result to 24 significant bits, ties to even, as
//! IEEE 754 single precision does for results in its normal range.

use vstd::prelude::*;
use vstd::arithmetic::power2::{pow2, lemma2_to64, lemma_pow2_unfold, lemma_pow2_pos, lemma_pow2_adds, lemma_pow2_strictly_increases};
use vstd::arithmetic::div_mod::{lemma_div_denominator, lemma_fundamental_div_mod, lemma_div_is_ordered_by_denominator};

verus! {

/// `n / d` rounded to the nearest integer, ties to the even one.
pub open spec fn round_half_even(n: nat, d: nat) -> nat {
    let q = n / d;
    let r = n % d;
    if 2 * r < d || (2 * r == d && q % 2 == 0) {
        q
    } else {
        q + 1
    }
}

/// How many times `q` must be halved, rounding down, to fall below 2^24.
pub open spec fn halvings(q: nat) -> nat
    decreases q,
{
    if q >= 0x100_0000 {
        1 + halvings(q / 2)
    } else {
        0
    }
}

/// `x / d` rounded to 24 significant bits, ties to even, as `(sig, s)` with
/// the value `sig * 2^s`; for `x / d >= 2^23`.
pub open spec fn round24(x: nat, d: nat) -> (nat, nat) {
    let s = halvings(x / d);
    let m = round_half_even(x, d * pow2(s));
    if m == 0x100_0000 {
        (0x80_0000, s + 1)
    } else {
        (m, s)
    }
}

proof fn lemma_pow2_le(a: nat, b: nat)
    requires
        a <= b,
    ensures
        pow2(a) <= pow2(b),
{
    if a < b {
        lemma_pow2_strictly_increases(a, b);
    }
}

fn round_half_even_exec(n: u128, d: u128) -> (r: u128)
    requires
        0 < d < 0x8000_0000_0000_0000_0000_0000_0000_0000,
    ensures
        r == round_half_even(n as nat, d as nat),
        r <= n / d + 1,
{
    let q = n / d;
    let r = n % d;
    if 2 * r < d || (2 * r == d && q % 2 == 0) {
        q
    } else {
        proof {
            lemma_fundamental_div_mod(n as int, d as int);
            assert(q < 0xffff_ffff_ffff_ffff_ffff_ffff_ffff_ffff) by (nonlinear_arith)
                requires
                    n == d * q + r,
                    d >= 2 || 2 * r >= d,
                    r < d,
                    n <= 0xffff_ffff_ffff_ffff_ffff_ffff_ffff_ffff,
            ;
        }
        q + 1
    }
}

/// Rounds `x / d` to 24 significant bits; also bounds the scale of the result.
fn round24_exec(x: u128, d: u128) -> (r: (u128, u32))
    requires
        0 < d < 0x100_0000_0000,
        x / d >= 0x80_0000,
        x < 0x80_0000_0000_0000_0000_0000_0000_0000,
    ensures
        (r.0 as nat, r.1 as nat) == round24(x as nat, d as nat),
        0x80_0000 <= r.0 < 0x100_0000,
        d * pow2(r.1 as nat) * 0x40_0000 <= x,
        x < d * pow2(r.1 as nat) * 0x100_0000,
{
    let mut q: u128 = x / d;
    let mut div: u128 = d;
    let mut s: u32 = 0;
    proof {
        lemma2_to64();
    }
    while q >= 0x100_0000
        invariant
            0 < d < 0x100_0000_0000,
            0 < div,
            div == d * pow2(s as nat),
            q == x / div,
            s == 0 ==> q >= 0x80_0000,
            s > 0 ==> q >= 0x80_0000,
            div <= d || div * 0x100_0000 <= 2 * x,
            halvings(x as nat / d as nat) == s + halvings(q as nat),
            s <= 128,
            x < 0x80_0000_0000_0000_0000_0000_0000_0000,
        decreases q,
    {
        proof {
            lemma_pow2_unfold((s + 1) as nat);
            lemma_pow2_pos(s as nat);
            lemma_div_denominator(x as int, div as int, 2);
            assert(div * 0x100_0000 <= x) by (nonlinear_arith)
                requires
                    q == x / div,
                    q >= 0x100_0000,
                    div > 0,
            {
                lemma_fundamental_div_mod(x as int, div as int);
            }
            if s >= 103 {
                lemma2_to64();
                lemma_pow2_le(103, s as nat);
                lemma_pow2_adds(64, 32);
                lemma_pow2_adds(96, 7);
                assert(false) by (nonlinear_arith)
                    requires
                        div == d * pow2(s as nat),
                        d >= 1,
                        pow2(s as nat) >= pow2(103),
                        pow2(103) == 0x80_0000_0000_0000_0000_0000_0000,
                        div * 0x100_0000 <= x,
                        x < 0x80_0000_0000_0000_0000_0000_0000_0000,
                ;
            }
            assert(div * 2 == d * pow2((s + 1) as nat)) by (nonlinear_arith)
                requires
                    div == d * pow2(s as nat),
                    pow2((s + 1) as nat) == 2 * pow2(s as nat),
            ;
        }
        div = div * 2;
        q = q / 2;
        s = s + 1;
    }
    let m = round_half_even_exec(x, div);
    proof {
        lemma_fundamental_div_mod(x as int, div as int);
        assert(div * 0x80_0000 <= x && x < div * 0x100_0000) by (nonlinear_arith)
            requires
                x == div * q + x % div,
                0 <= x % div < div,
                0x80_0000 <= q < 0x100_0000,
        ;
    }
    if m == 0x100_0000 {
        proof {
            lemma_pow2_unfold((s + 1) as nat);
            assert(d * pow2((s + 1) as nat) == 2 * div) by (nonlinear_arith)
                requires
                    div == d * pow2(s as nat),
                    pow2((s + 1) as nat) == 2 * pow2(s as nat),
            ;
        }
        (0x80_0000, s + 1)
    } else {
        (m, s)
    }
}

/// The single-precision value nearest the whole number `n`.
pub open spec fn single_of_nat(n: nat) -> (nat, int) {
    if n == 0 {
        (0, 0)
    } else {
        let r = round24(n * 0x100_0000, 1);
        (r.0, r.1 - 24)
    }
}

/// The single-precision quotient of `b` by 10^9 (`b` has an exponent of at least -60).
pub open spec fn single_div_billion(b: (nat, int)) -> (nat, int) {
    if b.0 == 0 {
        (0, 0)
    } else {
        let r = round24(b.0 * pow2((b.1 + 60) as nat), 1_000_000_000);
        (r.0, r.1 - 60)
    }
}

/// The single-precision sum of `a` and `c`.
pub open spec fn single_add(a: (nat, int), c: (nat, int)) -> (nat, int) {
    if a.0 == 0 {
        c
    } else if c.0 == 0 {
        a
    } else {
        let l = if a.1 <= c.1 {
            a.1
        } else {
            c.1
        };
        let r = round24(a.0 * pow2((a.1 - l) as nat) + c.0 * pow2((c.1 - l) as nat), 1);
        (r.0, r.1 + l)
    }
}

/// The single-precision product of `a` and `c` (results below 2^-126 are
/// rounded to 24 bits as well: none of them is as much as a nanosecond).
pub open spec fn single_mul(a: (nat, int), c: (nat, int)) -> (nat, int) {
    if a.0 == 0 || c.0 == 0 {
        (0, 0)
    } else {
        let r = round24(a.0 * c.0 * 0x100_0000, 1);
        (r.0, r.1 + a.1 + c.1 - 24)
    }
}

/// The value is below 2^64.
pub open spec fn below_two_pow_64(v: (nat, int)) -> bool {
    v.1 <= 0 || v.0 * pow2(v.1 as nat) < pow2(64)
}

/// The whole nanoseconds nearest `v` seconds, ties to even.
pub open spec fn nanos_of_single(v: (nat, int)) -> nat {
    if v.1 >= 0 {
        v.0 * 1_000_000_000 * pow2(v.1 as nat)
    } else {
        round_half_even(v.0 * 1_000_000_000, pow2((-v.1) as nat))
    }
}

/// A finite single-precision value as `(sig, exp)`: zero, or a significand
/// of exactly 24 bits.
pub open spec fn normal(v: (nat, int)) -> bool {
    v.0 == 0 || (0x80_0000 <= v.0 < 0x100_0000)
}

proof fn lemma_exp_below(s: nat, k: nat)
    requires
        pow2(s) < pow2(k),
    ensures
        s < k,
{
    if s >= k {
        lemma_pow2_le(k, s);
    }
}

/// `2^k` for `k < 127`.
fn pow2_exec(k: u32) -> (r: u128)
    requires
        k < 127,
    ensures
        r == pow2(k as nat),
{
    let mut r: u128 = 1;
    let mut i: u32 = 0;
    proof {
        lemma2_to64();
    }
    while i < k
        invariant
            i <= k < 127,
            r == pow2(i as nat),
        decreases k - i,
    {
        proof {
            lemma_pow2_unfold((i + 1) as nat);
            lemma_pow2_le((i + 1) as nat, 126);
            lemma_pow2_adds(64, 62);
            lemma_pow2_adds(32, 30);
            lemma2_to64();
        }
        r = r * 2;
        i = i + 1;
    }
    r
}

pub(crate) fn single_of_nat_exec(n: u128) -> (r: (u128, i32))
    requires
        n < 0x1_0000_0000_0000_0000,
    ensures
        (r.0 as nat, r.1 as int) == single_of_nat(n as nat),
        normal((r.0 as nat, r.1 as int)),
        n == 0 ==> r.0 == 0,
        n > 0 ==> r.0 > 0 && -23 <= r.1 <= 41,
        0 < n < 0x4000_0000 ==> r.1 <= 7,
{
    if n == 0 {
        return (0, 0);
    }
    let x = n * 0x100_0000;
    let (m, s) = round24_exec(x, 1);
    proof {
        lemma2_to64();
        lemma_pow2_adds(64, 2);
        if s == 0 {
            assert(false);
        }
        assert(pow2(s as nat) < pow2(66)) by (nonlinear_arith)
            requires
                pow2(s as nat) * 0x40_0000 <= x,
                x == n * 0x100_0000,
                n < 0x1_0000_0000_0000_0000,
                pow2(66) == 0x4_0000_0000_0000_0000,
        ;
        lemma_exp_below(s as nat, 66);
        if n < 0x4000_0000 {
            assert(pow2(s as nat) < pow2(32)) by (nonlinear_arith)
                requires
                    pow2(s as nat) * 0x40_0000 <= x,
                    x == n * 0x100_0000,
                    n < 0x4000_0000,
                    pow2(32) == 0x1_0000_0000,
            ;
            lemma_exp_below(s as nat, 32);
        }
    }
    (m, s as i32 - 24)
}

pub(crate) fn single_div_billion_exec(b: (u128, i32)) -> (r: (u128, i32))
    requires
        normal((b.0 as nat, b.1 as int)),
        b.0 > 0 ==> -23 <= b.1 <= 7,
    ensures
        (r.0 as nat, r.1 as int) == single_div_billion((b.0 as nat, b.1 as int)),
        normal((r.0 as nat, r.1 as int)),
        r.0 > 0 ==> -53 <= r.1 <= -20,
{
    if b.0 == 0 {
        return (0, 0);
    }
    let k: u32 = (b.1 + 60) as u32;
    let p = pow2_exec(k);
    proof {
        lemma2_to64();
        lemma_pow2_le(k as nat, 67);
        lemma_pow2_le(37, k as nat);
        lemma_pow2_adds(64, 3);
        lemma_pow2_adds(32, 5);
        assert(b.0 * p < 0x800_0000_0000_0000_0000_0000) by (nonlinear_arith)
            requires
                b.0 < 0x100_0000,
                p <= pow2(67),
                pow2(67) == 0x8_0000_0000_0000_0000,
        ;
        assert(b.0 * p >= 0x1000_0000_0000_0000) by (nonlinear_arith)
            requires
                b.0 >= 0x80_0000,
                p >= pow2(37),
                pow2(37) == 0x20_0000_0000,
        ;
        assert((b.0 * p) / 1_000_000_000 >= 0x80_0000) by (nonlinear_arith)
            requires
                b.0 * p >= 0x1000_0000_0000_0000,
        ;
    }
    let x = b.0 * p;
    let (m, s) = round24_exec(x, 1_000_000_000);
    proof {
        lemma_pow2_adds(32, 8);
        lemma_pow2_adds(32, 7);
        assert(pow2(s as nat) < pow2(40)) by (nonlinear_arith)
            requires
                1_000_000_000 * pow2(s as nat) * 0x40_0000 <= x,
                x < 0x800_0000_0000_0000_0000_0000,
                pow2(40) == 0x100_0000_0000,
        ;
        lemma_exp_below(s as nat, 40);
        assert(pow2(6) < pow2(s as nat)) by (nonlinear_arith)
            requires
                x < 1_000_000_000 * pow2(s as nat) * 0x100_0000,
                x >= 0x1000_0000_0000_0000,
                pow2(6) == 64,
        ;
        lemma_exp_below(6, s as nat);
    }
    (m, s as i32 - 60)
}

pub(crate) fn single_add_exec(a: (u128, i32), c: (u128, i32)) -> (r: (u128, i32))
    requires
        normal((a.0 as nat, a.1 as int)),
        normal((c.0 as nat, c.1 as int)),
        a.0 > 0 ==> -23 <= a.1 <= 41,
        c.0 > 0 ==> -53 <= c.1 <= -20,
    ensures
        (r.0 as nat, r.1 as int) == single_add((a.0 as nat, a.1 as int), (c.0 as nat, c.1 as int)),
        normal((r.0 as nat, r.1 as int)),
        r.0 > 0 ==> -53 <= r.1 <= 140,
{
    if a.0 == 0 {
        return c;
    }
    if c.0 == 0 {
        return a;
    }
    let l: i32 = if a.1 <= c.1 {
        a.1
    } else {
        c.1
    };
    let pa = pow2_exec((a.1 - l) as u32);
    let pc = pow2_exec((c.1 - l) as u32);
    proof {
        lemma2_to64();
        lemma_pow2_le((a.1 - l) as nat, 94);
        lemma_pow2_le((c.1 - l) as nat, 3);
        lemma_pow2_adds(64, 30);
        assert(a.0 * pa + c.0 * pc < 0x80_0000_0000_0000_0000_0000_0000_0000) by (nonlinear_arith)
            requires
                a.0 < 0x100_0000,
                c.0 < 0x100_0000,
                pa <= pow2(94),
                pc <= pow2(3),
                pow2(94) == 0x4000_0000_0000_0000_0000_0000,
                pow2(3) == 8,
        ;
        lemma_pow2_pos((a.1 - l) as nat);
        assert(a.0 * pa + c.0 * pc >= 0x80_0000) by (nonlinear_arith)
            requires
                a.0 >= 0x80_0000,
                pa >= 1,
        ;
    }
    let x = a.0 * pa + c.0 * pc;
    let (m, s) = round24_exec(x, 1);
    proof {
        lemma_pow2_adds(64, 32);
        lemma_pow2_adds(96, 1);
        assert(pow2(s as nat) < pow2(97)) by (nonlinear_arith)
            requires
                pow2(s as nat) * 0x40_0000 <= x,
                x < 0x80_0000_0000_0000_0000_0000_0000_0000,
                pow2(97) == 0x2_0000_0000_0000_0000_0000_0000,
        ;
        lemma_exp_below(s as nat, 97);
    }
    (m, s as i32 + l)
}

pub(crate) fn single_mul_exec(a: (u128, i32), c: (u128, i32)) -> (r: (u128, i32))
    requires
        a.0 < 0x100_0000,
        -149 <= a.1 <= 104,
        normal((c.0 as nat, c.1 as int)),
        c.0 > 0 ==> -53 <= c.1 <= 140,
    ensures
        (r.0 as nat, r.1 as int) == single_mul((a.0 as nat, a.1 as int), (c.0 as nat, c.1 as int)),
        normal((r.0 as nat, r.1 as int)),
        r.0 > 0 ==> -226 <= r.1 <= 318,
{
    if a.0 == 0 || c.0 == 0 {
        return (0, 0);
    }
    proof {
        assert(a.0 * c.0 * 0x100_0000 < 0x1_0000_0000_0000_0000_0000_0000) by (nonlinear_arith)
            requires
                a.0 < 0x100_0000,
                c.0 < 0x100_0000,
        ;
        assert(a.0 * c.0 >= 1) by (nonlinear_arith)
            requires
                a.0 >= 1,
                c.0 >= 1,
        ;
    }
    let x = a.0 * c.0 * 0x100_0000;
    let (m, s) = round24_exec(x, 1);
    proof {
        lemma2_to64();
        lemma_pow2_adds(64, 10);
        assert(pow2(s as nat) < pow2(74)) by (nonlinear_arith)
            requires
                pow2(s as nat) * 0x40_0000 <= x,
                x < 0x1_0000_0000_0000_0000_0000_0000,
                pow2(74) == 0x400_0000_0000_0000_0000,
        ;
        lemma_exp_below(s as nat, 74);
    }
    (m, s as i32 + a.1 + c.1 - 24)
}

pub(crate) fn below_two_pow_64_exec(v: (u128, i32)) -> (r: bool)
    requires
        normal((v.0 as nat, v.1 as int)),
    ensures
        r == below_two_pow_64((v.0 as nat, v.1 as int)),
        r && v.1 > 0 ==> v.1 <= 40 || v.0 == 0,
{
    proof {
        lemma2_to64();
        lemma_pow2_adds(32, 8);
        lemma_pow2_adds(32, 9);
    }
    if v.1 <= 0 {
        true
    } else if v.0 == 0 {
        true
    } else if v.1 <= 40 {
        proof {
            lemma_pow2_le(v.1 as nat, 40);
            assert(v.0 * pow2(v.1 as nat) < pow2(64)) by (nonlinear_arith)
                requires
                    v.0 < 0x100_0000,
                    pow2(v.1 as nat) <= pow2(40),
                    pow2(40) == 0x100_0000_0000,
                    pow2(64) == 0x1_0000_0000_0000_0000,
            ;
        }
        true
    } else {
        proof {
            lemma_pow2_le(41, v.1 as nat);
            assert(v.0 * pow2(v.1 as nat) >= pow2(64)) by (nonlinear_arith)
                requires
                    v.0 >= 0x80_0000,
                    pow2(v.1 as nat) >= pow2(41),
                    pow2(41) == 0x200_0000_0000,
                    pow2(64) == 0x1_0000_0000_0000_0000,
            ;
        }
        false
    }
}

pub(crate) fn nanos_of_single_exec(v: (u128, i32)) -> (r: u128)
    requires
        normal((v.0 as nat, v.1 as int)),
        below_two_pow_64((v.0 as nat, v.1 as int)),
        v.0 > 0 ==> -226 <= v.1,
    ensures
        r == nanos_of_single((v.0 as nat, v.1 as int)),
        r <= 0x1_0000_0000_0000_0000 * 1_000_000_000 - 1_000_000_000,
{
    proof {
        lemma2_to64();
        lemma_pow2_adds(32, 8);
    }
    if v.0 == 0 {
        proof {
            if v.1 < 0 {
                lemma_pow2_pos((-v.1) as nat);
                vstd::arithmetic::div_mod::lemma_basic_div(0, pow2((-v.1) as nat) as int);
                vstd::arithmetic::div_mod::lemma_small_mod(0, pow2((-v.1) as nat));
            }
        }
        return 0;
    }
    if v.1 >= 0 {
        let e: u32 = v.1 as u32;
        proof {
            if e == 0 {
                assert(v.0 * pow2(e as nat) < pow2(64));
            }
            if e > 40 {
                lemma_pow2_le(41, e as nat);
                lemma_pow2_adds(32, 9);
                assert(v.0 * pow2(e as nat) >= pow2(64)) by (nonlinear_arith)
                    requires
                        v.0 >= 0x80_0000,
                        pow2(e as nat) >= pow2(41),
                        pow2(41) == 0x200_0000_0000,
                        pow2(64) == 0x1_0000_0000_0000_0000,
                ;
            }
        }
        let p = pow2_exec(e);
        proof {
            assert(v.0 * p <= 0x1_0000_0000_0000_0000 - 1) by (nonlinear_arith)
                requires
                    v.0 * p < pow2(64),
                    pow2(64) == 0x1_0000_0000_0000_0000,
            ;
            assert(v.0 * 1_000_000_000 * p == (v.0 * p) * 1_000_000_000) by (nonlinear_arith);
        }
        v.0 * p * 1_000_000_000
    } else {
        let k: u32 = (-v.1) as u32;
        let n = v.0 * 1_000_000_000;
        if k >= 56 {
            proof {
                lemma_pow2_le(56, k as nat);
                lemma_pow2_adds(32, 24);
                assert(2 * n < pow2(k as nat));
                vstd::arithmetic::div_mod::lemma_basic_div(n as int, pow2(k as nat) as int);
                vstd::arithmetic::div_mod::lemma_small_mod(n as nat, pow2(k as nat));
            }
            0
        } else {
            let p = pow2_exec(k);
            proof {
                lemma_pow2_pos(k as nat);
                lemma_pow2_le(k as nat, 56);
                lemma_pow2_adds(32, 24);
                lemma_div_is_ordered_by_denominator(n as int, 1, p as int);
                assert(n as int / 1 == n);
                assert(n < 0x40_0000_0000_0000) by (nonlinear_arith)
                    requires
                        n == v.0 * 1_000_000_000,
                        v.0 < 0x100_0000,
                ;
            }
            round_half_even_exec(n, p)
        }
    }
}

} // verus!
