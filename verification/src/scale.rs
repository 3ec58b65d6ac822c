//! Double-precision numbers scaled to whole units.
//!
//! A number times a whole factor is computed as double-precision arithmetic
//! does it: the exact product, rounded to 53 significant bits with ties to even.
//! The result is then taken to a whole number.
use vstd::arithmetic::div_mod::lemma_div_denominator;
use vstd::arithmetic::power2::{
    lemma2_to64, lemma2_to64_rest, lemma_pow2_adds, lemma_pow2_pos, lemma_pow2_strictly_increases,
    lemma_pow2_unfold, pow2,
};
use vstd::prelude::*;

use crate::number::{Double, EXPONENT_ONES, ONE_BITS};

verus! {

/// The weight of the exponent field, two to the 52nd.
pub const EXPONENT_UNIT: u64 = 0x10_0000_0000_0000;

/// What 53 significant bits can tell apart, two to the 53rd.
pub const PRECISION: u64 = 0x20_0000_0000_0000;

/// The significand of a finite number.
pub open spec fn significand(d: Double) -> nat {
    if d.magnitude() < EXPONENT_UNIT {
        d.magnitude() as nat
    } else {
        (d.magnitude() % EXPONENT_UNIT + EXPONENT_UNIT) as nat
    }
}

/// The power of two that the significand is multiplied by.
pub open spec fn exponent(d: Double) -> int {
    if d.magnitude() < EXPONENT_UNIT {
        -1074
    } else {
        d.magnitude() / EXPONENT_UNIT - 1075
    }
}

/// The unit that a number of any length is rounded to, so that 53 significant
/// bits are left.
pub open spec fn precision_unit(p: nat) -> nat
    decreases p,
{
    if p < PRECISION {
        1
    } else {
        2 * precision_unit(p / 2)
    }
}

/// `p / unit` to the nearest whole number, ties to even.
pub open spec fn nearest_even(p: nat, unit: nat) -> nat {
    let q = p / unit;
    let r = p % unit;
    if 2 * r > unit || (2 * r == unit && q % 2 == 1) {
        q + 1
    } else {
        q
    }
}

/// The magnitude of a finite number times a factor, as a multiple of the power of
/// two of its exponent.
pub open spec fn product(d: Double, factor: u32) -> nat {
    shortened(significand(d) * (factor as nat))
}

/// `x` times a power of two, to the nearest whole number, halves upwards.
pub open spec fn nearest_whole(x: nat, e: int) -> nat {
    if e >= 0 {
        x * pow2(e as nat)
    } else {
        (2 * x + pow2((-e) as nat)) / (2 * pow2((-e) as nat))
    }
}

/// The whole part of `x` times a power of two.
pub open spec fn whole_part(x: nat, e: int) -> nat {
    if e >= 0 {
        x * pow2(e as nat)
    } else {
        x / pow2((-e) as nat)
    }
}

/// A number of 64 bits, the greatest one for anything larger.
pub open spec fn at_most_u64(n: nat) -> u64 {
    if n <= u64::MAX {
        n as u64
    } else {
        u64::MAX
    }
}

fn split_number(d: &Double) -> (res: (u64, i32))
    requires
        d.magnitude() < EXPONENT_ONES,
    ensures
        res.0 == significand(*d),
        res.0 < PRECISION,
        res.1 == exponent(*d),
        -1074 <= res.1 <= 971,
{
    let m: u64 = if d.bits >= 0x8000_0000_0000_0000 {
        d.bits - 0x8000_0000_0000_0000
    } else {
        d.bits
    };
    if m < EXPONENT_UNIT {
        (m, -1074)
    } else {
        let e: u64 = m / EXPONENT_UNIT;
        (m % EXPONENT_UNIT + EXPONENT_UNIT, e as i32 - 1075)
    }
}

proof fn lemma_unit_step(p: nat, u: nat, q: nat)
    requires
        u > 0,
        q == p / u,
        q >= PRECISION,
    ensures
        precision_unit(q) == 2 * precision_unit(q / 2),
        q / 2 == p / (2 * u),
        u * PRECISION <= p,
{
    lemma_div_denominator(p as int, u as int, 2);
    assert(u * 2 == 2 * u) by (nonlinear_arith);
    assert(u * q <= p) by (nonlinear_arith)
        requires
            q == p / u,
            u > 0,
    ;
    assert(u * PRECISION <= u * q) by (nonlinear_arith)
        requires
            q >= PRECISION,
            u > 0,
    ;
}

/// A whole number to 53 significant bits, ties to even.
pub open spec fn shortened(p: nat) -> nat {
    nearest_even(p, precision_unit(p)) * precision_unit(p)
}

proof fn lemma_unit_fits(p: nat)
    requires
        p > 0,
    ensures
        1 <= precision_unit(p) <= p,
    decreases p,
{
    if p >= PRECISION {
        lemma_unit_fits(p / 2);
    }
}

/// What is shortened does not vanish.
pub(crate) proof fn lemma_shortened_positive(p: nat)
    requires
        p > 0,
    ensures
        shortened(p) > 0,
{
    lemma_unit_fits(p);
    let u = precision_unit(p);
    assert(p / u >= 1) by (nonlinear_arith)
        requires
            1 <= u <= p,
    ;
    let n = nearest_even(p, u);
    assert(n * u > 0) by (nonlinear_arith)
        requires
            n >= 1,
            u >= 1,
    ;
}

/// Shortens a whole number to 53 significant bits.
pub(crate) fn shorten(p: u128) -> (res: u128)
    requires
        p < PRECISION * 0x1_0000_0000,
    ensures
        res == shortened(p as nat),
        res <= 2 * p,
        res == 0 <==> p == 0,
        res <= 0x40_0000_0000_0000_0000_0000,
{
    let ghost pn = p as nat;
    let mut u: u128 = 1;
    let mut q: u128 = p;
    assert(p / 1 == p);
    while q >= PRECISION as u128
        invariant
            p == pn,
            pn < PRECISION * 0x1_0000_0000,
            1 <= u <= 0x2_0000_0000,
            u == 1 || q >= PRECISION / 2,
            q == p / u,
            precision_unit(pn) == u * precision_unit(q as nat),
        decreases q,
    {
        proof {
            lemma_unit_step(pn, u as nat, q as nat);
            assert(u < 0x1_0000_0000) by (nonlinear_arith)
                requires
                    u * PRECISION <= pn,
                    pn < PRECISION * 0x1_0000_0000,
            ;
            assert(u * (2 * precision_unit((q / 2) as nat)) == (2 * u) * precision_unit(
                (q / 2) as nat,
            )) by (nonlinear_arith);
        }
        q = q / 2;
        u = u * 2;
    }
    assert(precision_unit(q as nat) == 1);
    assert(u * 1 == u) by (nonlinear_arith);
    let r: u128 = p % u;
    let n: u128 = if 2 * r > u || (2 * r == u && q % 2 == 1) {
        q + 1
    } else {
        q
    };
    assert(n * u <= PRECISION * 0x2_0000_0000) by (nonlinear_arith)
        requires
            n <= PRECISION,
            u <= 0x2_0000_0000,
    ;
    proof {
        assert(p == q * u + r && r < u) by (nonlinear_arith)
            requires
                q == p / u,
                r == p % u,
                u >= 1,
        ;
        if q == 0 {
            assert(n == 0);
            assert(n * u == 0) by (nonlinear_arith)
                requires
                    n == 0,
            ;
        } else {
            assert(q * u <= n * u && n * u <= q * u + u && u <= q * u) by (nonlinear_arith)
                requires
                    1 <= q,
                    q <= n,
                    n <= q + 1,
                    u >= 1,
            ;
        }
    }
    n * u
}

/// The product of a significand and a factor, rounded.
fn round_product(m: u64, factor: u32) -> (res: u128)
    requires
        m < PRECISION,
    ensures
        res == shortened((m as nat) * (factor as nat)),
        res <= 0x40_0000_0000_0000_0000_0000,
{
    let ghost pn = (m as nat) * (factor as nat);
    assert(pn < PRECISION * 0x1_0000_0000) by (nonlinear_arith)
        requires
            m < PRECISION,
            factor < 0x1_0000_0000,
            pn == (m as nat) * (factor as nat),
    ;
    assert(pn <= u128::MAX);
    shorten((m as u128) * (factor as u128))
}

/// Two to the power `n`.
fn wide_power(n: u32) -> (res: u128)
    requires
        n <= 88,
    ensures
        res == pow2(n as nat),
        1 <= res <= 0x100_0000_0000_0000_0000_0000,
{
    let mut k: u32 = 0;
    let mut res: u128 = 1;
    proof {
        lemma2_to64();
        lemma_pow2_88();
    }
    while k < n
        invariant
            k <= n <= 88,
            res == pow2(k as nat),
            pow2(88) == 0x100_0000_0000_0000_0000_0000,
        decreases n - k,
    {
        proof {
            if k + 1 < 88 {
                lemma_pow2_strictly_increases((k + 1) as nat, 88);
            }
            lemma_pow2_unfold((k + 1) as nat);
        }
        res = res * 2;
        k += 1;
    }
    proof {
        lemma_pow2_pos(n as nat);
        if n < 88 {
            lemma_pow2_strictly_increases(n as nat, 88);
        }
    }
    res
}

proof fn lemma_pow2_88()
    ensures
        pow2(88) == 0x100_0000_0000_0000_0000_0000,
{
    lemma2_to64();
    lemma2_to64_rest();
    lemma_pow2_adds(64, 24);
    assert(pow2(24) == 0x100_0000);
    assert(pow2(64) == 0x1_0000_0000_0000_0000);
}

/// Far below the unit, nothing is left.
proof fn lemma_vanishes(x: nat, n: nat)
    requires
        x <= 0x40_0000_0000_0000_0000_0000,
        n > 88,
    ensures
        nearest_whole(x, -(n as int)) == 0,
        whole_part(x, -(n as int)) == 0,
{
    lemma_pow2_88();
    lemma_pow2_strictly_increases(88, n);
    let w = pow2(n);
    assert(2 * x < w);
    assert((2 * x + w) / (2 * w) == 0) by (nonlinear_arith)
        requires
            2 * x < w,
            0 <= x,
    ;
    assert(x / w == 0) by (nonlinear_arith)
        requires
            2 * x < w,
            0 <= x,
    ;
}

/// `x` times a power of two that is not negative.
fn shifted(x: u128, e: u32) -> (res: u64)
    ensures
        res == at_most_u64((x as nat) * pow2(e as nat)),
{
    proof {
        lemma_pow2_pos(e as nat);
        lemma2_to64();
        lemma2_to64_rest();
    }
    if x == 0 {
        assert(0 * pow2(e as nat) == 0) by (nonlinear_arith);
        return 0;
    }
    if x > u64::MAX as u128 {
        assert((x as nat) * pow2(e as nat) >= x) by (nonlinear_arith)
            requires
                pow2(e as nat) > 0,
        ;
        return u64::MAX;
    }
    if e > 63 {
        proof {
            if e > 64 {
                lemma_pow2_strictly_increases(64, e as nat);
            }
            assert((x as nat) * pow2(e as nat) >= pow2(e as nat)) by (nonlinear_arith)
                requires
                    x >= 1,
            ;
        }
        return u64::MAX;
    }
    let w: u128 = wide_power(e);
    proof {
        if e < 63 {
            lemma_pow2_strictly_increases(e as nat, 63);
        }
    }
    assert(x * w <= u64::MAX * 0x8000_0000_0000_0000) by (nonlinear_arith)
        requires
            x <= u64::MAX,
            w <= 0x8000_0000_0000_0000,
    ;
    let v: u128 = x * w;
    if v > u64::MAX as u128 {
        u64::MAX
    } else {
        v as u64
    }
}

/// The magnitude of a finite number times a factor, to the nearest whole number.
pub fn rounded(d: &Double, factor: u32) -> (res: u64)
    requires
        d.magnitude() < EXPONENT_ONES,
    ensures
        res == at_most_u64(nearest_whole(product(*d, factor), exponent(*d))),
{
    let (m, e) = split_number(d);
    let x: u128 = round_product(m, factor);
    if e >= 0 {
        return shifted(x, e as u32);
    }
    let n: u32 = (-e) as u32;
    if n > 88 {
        proof {
            lemma_vanishes(x as nat, n as nat);
        }
        return 0;
    }
    let w: u128 = wide_power(n);
    let v: u128 = (2 * x + w) / (2 * w);
    if v > u64::MAX as u128 {
        u64::MAX
    } else {
        v as u64
    }
}

/// The magnitude of a finite number times a factor, without its fraction.
pub fn truncated(d: &Double, factor: u32) -> (res: u64)
    requires
        d.magnitude() < EXPONENT_ONES,
    ensures
        res == at_most_u64(whole_part(product(*d, factor), exponent(*d))),
{
    let (m, e) = split_number(d);
    let x: u128 = round_product(m, factor);
    if e >= 0 {
        return shifted(x, e as u32);
    }
    let n: u32 = (-e) as u32;
    if n > 88 {
        proof {
            lemma_vanishes(x as nat, n as nat);
        }
        return 0;
    }
    let w: u128 = wide_power(n);
    let v: u128 = x / w;
    if v > u64::MAX as u128 {
        u64::MAX
    } else {
        v as u64
    }
}

// ---------------------------------------------------------------------------
// Units
// ---------------------------------------------------------------------------

/// A whole number up to `max`: that of a number below zero, or of what is no
/// number, is zero.
pub open spec fn to_unsigned(d: Double, factor: u32, max: u64) -> u64 {
    if d.nan() || d.negative() {
        0
    } else if d.magnitude() >= EXPONENT_ONES {
        max
    } else {
        let n = nearest_whole(product(d, factor), exponent(d));
        if n <= max {
            n as u64
        } else {
            max
        }
    }
}

/// Scales a number to a whole number up to `max`.
pub fn unsigned(d: Double, factor: u32, max: u64) -> (res: u64)
    ensures
        res == to_unsigned(d, factor, max),
        res <= max,
{
    if d.is_nan() || d.bits >= 0x8000_0000_0000_0000 {
        return 0;
    }
    if d.bits >= EXPONENT_ONES {
        return max;
    }
    let n: u64 = rounded(&d, factor);
    if n <= max {
        n
    } else {
        max
    }
}

/// The code of a channel that holds numbers from zero to one: clamped to that
/// range and scaled to the greatest code.
pub open spec fn channel_code(d: Double, max: u16) -> u16 {
    if d.nan() || d.negative() {
        0
    } else if d.magnitude() >= ONE_BITS {
        max
    } else {
        to_unsigned(d, max as u32, max as u64) as u16
    }
}

/// Quantises a channel.
pub fn quantize(d: Double, max: u16) -> (res: u16)
    ensures
        res == channel_code(d, max),
        res <= max,
{
    if d.is_nan() || d.bits >= 0x8000_0000_0000_0000 {
        0
    } else if d.bits >= ONE_BITS {
        max
    } else {
        unsigned(d, max as u32, max as u64) as u16
    }
}

/// A whole number of 32 bits with a sign; that of what is no number is zero.
pub open spec fn to_signed(d: Double, factor: u32) -> int {
    if d.nan() {
        0
    } else if d.negative() {
        -to_unsigned(Double { bits: d.magnitude() }, factor, 0x8000_0000)
    } else {
        to_unsigned(d, factor, 0x7fff_ffff) as int
    }
}

/// Scales a number to a whole number with a sign.
pub fn signed(d: Double, factor: u32) -> (res: i32)
    ensures
        res == to_signed(d, factor),
{
    if d.is_nan() {
        0
    } else if d.bits >= 0x8000_0000_0000_0000 {
        let m = Double { bits: d.bits - 0x8000_0000_0000_0000 };
        let n: u64 = unsigned(m, factor, 0x8000_0000);
        (-(n as i64)) as i32
    } else {
        unsigned(d, factor, 0x7fff_ffff) as i32
    }
}

/// The whole part of a scaled number that is not negative; zero for anything
/// else.
pub open spec fn to_whole(d: Double, factor: u32) -> u32 {
    if d.nan() || d.negative() {
        0
    } else if d.magnitude() >= EXPONENT_ONES {
        u32::MAX
    } else {
        let n = whole_part(product(d, factor), exponent(d));
        if n <= u32::MAX {
            n as u32
        } else {
            u32::MAX
        }
    }
}

/// Scales a number and drops its fraction.
pub fn whole(d: Double, factor: u32) -> (res: u32)
    ensures
        res == to_whole(d, factor),
{
    if d.is_nan() || d.bits >= 0x8000_0000_0000_0000 {
        return 0;
    }
    if d.bits >= EXPONENT_ONES {
        return u32::MAX;
    }
    let n: u64 = truncated(&d, factor);
    if n <= u32::MAX as u64 {
        n as u32
    } else {
        u32::MAX
    }
}

/// The rounded product is as near to the exact one as its unit allows, and the
/// whole number is within a half of what it was taken from.
pub proof fn rounding_is_to_the_nearest(p: nat, x: nat, e: int)
    requires
        e < 0,
    ensures
        ({
            let u = precision_unit(p);
            let r = shortened(p);
            2 * r <= 2 * p + u && 2 * p <= 2 * r + u
        }),
        ({
            let w = pow2((-e) as nat);
            let n = nearest_whole(x, e);
            2 * n * w <= 2 * x + w && 2 * x < 2 * n * w + w
        }),
{
    let u = precision_unit(p);
    lemma_unit_is_positive(p);
    lemma_nearest_even(p, u);
    let w = pow2((-e) as nat);
    lemma_pow2_pos((-e) as nat);
    let n = nearest_whole(x, e);
    let y = 2 * x + w;
    assert(n == y / (2 * w));
    assert(n * (2 * w) <= y && y < n * (2 * w) + 2 * w) by (nonlinear_arith)
        requires
            n == y / (2 * w),
            w > 0,
            y >= 0,
    ;
    assert(n * (2 * w) == 2 * n * w) by (nonlinear_arith);
}

proof fn lemma_unit_is_positive(p: nat)
    ensures
        precision_unit(p) >= 1,
    decreases p,
{
    if p >= PRECISION {
        lemma_unit_is_positive(p / 2);
    }
}

proof fn lemma_nearest_even(p: nat, u: nat)
    requires
        u >= 1,
    ensures
        2 * (nearest_even(p, u) * u) <= 2 * p + u,
        2 * p <= 2 * (nearest_even(p, u) * u) + u,
{
    let q = p / u;
    let r = p % u;
    assert(p == q * u + r && r < u) by (nonlinear_arith)
        requires
            q == p / u,
            r == p % u,
            u >= 1,
    ;
    assert((q + 1) * u == q * u + u) by (nonlinear_arith);
}

/// Zero scales to zero.
pub proof fn zero_scales_to_zero(factor: u32, max: u64)
    ensures
        to_unsigned(Double { bits: 0 }, factor, max) == 0,
        to_whole(Double { bits: 0 }, factor) == 0,
        to_signed(Double { bits: 0 }, factor) == 0,
{
    let d = Double { bits: 0 };
    assert(significand(d) * (factor as nat) == 0) by (nonlinear_arith)
        requires
            significand(d) == 0,
    ;
    assert(precision_unit(0) == 1);
    assert(nearest_even(0, 1) == 0);
    let w = pow2(1074);
    lemma_pow2_pos(1074);
    assert((2 * 0nat + w) / (2 * w) == 0) by (nonlinear_arith)
        requires
            w > 0,
    ;
    assert(0nat / w == 0) by (nonlinear_arith)
        requires
            w > 0,
    ;
}

/// One scales to the factor, and minus one to the factor with its sign turned.
pub proof fn whole_numbers_scale_exactly(factor: u32, max: u64)
    requires
        factor <= max,
    ensures
        to_unsigned(Double { bits: ONE_BITS }, factor, max) == factor,
        to_whole(Double { bits: ONE_BITS }, factor) == factor,
        factor <= 0x7fff_ffff ==> to_signed(Double { bits: ONE_BITS }, factor) == factor,
        factor <= 0x7fff_ffff ==> to_signed(Double { bits: (ONE_BITS + 0x8000_0000_0000_0000) as u64 }, factor)
            == -factor,
{
    let d = Double { bits: ONE_BITS };
    let p = EXPONENT_UNIT as nat * factor as nat;
    assert(significand(d) == EXPONENT_UNIT);
    assert(exponent(d) == -52);
    lemma2_to64_rest();
    assert(pow2(52) == EXPONENT_UNIT);
    lemma_exact_multiple(factor as nat);
    assert(product(d, factor) == p);
    let w = pow2(52);
    assert((2 * p + w) / (2 * w) == factor) by (nonlinear_arith)
        requires
            p == w * factor,
            w > 0,
    ;
    assert(p / w == factor) by (nonlinear_arith)
        requires
            p == w * factor,
            w > 0,
    ;
    let n = Double { bits: (ONE_BITS + 0x8000_0000_0000_0000) as u64 };
    assert(n.negative() && n.magnitude() == ONE_BITS);
    assert(Double { bits: n.magnitude() } == d);
}

proof fn lemma_exact_multiple(factor: nat)
    requires
        factor <= u32::MAX,
    ensures
        shortened(EXPONENT_UNIT as nat * factor) == EXPONENT_UNIT as nat * factor,
{
    let p = EXPONENT_UNIT as nat * factor;
    let u = precision_unit(p);
    lemma_unit_divides(EXPONENT_UNIT as nat, factor);
    let q = p / u;
    assert(p == q * u && p % u == 0) by (nonlinear_arith)
        requires
            p % u == 0,
            q == p / u,
            u >= 1,
    ;
    assert(nearest_even(p, u) == q);
}

/// The unit of a multiple of a large enough power of two divides it.
proof fn lemma_unit_divides(m: nat, factor: nat)
    requires
        factor < 0x1_0000_0000,
        m == EXPONENT_UNIT,
    ensures
        precision_unit(m * factor) >= 1,
        (m * factor) % precision_unit(m * factor) == 0,
{
    lemma_unit_is_positive(m * factor);
    lemma2_to64();
    lemma_pow2_unfold(33);
    assert(pow2(32) == 0x1_0000_0000);
    assert(m * factor < PRECISION * pow2(33)) by (nonlinear_arith)
        requires
            m == EXPONENT_UNIT,
            factor < 0x1_0000_0000,
            pow2(33) == 0x2_0000_0000,
    ;
    lemma_unit_is_power(m * factor, 0);
    let j = choose|j: nat| j <= 52 && precision_unit(m * factor) == pow2(j);
    lemma2_to64_rest();
    lemma_pow2_adds(j, (52 - j) as nat);
    let c = pow2((52 - j) as nat);
    let u = pow2(j);
    lemma_pow2_pos(j);
    assert(m * factor == u * (c * factor)) by (nonlinear_arith)
        requires
            m == u * c,
    ;
    assert((u * (c * factor)) % u == 0) by (nonlinear_arith)
        requires
            u > 0,
    ;
}

proof fn lemma_unit_is_power(p: nat, d: nat)
    requires
        d <= 32,
        p < PRECISION * pow2((33 - d) as nat),
    ensures
        exists|j: nat| j <= 33 - d && precision_unit(p) == #[trigger] pow2(j),
    decreases 33 - d,
{
    lemma2_to64();
    if p < PRECISION {
        assert(precision_unit(p) == pow2(0));
    } else if d < 32 {
        lemma_pow2_unfold((33 - d) as nat);
        assert(p / 2 < PRECISION * pow2((32 - d) as nat)) by (nonlinear_arith)
            requires
                p < PRECISION * (2 * pow2((32 - d) as nat)),
        ;
        lemma_unit_is_power(p / 2, d + 1);
        let j = choose|j: nat| j <= 32 - d && precision_unit(p / 2) == #[trigger] pow2(j);
        lemma_pow2_unfold(j + 1);
        assert(precision_unit(p) == pow2(j + 1));
    } else {
        lemma_pow2_unfold(1);
        assert(pow2(1) == 2);
        assert(p / 2 < PRECISION);
        assert(precision_unit(p / 2) == 1);
        assert(precision_unit(p) == pow2(1));
    }
}

// ---------------------------------------------------------------------------
// What the result is worth
// ---------------------------------------------------------------------------

/// A positive number is a significand of 53 bits over a power of two.
pub open spec fn is_binary_fraction(d: Double, s: nat, k: nat) -> bool {
    &&& k <= 1074
    &&& 0x10_0000_0000_0000 <= s < 0x20_0000_0000_0000
    &&& d.bits == (1075 - k) * 0x10_0000_0000_0000 + (s - 0x10_0000_0000_0000)
}

proof fn lemma_is_binary_fraction(d: Double, s: nat, k: nat)
    requires
        is_binary_fraction(d, s, k),
    ensures
        !d.nan(),
        !d.negative(),
        d.magnitude() < EXPONENT_ONES,
        significand(d) == s,
        exponent(d) == -k,
{
}

/// The unit of rounding is one for what 53 bits can hold, and otherwise so small that
/// 53 bits are needed to count it.
proof fn lemma_unit_is_small(p: nat)
    ensures
        precision_unit(p) == 1 || precision_unit(p) * 0x10_0000_0000_0000 <= p,
    decreases p,
{
    if p >= PRECISION {
        lemma_unit_is_small(p / 2);
    }
}

/// A scaled number is the nearest whole number to the product, but for what rounding
/// the product to 53 bits may move it by; the whole part is at most the product, and
/// less than one below it, in the same sense.
pub proof fn scaled_numbers_are_near(
    d: Double,
    s: nat,
    k: nat,
    factor: u32,
    max: u64,
    n: u64,
    t: u32,
)
    requires
        is_binary_fraction(d, s, k),
        k >= 1,
        call_ensures(unsigned, (d, factor, max), n),
        call_ensures(whole, (d, factor), t),
    ensures
        ({
            let w = pow2(k);
            let p = s * factor as nat;
            let slack = p / 0x10_0000_0000_0000;
            &&& 2 * (n * w) <= 2 * p + w + slack
            &&& n < max ==> 2 * p <= 2 * (n * w) + w + slack
            &&& 2 * (t * w) <= 2 * p + slack
            &&& t < u32::MAX ==> 2 * p < 2 * (t * w) + 2 * w + slack + 1
        }),
{
    lemma_is_binary_fraction(d, s, k);
    let w = pow2(k);
    let p = s * factor as nat;
    let r = product(d, factor);
    let u = precision_unit(p);
    rounding_is_to_the_nearest(p, r, -k);
    lemma_unit_is_small(p);
    lemma_pow2_pos(k);
    let slack = p / 0x10_0000_0000_0000;
    if u == 1 {
        assert(p / 1 == p && p % 1 == 0);
        assert(r == p);
    } else {
        assert(u <= slack);
    }
    assert(2 * r <= 2 * p + slack && 2 * p <= 2 * r + slack);
    lemma_near(d, s, k, factor, max);
    let below = whole_part(r, -k);
    assert(below * w <= r && r < below * w + w) by (nonlinear_arith)
        requires
            below == r / w,
            w > 0,
    ;
    assert(t <= below);
    assert(t * w <= below * w) by (nonlinear_arith)
        requires
            t <= below,
    ;
}

/// A channel's code is the nearest to its share of the greatest code, but for what
/// rounding the product to 53 bits may move it by.
pub proof fn codes_are_near_their_share(d: Double, s: nat, k: nat, max: u16, c: u16)
    requires
        is_binary_fraction(d, s, k),
        k >= 53,
        call_ensures(quantize, (d, max), c),
    ensures
        ({
            let w = pow2(k);
            let p = s * max as nat;
            let slack = p / 0x10_0000_0000_0000;
            &&& 2 * (c * w) <= 2 * p + w + slack
            &&& c < max ==> 2 * p <= 2 * (c * w) + w + slack
        }),
{
    lemma_is_binary_fraction(d, s, k);
    lemma_near(d, s, k, max as u32, max as u64);
}

/// The sign of a number is that of its scaled value, which is otherwise found as for
/// the number without its sign.
pub proof fn signs_are_kept(d: Double, m: Double, factor: u32, a: i32, b: i32)
    requires
        d.bits < 0x7ff0_0000_0000_0000,
        m.bits == d.bits + 0x8000_0000_0000_0000,
        call_ensures(signed, (d, factor), a),
        call_ensures(signed, (m, factor), b),
        a < i32::MAX,
    ensures
        a >= 0,
        b == -a,
{
    assert(Double { bits: m.magnitude() } == d);
}

proof fn lemma_unit_divides_shifted(q: nat, k: nat)
    requires
        q < PRECISION,
    ensures
        exists|j: nat| j <= k && precision_unit(q * pow2(k)) == #[trigger] pow2(j),
    decreases k,
{
    lemma2_to64();
    let p = q * pow2(k);
    if p < PRECISION {
        assert(precision_unit(p) == pow2(0));
    } else if k == 0 {
        assert(q * 1 == q);
    } else {
        lemma_pow2_unfold(k);
        let h = (k - 1) as nat;
        assert(q * (2 * pow2(h)) == 2 * (q * pow2(h))) by (nonlinear_arith);
        lemma_unit_divides_shifted(q, h);
        let j = choose|j: nat| j <= h && precision_unit(q * pow2(h)) == #[trigger] pow2(j);
        lemma_pow2_unfold(j + 1);
        assert(p / 2 == q * pow2(h));
        assert(precision_unit(p) == pow2(j + 1));
    }
}

/// A whole number scales to its exact multiple, as far as that has a place in the
/// result and 53 bits hold it.
pub proof fn whole_values_scale_exactly(d: Double, s: nat, k: nat, n: u32, factor: u32, max: u64)
    requires
        is_binary_fraction(d, s, k),
        s == n * pow2(k),
        n * factor <= max,
        n * factor < 0x20_0000_0000_0000,
    ensures
        to_unsigned(d, factor, max) == n * factor,
        n * factor <= u32::MAX ==> to_whole(d, factor) == n * factor,
{
    lemma_is_binary_fraction(d, s, k);
    let w = pow2(k);
    lemma_pow2_pos(k);
    let q = (n * factor) as nat;
    assert(n * factor >= 0) by (nonlinear_arith)
        requires
            n >= 0,
            factor >= 0,
    ;
    let p = s * factor as nat;
    assert(p == q * w) by (nonlinear_arith)
        requires
            p == s * factor,
            s == n * w,
            q == n * factor,
    ;
    lemma_unit_divides_shifted(q, k);
    let j = choose|j: nat| j <= k && precision_unit(q * pow2(k)) == #[trigger] pow2(j);
    let u = pow2(j);
    let c = pow2((k - j) as nat);
    lemma_pow2_adds(j, (k - j) as nat);
    lemma_pow2_pos(j);
    assert(p == (q * c) * u) by (nonlinear_arith)
        requires
            p == q * w,
            w == u * c,
    ;
    let m = q * c;
    assert(p / u == m && p % u == 0) by (nonlinear_arith)
        requires
            p == m * u,
            u > 0,
    ;
    assert(shortened(p) == p);
    assert((2 * p + w) / (2 * w) == q) by (nonlinear_arith)
        requires
            p == q * w,
            w > 0,
    ;
    assert(p / w == q) by (nonlinear_arith)
        requires
            p == q * w,
            w > 0,
    ;
    if k == 0 {
        lemma2_to64();
        assert(p * 1 == q);
    }
}

/// What scaling with rounding gives, against the exact product.
pub(crate) proof fn lemma_near(d: Double, s: nat, k: nat, factor: u32, max: u64)
    requires
        is_binary_fraction(d, s, k),
        k >= 1,
    ensures
        ({
            let w = pow2(k);
            let p = s * factor as nat;
            let slack = p / 0x10_0000_0000_0000;
            let n = to_unsigned(d, factor, max);
            &&& 2 * (n * w) <= 2 * p + w + slack
            &&& n < max ==> 2 * p <= 2 * (n * w) + w + slack
        }),
{
    lemma_is_binary_fraction(d, s, k);
    let w = pow2(k);
    let p = s * factor as nat;
    let r = product(d, factor);
    let u = precision_unit(p);
    rounding_is_to_the_nearest(p, r, -k);
    lemma_unit_is_small(p);
    let slack = p / 0x10_0000_0000_0000;
    if u == 1 {
        assert(p / 1 == p && p % 1 == 0);
        assert(r == p);
    } else {
        assert(u <= slack);
    }
    let near = nearest_whole(r, -k);
    let n = to_unsigned(d, factor, max);
    assert(2 * near * w == 2 * (near * w)) by (nonlinear_arith);
    assert(n <= near);
    assert(n * w <= near * w) by (nonlinear_arith)
        requires
            n <= near,
    ;
}

/// What is no number scales to zero, and what is negative too where there is no sign;
/// what has no end scales to the greatest there is, or to the least with its sign.
pub proof fn odd_numbers_scale_to_the_ends(
    d: Double,
    factor: u32,
    max: u64,
    top: u16,
    n: u64,
    w: u32,
    i: i32,
    c: u16,
)
    requires
        call_ensures(unsigned, (d, factor, max), n),
        call_ensures(whole, (d, factor), w),
        call_ensures(signed, (d, factor), i),
        call_ensures(quantize, (d, top), c),
    ensures
        d.nan() ==> n == 0 && w == 0 && i == 0 && c == 0,
        d.bits >= 0x8000_0000_0000_0000 ==> n == 0 && w == 0 && i <= 0 && c == 0,
        d.bits < 0x8000_0000_0000_0000 ==> i >= 0,
        d.bits == 0x7ff0_0000_0000_0000 ==> n == max && w == 0xffff_ffff && i == 0x7fff_ffff && c
            == top,
        d.bits == 0xfff0_0000_0000_0000 ==> i == -0x8000_0000,
        0x3ff0_0000_0000_0000 <= d.bits <= 0x7ff0_0000_0000_0000 ==> c == top,
{
}

/// Numbers that are too large are cut to the greatest there is, with their sign.
pub proof fn large_numbers_are_cut(
    d: Double,
    m: Double,
    s: nat,
    factor: u32,
    max: u64,
    n: u64,
    i: i32,
    j: i32,
)
    requires
        is_binary_fraction(d, s, 0),
        m.bits == d.bits + 0x8000_0000_0000_0000,
        factor >= 1,
        max <= 0xffff_ffff_ffff,
        call_ensures(unsigned, (d, factor, max), n),
        call_ensures(signed, (d, factor), i),
        call_ensures(signed, (m, factor), j),
    ensures
        n == max,
        i == 0x7fff_ffff,
        j == -0x8000_0000,
{
    lemma_is_binary_fraction(d, s, 0);
    let p = s * factor as nat;
    assert(p >= s) by (nonlinear_arith)
        requires
            p == s * factor,
            factor >= 1,
            s >= 0,
    ;
    let u = precision_unit(p);
    lemma_unit_is_small(p);
    lemma_unit_is_positive(p);
    lemma_nearest_even(p, u);
    let r = product(d, factor);
    lemma2_to64();
    assert(nearest_whole(r, 0) == r * 1);
    assert(Double { bits: m.magnitude() } == d);
}

} // verus!
