//! Fractions as double-precision numbers.
//!
//! A fraction is divided as double-precision arithmetic divides two whole
//! numbers: both are first taken to 53 significant bits, and of their exact
//! quotient the nearest double is taken, the even one of two that are equally
//! near.
use vstd::arithmetic::power2::{
    lemma2_to64, lemma2_to64_rest, lemma_pow2_adds, lemma_pow2_pos, lemma_pow2_strictly_increases, lemma_pow2_unfold,
    pow2,
};
use vstd::prelude::*;

use crate::number::{CodeValue, Double, Fraction, Triple, EXPONENT_ONES};
use crate::scale::{
    exponent, is_binary_fraction, lemma_shortened_positive, nearest_even, precision_unit, shorten, shortened,
    significand, EXPONENT_UNIT, PRECISION,
};

verus! {

impl Fraction {
    /// The denominator is not zero.
    pub open spec fn wf(self) -> bool {
        self.den > 0
    }
}

impl CodeValue {
    /// All three channels are fractions.
    pub open spec fn wf(self) -> bool {
        self.r.wf() && self.g.wf() && self.b.wf()
    }
}

/// The value of a finite number, in units of the least positive one, two to the
/// power -1074.
pub open spec fn units(d: Double) -> int {
    let u = significand(d) * pow2((exponent(d) + 1074) as nat);
    if d.negative() {
        -u
    } else {
        u as int
    }
}

/// How far a finite number is from `a / b`, in `b`-ths of a unit.
pub open spec fn distance(d: Double, a: nat, b: nat) -> int {
    let t = units(d) * b - a * pow2(1074);
    if t < 0 {
        -t
    } else {
        t
    }
}

/// Whether a number is finite.
pub open spec fn finite(d: Double) -> bool {
    d.magnitude() < EXPONENT_ONES
}

/// Of all finite numbers none is nearer to `a / b`, and one that is as near is
/// the same but for its sign, or gives way to an even fraction field.
pub open spec fn is_nearest(d: Double, a: nat, b: nat) -> bool {
    &&& finite(d)
    &&& !d.negative()
    &&& forall|x: Double|
        #![trigger distance(x, a, b)]
        finite(x) ==> distance(d, a, b) <= distance(x, a, b) && (distance(d, a, b) == distance(
            x,
            a,
            b,
        ) ==> d.magnitude() == x.magnitude() || d.magnitude() % 2 == 0)
}

/// The double that a fraction is as a number.
pub open spec fn is_quotient(d: Double, f: Fraction) -> bool {
    is_nearest(d, shortened(f.num as nat), shortened(f.den as nat))
}

/// The numbers that the channels of a code value are.
pub open spec fn is_code(t: Triple, c: CodeValue) -> bool {
    &&& is_quotient(t.a, c.r)
    &&& is_quotient(t.b, c.g)
    &&& is_quotient(t.c, c.b)
}

// ---------------------------------------------------------------------------
// The order of the doubles
// ---------------------------------------------------------------------------

/// The units of a number without a sign, by its fields.
pub(crate) proof fn lemma_units_of(m: u64, e: nat, s: nat)
    requires
        s < EXPONENT_UNIT,
        m == (e + 1) * EXPONENT_UNIT + s,
        m < EXPONENT_ONES,
    ensures
        units(Double { bits: m }) == (EXPONENT_UNIT + s) * pow2(e),
{
    assert(m as nat / EXPONENT_UNIT as nat == e + 1 && m as nat % EXPONENT_UNIT as nat == s)
        by (nonlinear_arith)
        requires
            s < EXPONENT_UNIT,
            m == (e + 1) * EXPONENT_UNIT + s,
    ;
    let d = Double { bits: m };
    assert(significand(d) == EXPONENT_UNIT + s);
    assert(exponent(d) + 1074 == e);
}

proof fn lemma_units_small(m: u64)
    requires
        m < EXPONENT_UNIT,
    ensures
        units(Double { bits: m }) == m,
{
    lemma2_to64();
    let d = Double { bits: m };
    assert(significand(d) == m);
    assert(exponent(d) + 1074 == 0);
    assert(m as nat * 1 == m as nat);
}

proof fn lemma_units_step(m: u64)
    requires
        m + 1 < EXPONENT_ONES,
    ensures
        units(Double { bits: m }) < units(Double { bits: (m + 1) as u64 }),
{
    let n = (m + 1) as u64;
    if n < EXPONENT_UNIT {
        lemma_units_small(m);
        lemma_units_small(n);
    } else if n == EXPONENT_UNIT {
        lemma_units_small(m);
        lemma_units_of(n, 0, 0);
        lemma2_to64();
    } else {
        let e = (m / EXPONENT_UNIT - 1) as nat;
        let s = (m % EXPONENT_UNIT) as nat;
        lemma_units_of(m, e, s);
        lemma_pow2_pos(e);
        if s + 1 < EXPONENT_UNIT {
            lemma_units_of(n, e, s + 1);
            assert((EXPONENT_UNIT + s) * pow2(e) < (EXPONENT_UNIT + s + 1) * pow2(e))
                by (nonlinear_arith)
                requires
                    pow2(e) > 0,
            ;
        } else {
            lemma_units_of(n, e + 1, 0);
            lemma_pow2_unfold(e + 1);
            assert((EXPONENT_UNIT + s) * pow2(e) < EXPONENT_UNIT * (2 * pow2(e)))
                by (nonlinear_arith)
                requires
                    pow2(e) > 0,
                    s < EXPONENT_UNIT,
            ;
        }
    }
}

/// A greater magnitude is a greater number.
pub proof fn magnitudes_order_the_numbers(m: u64, n: u64)
    requires
        m < n < EXPONENT_ONES,
    ensures
        units(Double { bits: m }) < units(Double { bits: n }),
    decreases n - m,
{
    lemma_units_step((n - 1) as u64);
    if m < n - 1 {
        magnitudes_order_the_numbers(m, (n - 1) as u64);
    }
}

/// What the sign does to the units.
pub(crate) proof fn lemma_units_signed(x: Double)
    requires
        finite(x),
    ensures
        units(x) == (if x.negative() {
            -units(Double { bits: x.magnitude() })
        } else {
            units(Double { bits: x.magnitude() })
        }),
        0 <= units(Double { bits: x.magnitude() }),
{
    let p = Double { bits: x.magnitude() };
    assert(p.magnitude() == x.magnitude());
    assert(significand(p) == significand(x) && exponent(p) == exponent(x));
    assert(significand(p) * pow2((exponent(p) + 1074) as nat) >= 0);
}

// ---------------------------------------------------------------------------
// The nearest double
// ---------------------------------------------------------------------------

/// Between a number at or below `a / b` and the next one above it, the nearer is
/// nearest of all.
proof fn lemma_neighbours(m: u64, a: nat, b: nat, x: Double)
    requires
        m + 1 < EXPONENT_ONES,
        b > 0,
        units(Double { bits: m }) * b <= a * pow2(1074),
        a * pow2(1074) < units(Double { bits: (m + 1) as u64 }) * b,
        finite(x),
    ensures
        !x.negative() && x.magnitude() > m ==> distance(
            Double { bits: (m + 1) as u64 },
            a,
            b,
        ) <= distance(x, a, b),
        !x.negative() && x.magnitude() > m + 1 ==> distance(
            Double { bits: (m + 1) as u64 },
            a,
            b,
        ) < distance(x, a, b),
        x.negative() || x.magnitude() <= m ==> distance(Double { bits: m }, a, b) <= distance(
            x,
            a,
            b,
        ),
        x.magnitude() != m && (x.negative() || x.magnitude() <= m) ==> distance(
            Double { bits: m },
            a,
            b,
        ) < distance(x, a, b),
{
    let low = units(Double { bits: m });
    let high = units(Double { bits: (m + 1) as u64 });
    let v = units(x);
    let k = x.magnitude();
    lemma_units_signed(x);
    lemma_units_signed(Double { bits: m });
    if k < m {
        magnitudes_order_the_numbers(k, m);
    }
    if k > m {
        if k > m + 1 {
            magnitudes_order_the_numbers((m + 1) as u64, k);
        }
        magnitudes_order_the_numbers(m, k);
    }
    if x.negative() || k <= m {
        assert(v <= low);
        if k != m {
            assert(v < low);
            assert(v * b < low * b) by (nonlinear_arith)
                requires
                    v < low,
                    b > 0,
            ;
        }
        assert(v * b <= low * b) by (nonlinear_arith)
            requires
                v <= low,
                b > 0,
        ;
    } else {
        assert(high <= v);
        if k > m + 1 {
            assert(high * b < v * b) by (nonlinear_arith)
                requires
                    high < v,
                    b > 0,
            ;
        }
        assert(high * b <= v * b) by (nonlinear_arith)
            requires
                high <= v,
                b > 0,
        ;
    }
}

/// The rounding of `t / u`, where the quotient has 53 bits and `t / u` is `a / b`
/// times a power of two.
proof fn lemma_rounded(a: nat, b: nat, s: nat, k: nat, t: nat, u: nat, m: u64)
    requires
        b > 0,
        s <= 1074,
        k <= 900,
        t == a * pow2(s),
        u == b * pow2(k),
        u > 0,
        EXPONENT_UNIT <= t / u < PRECISION,
        m == (k + 1074 - s) * EXPONENT_UNIT + t / u,
    ensures
        m + 1 < EXPONENT_ONES,
        2 * (t % u) > u || (2 * (t % u) == u && (t / u) % 2 == 1) ==> is_nearest(
            Double { bits: (m + 1) as u64 },
            a,
            b,
        ),
        !(2 * (t % u) > u || (2 * (t % u) == u && (t / u) % 2 == 1)) ==> is_nearest(
            Double { bits: m },
            a,
            b,
        ),
{
    let q = t / u;
    let r = t % u;
    let e = (1074 + k - s) as nat;
    let kk = pow2((1074 - s) as nat);
    assert(m + 1 < EXPONENT_ONES) by {
        assert(e * EXPONENT_UNIT <= 1974 * EXPONENT_UNIT) by (nonlinear_arith)
            requires
                e <= 1974,
        ;
    }
    // The two neighbours.
    lemma_pow2_pos(e);
    lemma_pow2_pos((1074 - s) as nat);
    assert(m == (e + 1) * EXPONENT_UNIT + (q - EXPONENT_UNIT)) by (nonlinear_arith)
        requires
            m == e * EXPONENT_UNIT + q,
    ;
    lemma_units_of(m, e, (q - EXPONENT_UNIT) as nat);
    assert(units(Double { bits: m }) == q * pow2(e));
    let n = (m + 1) as u64;
    if q + 1 < PRECISION {
        lemma_units_of(n, e, (q + 1 - EXPONENT_UNIT) as nat);
    } else {
        assert(n == (e + 1 + 1) * EXPONENT_UNIT + 0) by (nonlinear_arith)
            requires
                n == (e + 1) * EXPONENT_UNIT + EXPONENT_UNIT,
        ;
        lemma_units_of(n, e + 1, 0);
        lemma_pow2_unfold(e + 1);
        assert(EXPONENT_UNIT * (2 * pow2(e)) == (q + 1) * pow2(e)) by (nonlinear_arith)
            requires
                q + 1 == 2 * EXPONENT_UNIT,
        ;
    }
    assert(units(Double { bits: n }) == (q + 1) * pow2(e));
    // Both sides on one scale.
    lemma_pow2_adds(s, (1074 - s) as nat);
    lemma_pow2_adds(k, (1074 - s) as nat);
    let target = a * pow2(1074);
    assert(t * kk == target) by (nonlinear_arith)
        requires
            t == a * pow2(s),
            pow2(s) * kk == pow2(1074),
            target == a * pow2(1074),
    ;
    assert(u * kk == b * pow2(e)) by (nonlinear_arith)
        requires
            u == b * pow2(k),
            pow2(k) * kk == pow2(e),
    ;
    assert(t == q * u + r && r < u) by (nonlinear_arith)
        requires
            q == t / u,
            r == t % u,
            u > 0,
    ;
    let p = pow2(e);
    assert((q * p) * b == target - r * kk) by (nonlinear_arith)
        requires
            u * kk == b * p,
            t * kk == target,
            t == q * u + r,
    ;
    assert(((q + 1) * p) * b == target + (u - r) * kk) by (nonlinear_arith)
        requires
            u * kk == b * p,
            t * kk == target,
            t == q * u + r,
    ;
    assert(r * kk >= 0 && (u - r) * kk > 0) by (nonlinear_arith)
        requires
            kk > 0,
            0 <= r < u,
    ;
    let low = Double { bits: m };
    let high = Double { bits: n };
    assert(distance(low, a, b) == r * kk);
    assert(distance(high, a, b) == (u - r) * kk);
    assert(m % 2 == q % 2) by {
        assert(e * EXPONENT_UNIT == 2 * (e * 0x8_0000_0000_0000)) by (nonlinear_arith);
    }
    if 2 * r > u {
        assert((u - r) * kk < r * kk) by (nonlinear_arith)
            requires
                u - r < r,
                kk > 0,
        ;
    } else if 2 * r < u {
        assert(r * kk < (u - r) * kk) by (nonlinear_arith)
            requires
                r < u - r,
                kk > 0,
        ;
    } else {
        assert(u - r == r);
    }
    let best = if 2 * r > u || (2 * r == u && q % 2 == 1) {
        high
    } else {
        low
    };
    assert forall|x: Double| #![trigger distance(x, a, b)] finite(x) implies distance(best, a, b)
        <= distance(x, a, b) && (distance(best, a, b) == distance(x, a, b) ==> best.magnitude()
        == x.magnitude() || best.magnitude() % 2 == 0) by {
        lemma_neighbours(m, a, b, x);
    }
    assert(is_nearest(best, a, b));
}

/// The nearest double is one: no fraction has two.
pub proof fn nearest_is_unique(x: Double, y: Double, a: nat, b: nat)
    requires
        b > 0,
        is_nearest(x, a, b),
        is_nearest(y, a, b),
    ensures
        x == y,
    decreases x.bits + y.bits, x.bits,
{
    if x.bits > y.bits {
        nearest_is_unique(y, x, a, b);
    } else if x.bits < y.bits {
        // Both are even, so there is a number between them, and it is nearer.
        assert(distance(x, a, b) == distance(y, a, b));
        assert(x.bits % 2 == 0 && y.bits % 2 == 0);
        let z = Double { bits: (x.bits + 1) as u64 };
        assert(z.bits < y.bits);
        magnitudes_order_the_numbers(x.bits, z.bits);
        magnitudes_order_the_numbers(z.bits, y.bits);
        let (l, c, h) = (units(x), units(z), units(y));
        assert(l * b < c * b && c * b < h * b) by (nonlinear_arith)
            requires
                l < c,
                c < h,
                b > 0,
        ;
        assert(finite(z));
        assert(distance(z, a, b) < distance(x, a, b) || distance(z, a, b) < distance(y, a, b));
    }
}

/// A number below two to the 120th was doubled fewer times than that.
proof fn lemma_few_doublings(s: nat, t: nat)
    requires
        pow2(s) <= t,
        t < 0x100_0000_0000_0000_0000_0000_0000_0000,
    ensures
        s < 120,
{
    if s >= 120 {
        lemma2_to64_rest();
        lemma_pow2_adds(60, 60);
        assert(pow2(60) * pow2(60) == 0x100_0000_0000_0000_0000_0000_0000_0000nat) by (nonlinear_arith)
            requires
                pow2(60) == 0x1000_0000_0000_0000nat,
        ;
        if s > 120 {
            lemma_pow2_strictly_increases(120, s);
        }
    }
}

/// Divides a fraction.
pub fn quotient(f: &Fraction) -> (res: Double)
    requires
        f.wf(),
    ensures
        is_quotient(res, *f),
{
    let a: u128 = shorten(f.num as u128);
    let b: u128 = shorten(f.den as u128);
    if a == 0 {
        let zero = Double { bits: 0 };
        proof {
            lemma_units_small(0);
            assert(0 * (b as nat) == 0 && 0 * pow2(1074) == 0) by (nonlinear_arith);
            assert(distance(zero, 0, b as nat) == 0);
        }
        return zero;
    }
    let mut t: u128 = a;
    let mut s: u64 = 0;
    let least: u128 = b * EXPONENT_UNIT as u128;
    proof {
        lemma2_to64();
    }
    while t < least
        invariant
            1 <= a <= 0x2_0000_0000_0000_0000,
            least <= 0x20_0000_0000_0000_0000_0000_0000_0000,
            t < 0x40_0000_0000_0000_0000_0000_0000_0000,
            s < 120,
            t == a * pow2(s as nat),
            pow2(s as nat) <= t,
            s > 0 ==> t < 2 * least,
            s == 0 ==> t == a,
        decreases 2 * least - t,
    {
        proof {
            lemma_pow2_unfold((s + 1) as nat);
            assert(2 * t == a * (2 * pow2(s as nat))) by (nonlinear_arith)
                requires
                    t == a * pow2(s as nat),
            ;
            lemma_pow2_pos(s as nat);
            lemma_few_doublings((s + 1) as nat, (2 * t) as nat);
        }
        t = t * 2;
        s = s + 1;
    }
    let mut u: u128 = b;
    let mut k: u64 = 0;
    while t >= u * PRECISION as u128
        invariant
            1 <= a <= 0x2_0000_0000_0000_0000,
            1 <= b <= 0x2_0000_0000_0000_0000,
            t < 0x100_0000_0000_0000_0000_0000_0000_0000,
            u <= 0x2_0000_0000_0000_0000,
            k < 120,
            s > 0 ==> t < 2 * (b * EXPONENT_UNIT),
            s > 0 ==> u == b,
            s == 0 ==> t == a,
            u == b * pow2(k as nat),
            pow2(k as nat) <= u,
            t >= u * EXPONENT_UNIT,
        decreases t - u,
    {
        proof {
            lemma_pow2_unfold((k + 1) as nat);
            assert(2 * u == b * (2 * pow2(k as nat))) by (nonlinear_arith)
                requires
                    u == b * pow2(k as nat),
            ;
            lemma_pow2_pos(k as nat);
            lemma_few_doublings((k + 1) as nat, (2 * u) as nat);
            assert((2 * u) * EXPONENT_UNIT == u * PRECISION) by (nonlinear_arith);
        }
        u = u * 2;
        k = k + 1;
    }
    proof {
        lemma_pow2_pos(k as nat);
        assert(EXPONENT_UNIT <= t / u && t / u < PRECISION) by (nonlinear_arith)
            requires
                u > 0,
                u * EXPONENT_UNIT <= t,
                t < u * PRECISION,
        ;
    }
    let q: u128 = t / u;
    let r: u128 = t % u;
    let m: u64 = (k + 1074 - s) * EXPONENT_UNIT + q as u64;
    proof {
        lemma_rounded(a as nat, b as nat, s as nat, k as nat, t as nat, u as nat, m);
    }
    if 2 * r > u || (2 * r == u && q % 2 == 1) {
        Double { bits: m + 1 }
    } else {
        Double { bits: m }
    }
}

/// Divides the channels of a code value.
pub fn code_numbers(c: &CodeValue) -> (res: Triple)
    requires
        c.wf(),
    ensures
        is_code(res, *c),
{
    Triple { a: quotient(&c.r), b: quotient(&c.g), c: quotient(&c.b) }
}

/// The numbers of a code value are the same whenever they are computed.
pub proof fn code_is_unique(x: Triple, y: Triple, c: CodeValue)
    requires
        c.wf(),
        is_code(x, c),
        is_code(y, c),
    ensures
        x == y,
{
    lemma_shortened_positive(c.r.den as nat);
    lemma_shortened_positive(c.g.den as nat);
    lemma_shortened_positive(c.b.den as nat);
    nearest_is_unique(x.a, y.a, shortened(c.r.num as nat), shortened(c.r.den as nat));
    nearest_is_unique(x.b, y.b, shortened(c.g.num as nat), shortened(c.g.den as nat));
    nearest_is_unique(x.c, y.c, shortened(c.b.num as nat), shortened(c.b.den as nat));
}

/// A fraction that a double can hold exactly is that double, and nothing over
/// something is zero.
pub proof fn exact_fractions_stay_exact(f: Fraction, s: nat, k: nat, d: Double, res: Double)
    requires
        f.wf(),
        f.num < 0x20_0000_0000_0000,
        f.den < 0x20_0000_0000_0000,
        call_ensures(quotient, (&f,), res),
    ensures
        is_binary_fraction(d, s, k) && f.num * pow2(k) == s * f.den ==> res == d,
        f.num == 0 ==> res.bits == 0,
{
    let (a, b) = (f.num as nat, f.den as nat);
    lemma_short_is_kept(a);
    lemma_short_is_kept(b);
    if is_binary_fraction(d, s, k) && f.num * pow2(k) == s * f.den {
        assert(exponent(d) == -k && significand(d) == s);
        let w = pow2((1074 - k) as nat);
        lemma_pow2_adds(k, (1074 - k) as nat);
        assert(units(d) == s * w);
        assert((s * w) * b == a * (pow2(k) * w)) by (nonlinear_arith)
            requires
                a * pow2(k) == s * b,
        ;
        assert(distance(d, a, b) == 0);
        lemma_exact_is_found(res, d, a, b);
    }
    if a == 0 {
        let zero = Double { bits: 0 };
        lemma_units_small(0);
        assert(0 * b == 0 && 0 * pow2(1074) == 0) by (nonlinear_arith);
        assert(distance(zero, a, b) == 0);
        lemma_exact_is_found(res, zero, a, b);
    }
}

proof fn lemma_short_is_kept(p: nat)
    requires
        p < PRECISION,
    ensures
        shortened(p) == p,
{
    let u = precision_unit(p);
    assert(u == 1);
    assert(p / 1 == p && p % 1 == 0);
    let n = nearest_even(p, u);
    assert(n == p);
    assert(n * u == p) by (nonlinear_arith)
        requires
            n == p,
            u == 1,
    ;
}

proof fn lemma_exact_is_found(res: Double, d: Double, a: nat, b: nat)
    requires
        b > 0,
        is_nearest(res, a, b),
        finite(d),
        !d.negative(),
        distance(d, a, b) == 0,
    ensures
        res == d,
{
    assert(distance(res, a, b) == 0);
    let (x, y) = (units(res), units(d));
    assert(x == y) by (nonlinear_arith)
        requires
            x * b == y * b,
            b > 0,
    ;
    if res.bits < d.bits {
        magnitudes_order_the_numbers(res.bits, d.bits);
    } else if d.bits < res.bits {
        magnitudes_order_the_numbers(d.bits, res.bits);
    }
}

/// Each channel of a code value is divided on its own.
pub proof fn channels_are_divided_apart(c: CodeValue, t: Triple, r: Double, g: Double, b: Double)
    requires
        c.wf(),
        call_ensures(code_numbers, (&c,), t),
        call_ensures(quotient, (&c.r,), r),
        call_ensures(quotient, (&c.g,), g),
        call_ensures(quotient, (&c.b,), b),
    ensures
        t.a == r,
        t.b == g,
        t.c == b,
{
    lemma_shortened_positive(c.r.den as nat);
    lemma_shortened_positive(c.g.den as nat);
    lemma_shortened_positive(c.b.den as nat);
    nearest_is_unique(t.a, r, shortened(c.r.num as nat), shortened(c.r.den as nat));
    nearest_is_unique(t.b, g, shortened(c.g.num as nat), shortened(c.g.den as nat));
    nearest_is_unique(t.c, b, shortened(c.b.num as nat), shortened(c.b.den as nat));
}

/// Finite numbers are ordered by what they are worth, and the sign tells which are
/// below zero.
pub proof fn numbers_are_ordered_by_their_worth(a: Double, b: Double, below: bool, low: bool)
    requires
        finite(a),
        finite(b),
        call_ensures(Double::is_less, (&a, &b), below),
        call_ensures(Double::is_at_most_zero, (&a,), low),
    ensures
        below <==> units(a) < units(b),
        low <==> units(a) <= 0,
{
    lemma_worth(a);
    lemma_worth(b);
    let (m, n) = (a.magnitude(), b.magnitude());
    if m < n {
        magnitudes_order_the_numbers(m, n);
    } else if n < m {
        magnitudes_order_the_numbers(n, m);
    }
}

proof fn lemma_worth(x: Double)
    requires
        finite(x),
    ensures
        units(x) == (if x.negative() {
            -units(Double { bits: x.magnitude() })
        } else {
            units(Double { bits: x.magnitude() })
        }),
        units(Double { bits: x.magnitude() }) >= 0,
        units(Double { bits: x.magnitude() }) == 0 <==> x.magnitude() == 0,
{
    lemma_units_signed(x);
    lemma_units_small(0);
    if x.magnitude() > 0 {
        magnitudes_order_the_numbers(0, x.magnitude());
    }
}

/// Half of a normal number is worth half of it, exactly.
pub proof fn halves_are_worth_half(d: Double, h: Double)
    requires
        0x20_0000_0000_0000 <= d.magnitude() < EXPONENT_ONES,
        call_ensures(Double::halved, (&d,), h),
    ensures
        2 * units(h) == units(d),
{
    let e = exponent(h);
    assert(significand(h) == significand(d));
    assert(exponent(d) == e + 1);
    lemma_pow2_unfold((e + 1075) as nat);
    let s = significand(h);
    let w = pow2((e + 1074) as nat);
    assert(s * (2 * w) == 2 * (s * w)) by (nonlinear_arith);
}

} // verus!
