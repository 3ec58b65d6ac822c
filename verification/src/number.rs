//! Double-precision numbers, held as their IEEE 754 bit patterns.
//!
//! Nothing here does arithmetic on them: what is decided of a number (whether
//! it is zero, which of two is larger, whether it lies in a range) is decided
//! on its bits, whose order is the order of the numbers.
use vstd::arithmetic::power2::{lemma2_to64, lemma2_to64_rest, lemma_pow2_strictly_increases, lemma_pow2_unfold, pow2};
use vstd::prelude::*;

verus! {

/// The bits of an exponent field full of ones, the least of the patterns that
/// are not finite.
pub const EXPONENT_ONES: u64 = 0x7ff0_0000_0000_0000;

/// The sign bit.
pub const SIGN: u64 = 0x8000_0000_0000_0000;

/// The pattern of 1.0.
pub const ONE_BITS: u64 = 0x3ff0_0000_0000_0000;

/// A double-precision number by its bit pattern.
#[derive(Clone, Copy, Debug, PartialEq, Eq, Structural)]
pub struct Double {
    pub bits: u64,
}

impl Double {
    /// Whether the sign bit is set.
    pub open spec fn negative(self) -> bool {
        self.bits >= SIGN
    }

    /// The bits without the sign.
    pub open spec fn magnitude(self) -> u64 {
        if self.negative() {
            (self.bits - SIGN) as u64
        } else {
            self.bits
        }
    }

    /// Not a number: an exponent of ones and a fraction that is not zero.
    pub open spec fn nan(self) -> bool {
        self.magnitude() > EXPONENT_ONES
    }

    /// A position in the total order of all patterns: negative numbers first,
    /// by decreasing magnitude, then positive ones by increasing magnitude.
    pub open spec fn rank(self) -> int {
        if self.negative() {
            -1 - self.magnitude()
        } else {
            self.magnitude() as int
        }
    }

    /// A position in the order of the numbers, where the two zeros are one.
    pub open spec fn value_rank(self) -> int {
        if self.negative() {
            -(self.magnitude() as int)
        } else {
            self.magnitude() as int
        }
    }

    /// Less than another number. Nothing is less than what is not a number, or
    /// greater.
    pub open spec fn less(self, other: Double) -> bool {
        !self.nan() && !other.nan() && self.value_rank() < other.value_rank()
    }

    /// The greater of two numbers; of two where one is none, the other.
    pub open spec fn greater_of(self, other: Double) -> Double {
        if self.nan() || self.less(other) {
            other
        } else {
            self
        }
    }

    /// The lesser of two numbers; of two where one is none, the other.
    pub open spec fn lesser_of(self, other: Double) -> Double {
        if self.nan() || other.less(self) {
            other
        } else {
            self
        }
    }

    /// At or below zero, as a number.
    pub open spec fn at_most_zero(self) -> bool {
        !self.nan() && (self.negative() || self.bits == 0)
    }

    /// The magnitude of half the number. A normal number's exponent goes down by
    /// one; below that the fraction is halved, to even on a tie. What is not
    /// finite stays as it is.
    pub open spec fn half_magnitude(self) -> u64 {
        let m = self.magnitude();
        if m >= EXPONENT_ONES {
            m
        } else if m >= 0x20_0000_0000_0000 {
            (m - 0x10_0000_0000_0000) as u64
        } else if m % 4 == 3 {
            (m / 2 + 1) as u64
        } else {
            m / 2
        }
    }

    /// Half the number.
    pub fn halved(&self) -> (res: Double)
        ensures
            res.negative() == self.negative(),
            res.magnitude() == self.half_magnitude(),
    {
        let neg: bool = self.bits >= SIGN;
        let m: u64 = if neg {
            self.bits - SIGN
        } else {
            self.bits
        };
        let h: u64 = if m >= EXPONENT_ONES {
            m
        } else if m >= 0x20_0000_0000_0000 {
            m - 0x10_0000_0000_0000
        } else if m % 4 == 3 {
            m / 2 + 1
        } else {
            m / 2
        };
        if neg {
            Double { bits: h + SIGN }
        } else {
            Double { bits: h }
        }
    }

    /// Whether this is not a number.
    pub fn is_nan(&self) -> (res: bool)
        ensures
            res == self.nan(),
    {
        if self.bits >= SIGN {
            self.bits - SIGN > EXPONENT_ONES
        } else {
            self.bits > EXPONENT_ONES
        }
    }

    /// Whether this number is less than another.
    pub fn is_less(&self, other: &Double) -> (res: bool)
        ensures
            res == self.less(*other),
    {
        if self.is_nan() || other.is_nan() {
            return false;
        }
        if self.bits >= SIGN {
            if other.bits >= SIGN {
                self.bits > other.bits
            } else {
                self.bits > SIGN || other.bits > 0
            }
        } else {
            other.bits < SIGN && self.bits < other.bits
        }
    }

    /// The greater of two numbers.
    pub fn max(&self, other: &Double) -> (res: Double)
        ensures
            res == self.greater_of(*other),
    {
        if self.is_nan() || self.is_less(other) {
            *other
        } else {
            *self
        }
    }

    /// Whether the number is at or below zero.
    pub fn is_at_most_zero(&self) -> (res: bool)
        ensures
            res == self.at_most_zero(),
    {
        if self.bits >= SIGN {
            self.bits - SIGN <= EXPONENT_ONES
        } else {
            self.bits == 0
        }
    }

    /// Whether this number comes before another in the total order.
    pub fn precedes(&self, other: &Double) -> (res: bool)
        ensures
            res == (self.rank() < other.rank()),
    {
        if self.bits >= SIGN {
            other.bits < SIGN || self.bits > other.bits
        } else {
            other.bits < SIGN && self.bits < other.bits
        }
    }
}

/// The total order tells any two different numbers apart.
pub proof fn rank_is_injective(a: Double, b: Double)
    ensures
        a.rank() == b.rank() ==> a == b,
{
}

/// A triple of numbers: the channels of a code value, or the coordinates of a
/// colour.
#[derive(Clone, Copy, Debug, PartialEq, Eq, Structural)]
pub struct Triple {
    pub a: Double,
    pub b: Double,
    pub c: Double,
}

/// A pair of numbers.
#[derive(Clone, Copy, Debug, PartialEq, Eq, Structural)]
pub struct Pair {
    pub a: Double,
    pub b: Double,
}

/// The greatest of some numbers, or zero if none is above it.
pub open spec fn greatest(v: Seq<Double>) -> Double
    decreases v.len(),
{
    if v.len() == 0 {
        Double { bits: 0 }
    } else {
        greatest(v.drop_last()).greater_of(v.last())
    }
}

/// The greatest of some numbers, or zero.
pub fn greatest_of(v: &Vec<Double>) -> (res: Double)
    ensures
        res == greatest(v@),
{
    let mut best = Double { bits: 0 };
    let mut i: usize = 0;
    assert(v@.take(0).len() == 0);
    while i < v.len()
        invariant
            i <= v@.len(),
            best == greatest(v@.take(i as int)),
        decreases v@.len() - i,
    {
        assert(v@.take(i + 1).drop_last() == v@.take(i as int));
        best = best.max(&v[i]);
        i += 1;
    }
    assert(v@.take(i as int) == v@);
    best
}

/// The greatest of some numbers is one of them or zero, it is a number, and none of
/// them is greater.
pub proof fn greatest_is_an_upper_bound(v: Seq<Double>, i: int)
    requires
        0 <= i < v.len(),
    ensures
        !greatest(v).less(v[i]),
        !greatest(v).less(Double { bits: 0 }),
        !greatest(v).nan(),
        greatest(v) == (Double { bits: 0 }) || v.contains(greatest(v)),
    decreases v.len(),
{
    let front = v.drop_last();
    let g = greatest(front);
    if front.len() > 0 {
        if i < front.len() {
            greatest_is_an_upper_bound(front, i);
        } else {
            greatest_is_an_upper_bound(front, 0);
        }
        if front.contains(g) {
            let k = choose|k: int| 0 <= k < front.len() && front[k] == g;
            assert(v[k] == g);
        }
    }
    assert(v[v.len() - 1] == v.last());
}

/// A fraction, a code value between 0 and 1.
#[derive(Clone, Copy, Debug, PartialEq, Eq, Structural)]
pub struct Fraction {
    pub num: u64,
    pub den: u64,
}

/// The channels of a code value as fractions of full scale.
#[derive(Clone, Copy, Debug, PartialEq, Eq, Structural)]
pub struct CodeValue {
    pub r: Fraction,
    pub g: Fraction,
    pub b: Fraction,
}

/// Two to the power `n`.
pub fn power_of_two(n: u32) -> (res: u64)
    requires
        n < 64,
    ensures
        res == pow2(n as nat),
{
    let mut k: u32 = 0;
    let mut res: u64 = 1;
    proof {
        lemma2_to64();
    }
    while k < n
        invariant
            k <= n < 64,
            res == pow2(k as nat),
        decreases n - k,
    {
        proof {
            lemma2_to64_rest();
            if k + 1 < 63 {
                lemma_pow2_strictly_increases((k + 1) as nat, 63);
            }
            lemma_pow2_unfold((k + 1) as nat);
        }
        res = res * 2;
        k += 1;
    }
    res
}

/// The greater of two numbers is one of them and not below either; what is no number
/// gives way.
pub proof fn maximum_is_the_greater(a: Double, b: Double, m: Double)
    requires
        call_ensures(Double::max, (&a, &b), m),
    ensures
        m == a || m == b,
        !m.less(a) && !m.less(b),
        a.nan() ==> m == b,
        b.nan() && !a.nan() ==> m == a,
{
}

/// What is no number is not below anything, nor above it; of two numbers that differ
/// one is below the other, and comes first in the total order too.
pub proof fn orders_agree(a: Double, b: Double, below: bool, above: bool, first: bool)
    requires
        call_ensures(Double::is_less, (&a, &b), below),
        call_ensures(Double::is_less, (&b, &a), above),
        call_ensures(Double::precedes, (&a, &b), first),
    ensures
        a.nan() || b.nan() ==> !below && !above,
        below ==> first,
        above ==> !first,
        !(below && above),
        a.bits == b.bits ==> !first,
        a.bits < SIGN && b.bits < SIGN ==> (first <==> a.bits < b.bits),
        a.bits >= SIGN && b.bits >= SIGN ==> (first <==> a.bits > b.bits),
        a.bits >= SIGN && b.bits < SIGN ==> first,
{
}

} // verus!
