//! Decisions of the adaptive measurement.
//!
//! The instrument counts light-sensor edges over a chosen time (fast, but
//! coarse when dim), or clocks over a chosen number of edges (fine, but slow
//! when dim). A survey of the first kind is enough for bright channels; dimmer
//! ones are refined by a measurement of the second kind, sized from an
//! estimate, and channels too dark for an estimate are probed for one first.
use vstd::prelude::*;

verus! {

/// Above this frequency in Hz the sensor is saturated.
pub const SAT_FREQ: u64 = 250_000;

/// Clocks of the survey, a quarter of a second.
pub const SURVEY_CLOCKS: u32 = 3_000_000;

/// Clocks of the long count that stands in for a failed period measurement,
/// eight seconds.
pub const FALLBACK_CLOCKS: u32 = 96_000_000;

/// A measured frequency.
#[derive(Clone, Copy, Debug, PartialEq, Eq, Structural)]
pub enum Frequency {
    /// No light.
    Dark,
    /// Half counts of edges over a number of clocks. An edge count covers both
    /// edges of a cycle.
    Counted { half_counts: u64, clocks: u32 },
    /// A number of edges over a number of clocks.
    Timed { edges: u16, clocks: u32 },
}

impl Frequency {
    /// The frequency in Hz, as a fraction.
    pub open spec fn hz(self) -> (int, int) {
        match self {
            Frequency::Dark => (0, 1),
            Frequency::Counted { half_counts, clocks } => (half_counts * 3_000_000, clocks as int),
            Frequency::Timed { edges, clocks } => (edges * 6_000_000, clocks as int),
        }
    }

    /// Numbers that a measurement can give.
    pub open spec fn wf(self) -> bool {
        match self {
            Frequency::Dark => true,
            Frequency::Counted { half_counts, clocks } => half_counts <= 0x2_0000_0000 && clocks > 0,
            Frequency::Timed { edges, clocks } => clocks > 0,
        }
    }

    /// The frequency in Hz, as a fraction.
    pub fn ratio(&self) -> (res: (u64, u64))
        requires
            self.wf(),
        ensures
            res.0 == self.hz().0,
            res.1 == self.hz().1,
            res.1 > 0,
    {
        match *self {
            Frequency::Dark => (0, 1),
            Frequency::Counted { half_counts, clocks } => (half_counts * 3_000_000, clocks as u64),
            Frequency::Timed { edges, clocks } => (edges as u64 * 6_000_000, clocks as u64),
        }
    }

    /// Above the saturation frequency.
    pub open spec fn saturated(self) -> bool {
        self.hz().0 > SAT_FREQ * self.hz().1
    }

    /// Whether the sensor is saturated at this frequency.
    pub fn is_saturated(&self) -> (res: bool)
        requires
            self.wf(),
        ensures
            res == self.saturated(),
    {
        let (num, den) = self.ratio();
        num > SAT_FREQ * den
    }
}

/// Where a channel stands after the survey.
#[derive(Clone, Copy, Debug, PartialEq, Eq, Structural)]
pub enum Disposition {
    /// The count is fine enough.
    Done(Frequency),
    /// Too dark for an estimate.
    Probe,
    /// Good for an estimate.
    Refine(Frequency),
}

/// The disposition of a count: 400 are fine enough, and 4 make an estimate.
pub open spec fn disposition(half_counts: u64, clocks: u32) -> Disposition {
    let f = Frequency::Counted { half_counts, clocks };
    if half_counts >= 800 {
        Disposition::Done(f)
    } else if half_counts >= 8 {
        Disposition::Refine(f)
    } else {
        Disposition::Probe
    }
}

/// Classifies a channel by its survey count.
pub fn assess_survey(half_counts: u64, clocks: u32) -> (res: Disposition)
    ensures
        res == disposition(half_counts, clocks),
{
    let f = Frequency::Counted { half_counts, clocks };
    if half_counts >= 800 {
        Disposition::Done(f)
    } else if half_counts >= 8 {
        Disposition::Refine(f)
    } else {
        Disposition::Probe
    }
}

/// What to do with an estimate.
#[derive(Clone, Copy, Debug, PartialEq, Eq, Structural)]
pub enum RefinePlan {
    /// Keep it: it is dark, or a cycle takes more than four seconds.
    Keep,
    /// Measure the time of this many edges.
    Measure(u16),
}

/// The refinement of a frequency of `num / den` Hz: as many whole cycles as go
/// into a second, at least one and at most 32767, two edges each.
pub open spec fn refinement(num: int, den: int) -> RefinePlan {
    if num <= 0 || den > 4 * num {
        RefinePlan::Keep
    } else if num / den < 1 {
        RefinePlan::Measure(2)
    } else if num / den > 32767 {
        RefinePlan::Measure(65534)
    } else {
        RefinePlan::Measure((2 * (num / den)) as u16)
    }
}

/// Sizes the refinement of an estimate.
pub fn plan_refinement(est: &Frequency) -> (res: RefinePlan)
    requires
        est.wf(),
    ensures
        res == refinement(est.hz().0, est.hz().1),
{
    let (num, den) = est.ratio();
    if num == 0 || den > 4 * num {
        return RefinePlan::Keep;
    }
    let cycles: u64 = num / den;
    if cycles < 1 {
        RefinePlan::Measure(2)
    } else if cycles > 32767 {
        RefinePlan::Measure(65534)
    } else {
        RefinePlan::Measure((2 * cycles) as u16)
    }
}

/// Edge targets are even and within the command's range, and the time that a
/// refinement is expected to take is at most four seconds.
pub proof fn refinement_is_even_and_bounded(num: int, den: int)
    requires
        den > 0,
    ensures
        refinement(num, den) matches RefinePlan::Measure(e) ==> {
            &&& e % 2 == 0
            &&& 2 <= e <= 65534
            &&& e * den <= 8 * num
        },
{
    if num > 0 && den <= 4 * num {
        let q = num / den;
        assert(q * den <= num) by (nonlinear_arith)
            requires
                q == num / den,
                den > 0,
        ;
        if q > 32767 {
            assert(65534 * den <= 8 * num) by (nonlinear_arith)
                requires
                    q * den <= num,
                    q > 32767,
                    den > 0,
            ;
        } else if q >= 1 {
            assert(0 <= q <= 32767);
            assert(2 * q * den <= 8 * num) by (nonlinear_arith)
                requires
                    q * den <= num,
                    num > 0,
            ;
        }
    }
}

/// The frequency that a period measurement gives; none if it saw no edges.
pub fn period_hz(edges: u16, clocks: u32) -> (res: Option<Frequency>)
    ensures
        res == if clocks == 0 {
            None
        } else {
            Some(Frequency::Timed { edges, clocks })
        },
        res matches Some(f) ==> f.wf(),
{
    if clocks == 0 {
        None
    } else {
        Some(Frequency::Timed { edges, clocks })
    }
}

/// The counts of a frequency measurement in half counts. The instrument rounds
/// down, so half a count is added, unless a channel counted nothing.
pub open spec fn centred(counts: Seq<u32>, i: int) -> u64 {
    if counts[0] != 0 && counts[1] != 0 && counts[2] != 0 {
        (2 * counts[i] + 1) as u64
    } else {
        (2 * counts[i]) as u64
    }
}

/// Centres the counts of a frequency measurement.
pub fn center_counts(counts: &[u32; 3]) -> (res: [u64; 3])
    ensures
        forall|i: int| 0 <= i < 3 ==> #[trigger] res@[i] == centred(counts@, i) && res@[i] <= 0x2_0000_0000,
{
    let add: u64 = if counts[0] != 0 && counts[1] != 0 && counts[2] != 0 {
        1
    } else {
        0
    };
    [2 * counts[0] as u64 + add, 2 * counts[1] as u64 + add, 2 * counts[2] as u64 + add]
}

/// A refinement of `num / den` Hz counts the whole cycles of a second, two edges
/// each, as far as the command can; and one that would take more than four seconds
/// for a cycle is not worth it.
pub proof fn refinement_takes_a_second(num: int, den: int)
    requires
        den > 0,
        num >= 0,
    ensures
        refinement(num, den) is Keep <==> den > 4 * num,
        refinement(num, den) matches RefinePlan::Measure(e) ==> {
            &&& num >= den && num < 32768 * den ==> e * den <= 2 * num < (e + 2) * den
            &&& num < den ==> e == 2
            &&& num >= 32768 * den ==> e == 65534
        },
{
    let q = num / den;
    let r = num % den;
    vstd::arithmetic::div_mod::lemma_fundamental_div_mod(num, den);
    assert(num == q * den + r && 0 <= r < den) by (nonlinear_arith)
        requires
            num == den * q + r,
            q == num / den,
            r == num % den,
            den > 0,
    ;
    assert(num < den ==> q < 1) by (nonlinear_arith)
        requires
            num == q * den + r,
            0 <= r < den,
    ;
    assert(num >= den ==> q >= 1) by (nonlinear_arith)
        requires
            num == q * den + r,
            0 <= r < den,
    ;
    assert(num >= 32768 * den <==> q > 32767) by (nonlinear_arith)
        requires
            num == q * den + r,
            0 <= r < den,
    ;
    assert((2 * q) * den <= 2 * num < (2 * q + 2) * den) by (nonlinear_arith)
        requires
            num == q * den + r,
            0 <= r < den,
    ;
    if den <= 4 * num && q >= 1 && q <= 32767 {
        assert(refinement(num, den) == RefinePlan::Measure((2 * q) as u16));
    }
}

/// Counting edges for some clocks and timing that many edges agree, and `k` cycles
/// in a second, which has twelve million clocks and two edges to a cycle, are `k` Hz.
pub proof fn counting_and_timing_agree(edges: u16, clocks: u32, k: u16)
    requires
        k <= 32767,
    ensures
        (Frequency::Counted { half_counts: (2 * edges) as u64, clocks }).hz() == (
        Frequency::Timed { edges, clocks }).hz(),
        (Frequency::Timed { edges: (2 * k) as u16, clocks: 12_000_000 }).hz().0 == k * (
        Frequency::Timed { edges: (2 * k) as u16, clocks: 12_000_000 }).hz().1,
        Frequency::Dark.hz().0 == 0,
{
}

/// A channel is saturated above a quarter of a million cycles a second.
pub proof fn saturation_is_at_250_khz(f: Frequency)
    ensures
        f.saturated() <==> f.hz().0 > 250_000 * f.hz().1,
{
}

/// The exact ratio that a frequency gives is its value in Hz.
pub proof fn ratios_are_the_frequency(f: Frequency, ratio: (u64, u64))
    requires
        f.wf(),
        call_ensures(Frequency::ratio, (&f,), ratio),
    ensures
        f matches Frequency::Timed { edges, clocks } ==> ratio.0 * clocks == ratio.1 * edges
            * 6_000_000,
        f matches Frequency::Counted { half_counts, clocks } ==> ratio.0 * clocks == ratio.1
            * half_counts * 3_000_000,
        f is Dark ==> ratio.0 == 0,
        ratio.1 > 0,
{
    match f {
        Frequency::Timed { edges, clocks } => {
            assert((edges * 6_000_000) * clocks == clocks * edges * 6_000_000) by (nonlinear_arith);
        },
        Frequency::Counted { half_counts, clocks } => {
            assert((half_counts * 3_000_000) * clocks == clocks * half_counts * 3_000_000)
                by (nonlinear_arith);
        },
        Frequency::Dark => {},
    }
}

/// The counts are centred together or not at all: each is told in halves, and one
/// half is added to all three where none of them is zero.
pub proof fn counts_are_centred_together(counts: [u32; 3], res: [u64; 3], i: int)
    requires
        call_ensures(center_counts, (&counts,), res),
        0 <= i < 3,
    ensures
        counts@[0] > 0 && counts@[1] > 0 && counts@[2] > 0 ==> res@[i] == 2 * counts@[i] + 1,
        counts@[0] == 0 || counts@[1] == 0 || counts@[2] == 0 ==> res@[i] == 2 * counts@[i],
{
    assert(res@[i] == centred(counts@, i));
}

/// A period gives a frequency exactly where it lasted some clocks, and twice the edges
/// in the same time, or the same edges in half the time, are twice the frequency.
pub proof fn periods_give_frequencies(
    edges: u16,
    clocks: u32,
    twice: u16,
    half: u32,
    f: Option<Frequency>,
    f_twice: Option<Frequency>,
    f_half: Option<Frequency>,
)
    requires
        twice == 2 * edges,
        clocks == 2 * half,
        call_ensures(period_hz, (edges, clocks), f),
        call_ensures(period_hz, (twice, clocks), f_twice),
        call_ensures(period_hz, (edges, half), f_half),
    ensures
        f is Some <==> clocks > 0,
        f matches Some(a) ==> {
            &&& a.hz().0 == edges * 6_000_000 && a.hz().1 == clocks
            &&& f_twice matches Some(b) && b.hz().0 == 2 * a.hz().0 && b.hz().1 == a.hz().1
            &&& f_half matches Some(c) && c.hz().0 == a.hz().0 && 2 * c.hz().1 == a.hz().1
        },
{
}

} // verus!
