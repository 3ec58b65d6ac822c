//! How far a reading can be trusted.
//!
//! The statistics of a run of readings are numbers that come in. What is
//! decided of them is decided here: which channels carry signal, which of them
//! limits trust, and which flags are raised.
use vstd::prelude::*;

use crate::number::{greatest, greatest_is_an_upper_bound, greatest_of, Double, EXPONENT_ONES, ONE_BITS};

verus! {

/// The pattern of 3.0: below this many noise deviations above its floor, a
/// signal channel is too close to it.
pub const FLOOR_SIGMA_MIN: u64 = 0x4008_0000_0000_0000;

/// The pattern of 0.05: above this relative uncertainty, luminance is noisy.
pub const NOISY_REL: u64 = 0x3fa9_9999_9999_999a;

/// The pattern of 0.003: above this uncertainty, chromaticity is perceptibly
/// off.
pub const DUV_PERCEPTIBLE: u64 = 0x3f68_9374_bc6a_7efa;

/// A reason to trust a reading less.
#[derive(Clone, Copy, Debug, PartialEq, Eq, Structural)]
pub enum TrustFlag {
    /// A signal channel is near its black level.
    Floor,
    /// The relative luminance uncertainty is large.
    Noisy,
    /// The chromaticity uncertainty is perceptible.
    Chroma,
}

/// The statistics that trust is decided on.
#[derive(Clone, Copy, Debug, PartialEq, Eq)]
pub struct MeasurementConfidence {
    /// Greatest count above black of any channel.
    pub max_corrected: Double,
    /// Noise deviations above the floor of the worst signal channel.
    pub min_floor_sigma: Double,
    /// Luminance uncertainty relative to luminance.
    pub y_rel_uncertainty: Double,
    /// Chromaticity uncertainty; none where chromaticity is undefined.
    pub uv_std: Option<Double>,
}

/// A flag is raised at the default thresholds.
pub open spec fn raised(f: MeasurementConfidence, flag: TrustFlag) -> bool {
    match flag {
        TrustFlag::Floor => f.max_corrected.less(Double { bits: ONE_BITS }) || f.min_floor_sigma.less(
            Double { bits: FLOOR_SIGMA_MIN },
        ),
        TrustFlag::Noisy => (Double { bits: NOISY_REL }).less(f.y_rel_uncertainty),
        TrustFlag::Chroma => f.uv_std matches Some(d) && (Double { bits: DUV_PERCEPTIBLE }).less(d),
    }
}

/// The flag as a sequence, if it is raised.
pub open spec fn if_raised(f: MeasurementConfidence, flag: TrustFlag) -> Seq<TrustFlag> {
    if raised(f, flag) {
        seq![flag]
    } else {
        seq![]
    }
}

impl MeasurementConfidence {
    /// The flags that are raised, in a fixed order.
    pub fn flags(&self) -> (res: Vec<TrustFlag>)
        ensures
            res@ == if_raised(*self, TrustFlag::Floor) + if_raised(*self, TrustFlag::Noisy)
                + if_raised(*self, TrustFlag::Chroma),
    {
        let mut v: Vec<TrustFlag> = Vec::new();
        if self.max_corrected.is_less(&Double { bits: ONE_BITS }) || self.min_floor_sigma.is_less(
            &Double { bits: FLOOR_SIGMA_MIN },
        ) {
            v.push(TrustFlag::Floor);
        }
        let noisy = Double { bits: NOISY_REL };
        if noisy.is_less(&self.y_rel_uncertainty) {
            v.push(TrustFlag::Noisy);
        }
        let perceptible = Double { bits: DUV_PERCEPTIBLE };
        if let Some(d) = self.uv_std {
            if perceptible.is_less(&d) {
                v.push(TrustFlag::Chroma);
            }
        }
        assert(v@ == if_raised(*self, TrustFlag::Floor) + if_raised(*self, TrustFlag::Noisy)
            + if_raised(*self, TrustFlag::Chroma));
        v
    }

    /// Whether no flag is raised.
    pub fn is_trustworthy(&self) -> (res: bool)
        ensures
            res == forall|flag: TrustFlag| !raised(*self, flag),
    {
        let flags = self.flags();
        let res: bool = flags.len() == 0;
        proof {
            if res {
                assert forall|flag: TrustFlag| !raised(*self, flag) by {
                    assert(if_raised(*self, TrustFlag::Floor).len() == 0);
                    assert(if_raised(*self, TrustFlag::Noisy).len() == 0);
                    assert(if_raised(*self, TrustFlag::Chroma).len() == 0);
                }
            } else {
                assert(raised(*self, TrustFlag::Floor) || raised(*self, TrustFlag::Noisy) || raised(
                    *self,
                    TrustFlag::Chroma,
                ));
            }
        }
        res
    }
}

/// The greatest of the counts above black: the overall signal level.
pub fn max_corrected(corrected: &Vec<Double>) -> (res: Double)
    ensures
        res == greatest(corrected@),
{
    greatest_of(corrected)
}

/// The signal level is at least every channel's count.
pub proof fn signal_level_bounds_every_channel(v: Seq<Double>, i: int)
    requires
        0 <= i < v.len(),
    ensures
        !greatest(v).nan(),
        !greatest(v).less(v[i]),
    decreases v.len(),
{
    lemma_greatest_is_a_number(v);
    lemma_greatest_is_a_number(v.drop_last());
    if i < v.len() - 1 {
        signal_level_bounds_every_channel(v.drop_last(), i);
    }
}

proof fn lemma_greatest_is_a_number(v: Seq<Double>)
    ensures
        !greatest(v).nan(),
    decreases v.len(),
{
    if v.len() > 0 {
        lemma_greatest_is_a_number(v.drop_last());
    }
}

/// Which channels carry signal: those at or above the threshold.
pub fn signal_mask(corrected: &Vec<Double>, threshold: Double) -> (res: Vec<bool>)
    ensures
        res@.len() == corrected@.len(),
        forall|i: int|
            0 <= i < res@.len() ==> #[trigger] res@[i] == (!corrected@[i].nan() && !threshold.nan()
                && !corrected@[i].less(threshold)),
{
    let mut out: Vec<bool> = Vec::new();
    let mut i: usize = 0;
    while i < corrected.len()
        invariant
            i <= corrected@.len(),
            out@.len() == i,
            forall|j: int|
                0 <= j < i ==> #[trigger] out@[j] == (!corrected@[j].nan() && !threshold.nan()
                    && !corrected@[j].less(threshold)),
        decreases corrected@.len() - i,
    {
        let c = corrected[i];
        out.push(!c.is_nan() && !threshold.is_nan() && !c.is_less(&threshold));
        i += 1;
    }
    out
}

/// The least of the numbers that are marked, infinity for none.
pub open spec fn least_marked(v: Seq<Double>, marked: Seq<bool>) -> Double
    decreases v.len(),
{
    if v.len() == 0 {
        Double { bits: EXPONENT_ONES }
    } else {
        let front = least_marked(v.drop_last(), marked.drop_last());
        if marked.last() {
            front.lesser_of(v.last())
        } else {
            front
        }
    }
}

/// Headroom of the signal channel that limits trust; zero where no channel
/// carries signal.
pub fn limiting_sigma(floor_sigma: &Vec<Double>, is_signal: &Vec<bool>) -> (res: Double)
    requires
        floor_sigma@.len() == is_signal@.len(),
    ensures
        res == {
            let least = least_marked(floor_sigma@, is_signal@);
            if least.magnitude() >= EXPONENT_ONES {
                Double { bits: 0 }
            } else {
                least
            }
        },
{
    let mut best = Double { bits: EXPONENT_ONES };
    let mut i: usize = 0;
    while i < floor_sigma.len()
        invariant
            i <= floor_sigma@.len(),
            floor_sigma@.len() == is_signal@.len(),
            best == least_marked(floor_sigma@.take(i as int), is_signal@.take(i as int)),
        decreases floor_sigma@.len() - i,
    {
        assert(floor_sigma@.take(i + 1).drop_last() == floor_sigma@.take(i as int));
        assert(is_signal@.take(i + 1).drop_last() == is_signal@.take(i as int));
        let c = floor_sigma[i];
        if is_signal[i] && (best.is_nan() || c.is_less(&best)) {
            best = c;
        }
        i += 1;
    }
    assert(floor_sigma@.take(i as int) == floor_sigma@);
    assert(is_signal@.take(i as int) == is_signal@);
    if best.is_nan() || best.bits == EXPONENT_ONES || best.bits == EXPONENT_ONES + 0x8000_0000_0000_0000 {
        Double { bits: 0 }
    } else {
        best
    }
}

/// Each flag has its own reason, and is raised for no other: a count below one, or a
/// signal less than three deviations above its floor; a relative uncertainty of
/// luminance above 0.05; an uncertainty of chromaticity above 0.003. A reading is
/// trusted if no flag is raised.
pub proof fn flags_have_their_own_reasons(
    f: MeasurementConfidence,
    flags: Vec<TrustFlag>,
    trusted: bool,
)
    requires
        call_ensures(MeasurementConfidence::flags, (&f,), flags),
        call_ensures(MeasurementConfidence::is_trustworthy, (&f,), trusted),
    ensures
        flags@.contains(TrustFlag::Floor) <==> f.max_corrected.less(
            Double { bits: 0x3ff0_0000_0000_0000 },
        ) || f.min_floor_sigma.less(Double { bits: 0x4008_0000_0000_0000 }),
        flags@.contains(TrustFlag::Noisy) <==> (Double { bits: 0x3fa9_9999_9999_999a }).less(
            f.y_rel_uncertainty,
        ),
        flags@.contains(TrustFlag::Chroma) <==> (f.uv_std matches Some(d) && (Double {
            bits: 0x3f68_9374_bc6a_7efa,
        }).less(d)),
        flags@.no_duplicates(),
        trusted <==> flags@.len() == 0,
{
    let a = if_raised(f, TrustFlag::Floor);
    let b = if_raised(f, TrustFlag::Noisy);
    let c = if_raised(f, TrustFlag::Chroma);
    if raised(f, TrustFlag::Floor) {
        assert(flags@[0] == TrustFlag::Floor);
    }
    if raised(f, TrustFlag::Noisy) {
        assert(flags@[a.len() as int] == TrustFlag::Noisy);
    }
    if raised(f, TrustFlag::Chroma) {
        assert(flags@[(a.len() + b.len()) as int] == TrustFlag::Chroma);
    }
    if trusted {
        assert(!raised(f, TrustFlag::Floor) && !raised(f, TrustFlag::Noisy) && !raised(
            f,
            TrustFlag::Chroma,
        ));
    } else {
        let g = choose|g: TrustFlag| raised(f, g);
        assert(flags@.contains(g));
    }
}

proof fn lemma_least_marked(v: Seq<Double>, marked: Seq<bool>, i: int)
    requires
        v.len() == marked.len(),
        0 <= i < v.len(),
    ensures
        !least_marked(v, marked).nan(),
        marked[i] ==> !v[i].less(least_marked(v, marked)),
        least_marked(v, marked) == (Double { bits: EXPONENT_ONES }) || exists|k: int|
            0 <= k < v.len() && marked[k] && #[trigger] v[k] == least_marked(v, marked),
    decreases v.len(),
{
    let fv = v.drop_last();
    let fm = marked.drop_last();
    let g = least_marked(fv, fm);
    if fv.len() > 0 {
        if i < fv.len() {
            lemma_least_marked(fv, fm, i);
        } else {
            lemma_least_marked(fv, fm, 0);
        }
        if g != (Double { bits: EXPONENT_ONES }) {
            let k = choose|k: int| 0 <= k < fv.len() && fm[k] && #[trigger] fv[k] == g;
            assert(v[k] == g && marked[k]);
        }
    }
    assert(v[v.len() - 1] == v.last() && marked[marked.len() - 1] == marked.last());
}

/// The headroom that limits trust is that of a channel with signal, and no other
/// channel with signal has less. It is zero where no channel has signal, or where
/// the least of them is not finite.
pub proof fn the_worst_channel_limits(
    floor_sigma: Vec<Double>,
    is_signal: Vec<bool>,
    res: Double,
    i: int,
)
    requires
        floor_sigma@.len() == is_signal@.len(),
        call_ensures(limiting_sigma, (&floor_sigma, &is_signal), res),
        0 <= i < floor_sigma@.len(),
    ensures
        res.bits == 0 || exists|k: int|
            0 <= k < floor_sigma@.len() && is_signal@[k] && #[trigger] floor_sigma@[k] == res,
        is_signal@[i] && res.bits != 0 ==> !floor_sigma@[i].less(res),
        is_signal@[i] && floor_sigma@[i].magnitude() < EXPONENT_ONES ==> !floor_sigma@[i].less(res)
            || res.bits == 0,
        (forall|k: int| 0 <= k < is_signal@.len() ==> !#[trigger] is_signal@[k]) ==> res.bits == 0,
{
    lemma_least_marked(floor_sigma@, is_signal@, i);
}

/// Where the headroom of every channel is finite, and some channel has signal, the
/// headroom that limits trust is that of a channel with signal, and it is no greater
/// than that of any other.
pub proof fn finite_headrooms_limit(
    floor_sigma: Vec<Double>,
    is_signal: Vec<bool>,
    res: Double,
    i: int,
)
    requires
        floor_sigma@.len() == is_signal@.len(),
        call_ensures(limiting_sigma, (&floor_sigma, &is_signal), res),
        0 <= i < floor_sigma@.len(),
        is_signal@[i],
        forall|k: int|
            0 <= k < floor_sigma@.len() ==> (#[trigger] floor_sigma@[k]).magnitude() < EXPONENT_ONES,
    ensures
        exists|k: int|
            0 <= k < floor_sigma@.len() && is_signal@[k] && #[trigger] floor_sigma@[k] == res,
        !floor_sigma@[i].less(res),
{
    lemma_least_marked(floor_sigma@, is_signal@, i);
    let inf = Double { bits: EXPONENT_ONES };
    assert(floor_sigma@[i].less(inf));
}

/// A channel has signal if its count reaches the threshold. A channel with a greater
/// count than one with signal has signal too, and one that has signal still has it
/// where the threshold is lower.
pub proof fn signal_starts_at_the_threshold(
    corrected: Vec<Double>,
    threshold: Double,
    lower: Double,
    res: Vec<bool>,
    res_lower: Vec<bool>,
    i: int,
    j: int,
)
    requires
        call_ensures(signal_mask, (&corrected, threshold), res),
        call_ensures(signal_mask, (&corrected, lower), res_lower),
        0 <= i < corrected@.len(),
        0 <= j < corrected@.len(),
    ensures
        res@.len() == corrected@.len(),
        corrected@[i] == threshold && !threshold.nan() ==> res@[i],
        corrected@[i].less(threshold) ==> !res@[i],
        threshold.less(corrected@[i]) ==> res@[i],
        corrected@[i].nan() ==> !res@[i],
        res@[i] && corrected@[i].less(corrected@[j]) ==> res@[j],
        res@[i] && lower.less(threshold) ==> res_lower@[i],
{
}

/// The signal level is that of a channel, or zero where no channel is above it, and no
/// channel is above the level.
pub proof fn the_strongest_channel_sets_the_level(corrected: Vec<Double>, res: Double, i: int)
    requires
        call_ensures(max_corrected, (&corrected,), res),
        0 <= i < corrected@.len(),
    ensures
        !res.less(corrected@[i]),
        res.bits == 0 || corrected@.contains(res),
        (Double { bits: 0 }).less(corrected@[i]) ==> corrected@.contains(res),
{
    greatest_is_an_upper_bound(corrected@, i);
}

} // verus!
