//! Runs of readings.
use vstd::arithmetic::power2::pow2;
use vstd::prelude::*;

use crate::driver::measurement::RawMeasurement;
use crate::number::{Double, Triple};
use crate::scale::{is_binary_fraction, lemma_near, to_unsigned, unsigned};

verus! {

/// The counts behind a run of readings, for devices that expose them.
#[derive(Debug)]
pub struct RawRepeats {
    /// The counts of each reading, by channel.
    pub counts: Vec<Vec<u32>>,
    /// Black level of each channel.
    pub floor: Vec<Double>,
    /// How far one count of a channel moves XYZ.
    pub grad: Vec<Triple>,
}

impl RawRepeats {
    /// Number of channels.
    pub fn channels(&self) -> (res: usize)
        ensures
            res == self.floor@.len(),
    {
        self.floor.len()
    }

    /// Number of readings.
    pub fn repeats(&self) -> (res: usize)
        ensures
            res == self.counts@.len(),
    {
        self.counts.len()
    }
}

/// A run of readings at one operating point.
#[derive(Debug)]
pub struct Sample {
    /// Absolute XYZ of each reading.
    pub xyz: Vec<Triple>,
    pub raw: Option<RawRepeats>,
}

impl Sample {
    /// Number of readings.
    pub fn repeats(&self) -> (res: usize)
        ensures
            res == self.xyz@.len(),
    {
        self.xyz.len()
    }
}

/// A count is at least every count of some readings, and one of them unless it
/// is zero.
pub open spec fn is_peak_count(peak: u16, raws: Seq<RawMeasurement>) -> bool {
    &&& forall|i: int, ch: int|
        0 <= i < raws.len() && 0 <= ch < 6 ==> #[trigger] raws[i].0@[ch] <= peak
    &&& peak == 0 || exists|i: int, ch: int|
        0 <= i < raws.len() && 0 <= ch < 6 && #[trigger] raws[i].0@[ch] == peak
}

/// The greatest count of a run of readings.
pub fn raw_max(raws: &Vec<RawMeasurement>) -> (res: u16)
    ensures
        is_peak_count(res, raws@),
{
    let mut peak: u16 = 0;
    let mut i: usize = 0;
    while i < raws.len()
        invariant
            i <= raws@.len(),
            is_peak_count(peak, raws@.take(i as int)),
        decreases raws@.len() - i,
    {
        let ghost seen = raws@.take(i as int);
        let r = raws[i];
        let ghost before = peak;
        let mut j: usize = 0;
        while j < 6
            invariant
                j <= 6,
                i < raws@.len(),
                r == raws@[i as int],
                seen == raws@.take(i as int),
                is_peak_count(before, seen),
                before <= peak,
                forall|k: int| 0 <= k < j ==> #[trigger] r.0@[k] <= peak,
                peak == before || exists|k: int| 0 <= k < j && #[trigger] r.0@[k] == peak,
            decreases 6 - j,
        {
            if r.0[j] > peak {
                peak = r.0[j];
                assert(r.0@[j as int] == peak);
            }
            j += 1;
        }
        let ghost after = raws@.take(i + 1);
        proof {
            assert(after[i as int] == r);
            assert forall|k: int, ch: int| 0 <= k < after.len() && 0 <= ch < 6 implies #[trigger] after[k].0@[ch]
                <= peak by {
                if k < i {
                    assert(after[k] == seen[k]);
                    assert(seen[k].0@[ch] <= before);
                }
            }
            if peak == before {
                if before != 0 {
                    let (k, ch) = choose|k: int, ch: int|
                        0 <= k < seen.len() && 0 <= ch < 6 && #[trigger] seen[k].0@[ch] == before;
                    assert(after[k].0@[ch] == peak);
                }
            } else {
                let k = choose|k: int| 0 <= k < 6 && #[trigger] r.0@[k] == peak;
                assert(after[i as int].0@[k] == peak);
            }
        }
        i += 1;
    }
    assert(raws@.take(i as int) == raws@);
    peak
}

/// The mean count of a channel as a count.
pub fn mean_count(mean: Double) -> (res: u16)
    ensures
        res == to_unsigned(mean, 1, 0xffff),
{
    unsigned(mean, 1, 0xffff) as u16
}

/// The halves of a run that are compared for drift: how many of the first and of
/// the last readings. Too short a run is not compared.
pub fn drift_half(shots: usize) -> (res: Option<usize>)
    ensures
        res == if shots >= 4 {
            Some((shots / 2) as usize)
        } else {
            None
        },
{
    if shots >= 4 {
        Some(shots / 2)
    } else {
        None
    }
}

/// Drift is looked for between two halves of a run of at least four readings, of equal
/// length and without overlap.
pub proof fn drift_compares_halves(shots: usize, res: Option<usize>)
    requires
        call_ensures(drift_half, (shots,), res),
    ensures
        res is Some <==> shots >= 4,
        res matches Some(h) ==> 2 * h <= shots <= 2 * h + 1,
{
}

/// The greatest count is reached by some channel of some reading and passed by none.
pub proof fn the_greatest_count_is_reached(raws: Vec<RawMeasurement>, res: u16, i: int, ch: int)
    requires
        call_ensures(raw_max, (&raws,), res),
        0 <= i < raws@.len(),
        0 <= ch < 6,
    ensures
        raws@[i].0@[ch] <= res,
        res > 0 ==> exists|k: int, c: int|
            0 <= k < raws@.len() && 0 <= c < 6 && #[trigger] raws@[k].0@[c] == res,
{
}

/// A mean is told as the nearest count, but for what rounding may move it by.
pub proof fn means_are_told_to_the_nearest_count(mean: Double, s: nat, k: nat, n: u16)
    requires
        is_binary_fraction(mean, s, k),
        k >= 1,
        call_ensures(mean_count, (mean,), n),
    ensures
        2 * (n * pow2(k)) <= 2 * s + pow2(k) + 1,
        n < 0xffff ==> 2 * s <= 2 * (n * pow2(k)) + pow2(k) + 1,
{
    lemma_near(mean, s, k, 1, 0xffff);
    assert(s * 1 == s);
}

} // verus!
