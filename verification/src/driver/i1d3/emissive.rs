//! The adaptive measurement: which commands to send, and what their replies
//! make of each channel.
//!
//! A measurement is a survey, then a probe of the channels that the survey did
//! not see, then a refinement of those that have an estimate. Where a period
//! measurement fails, one long frequency measurement takes the place of
//! everything.
use vstd::prelude::*;

use crate::driver::colorimeter::Error;
use crate::driver::i1d3::adaptive::{
    assess_survey, center_counts, centred, disposition, period_hz, plan_refinement, refinement,
    refinement_is_even_and_bounded, refinement_takes_a_second,
    Disposition, Frequency, RefinePlan, FALLBACK_CLOCKS, SURVEY_CLOCKS,
};
use crate::number::Double;

verus! {

/// The status of a period measurement that saw no edges.
pub const STATUS_PERIOD_FAIL: u8 = 0x83;

/// 250 kHz, the saturation frequency.
pub const SAT_FREQ_BITS: u64 = 0x410E_8480_0000_0000;

/// Where a channel stands.
#[derive(Clone, Copy, Debug, PartialEq, Eq, Structural)]
pub enum Channel {
    /// Measured.
    Settled(Frequency),
    /// Too dark for the survey.
    Unseen,
    /// Estimated; `probed` is the number of edges if a probe gave the estimate.
    Estimated { est: Frequency, probed: Option<u16> },
}

impl Channel {
    pub open spec fn wf(self) -> bool {
        match self {
            Channel::Settled(f) => f.wf(),
            Channel::Unseen => true,
            Channel::Estimated { est, .. } => est.wf(),
        }
    }

    /// The number of edges that would refine the channel, if any would.
    pub open spec fn target(self) -> Option<u16> {
        match self {
            Channel::Estimated { est, probed } => match refinement(est.hz().0, est.hz().1) {
                RefinePlan::Measure(e) if probed != Some(e) => Some(e),
                _ => None,
            },
            _ => None,
        }
    }

    /// The number of edges that would refine the channel. A measurement that
    /// the probe took already is not repeated.
    pub fn refine_target(&self) -> (res: Option<u16>)
        requires
            self.wf(),
        ensures
            res == self.target(),
    {
        match *self {
            Channel::Estimated { est, probed } => match plan_refinement(&est) {
                RefinePlan::Measure(e) => match probed {
                    Some(p) if p == e => None,
                    _ => Some(e),
                },
                RefinePlan::Keep => None,
            },
            _ => None,
        }
    }
}

/// What a survey count makes of a channel; `None` if it is saturated.
pub open spec fn surveyed(half_counts: u64) -> Option<Channel> {
    match disposition(half_counts, SURVEY_CLOCKS) {
        Disposition::Done(f) => if f.saturated() {
            None
        } else {
            Some(Channel::Settled(f))
        },
        Disposition::Refine(est) => Some(Channel::Estimated { est, probed: None }),
        Disposition::Probe => Some(Channel::Unseen),
    }
}

/// What a probe of two edges makes of a channel. A channel without edges is
/// dark.
pub open spec fn probed(ch: Channel, clocks: u32) -> Channel {
    if ch != Channel::Unseen {
        ch
    } else if clocks == 0 {
        Channel::Settled(Frequency::Dark)
    } else {
        Channel::Estimated { est: Frequency::Timed { edges: 2, clocks }, probed: Some(2) }
    }
}

/// A channel that is not worth refining keeps its estimate.
pub open spec fn kept(ch: Channel) -> Channel {
    match ch {
        Channel::Estimated { est, .. } if ch.target() is None => Channel::Settled(est),
        _ => ch,
    }
}

/// What a refinement makes of a channel. One that saw no edges keeps its
/// estimate.
pub open spec fn refined(ch: Channel, clocks: u32) -> Channel {
    match ch {
        Channel::Estimated { est, .. } => if clocks == 0 {
            Channel::Settled(est)
        } else {
            Channel::Settled(Frequency::Timed { edges: ch.target()->0, clocks })
        },
        _ => ch,
    }
}

/// What comes next.
#[derive(Clone, Copy, Debug, PartialEq, Eq, Structural)]
pub enum Stage {
    Survey,
    Probe,
    Refine,
    Fallback,
    Done,
}

/// A command to send.
#[derive(Clone, Copy, Debug, PartialEq, Eq)]
pub enum Request {
    /// Count edges over a number of clocks.
    Frequency { clocks: u32 },
    /// Count clocks over numbers of edges, on the channels of a mask.
    Period { edges: [u16; 3], mask: u8 },
}

/// What came back.
#[derive(Clone, Copy, Debug, PartialEq, Eq)]
pub enum Reply {
    /// The numbers of the three channels.
    Numbers([u32; 3]),
    /// A period measurement saw no edges.
    PeriodFailed,
}

/// Turns the outcome of a period measurement into a reply: one status means
/// that there were no edges, and every other error is passed on.
pub fn period_reply(outcome: Result<[u32; 3], Error>) -> (res: Result<Reply, Error>)
    ensures
        match outcome {
            Ok(n) => res == Ok::<Reply, Error>(Reply::Numbers(n)),
            Err(e) => if e == Error::InstrumentError(STATUS_PERIOD_FAIL) {
                res == Ok::<Reply, Error>(Reply::PeriodFailed)
            } else {
                res == Err::<Reply, Error>(e)
            },
        },
{
    match outcome {
        Ok(n) => Ok(Reply::Numbers(n)),
        Err(Error::InstrumentError(s)) => if s == STATUS_PERIOD_FAIL {
            Ok(Reply::PeriodFailed)
        } else {
            Err(Error::InstrumentError(s))
        },
        Err(e) => Err(e),
    }
}

/// The mask of the channels for which a condition holds.
pub open spec fn mask_of(b0: bool, b1: bool, b2: bool) -> u8 {
    ((if b0 {
        1int
    } else {
        0
    }) + (if b1 {
        2int
    } else {
        0
    }) + (if b2 {
        4int
    } else {
        0
    })) as u8
}

fn mask(b0: bool, b1: bool, b2: bool) -> (res: u8)
    ensures
        res == mask_of(b0, b1, b2),
{
    let m0: u8 = if b0 {
        1
    } else {
        0
    };
    let m1: u8 = if b1 {
        2
    } else {
        0
    };
    let m2: u8 = if b2 {
        4
    } else {
        0
    };
    m0 + m1 + m2
}

fn is_unseen(ch: Channel) -> (res: bool)
    ensures
        res == (ch == Channel::Unseen),
{
    match ch {
        Channel::Unseen => true,
        _ => false,
    }
}

fn edges_of(target: Option<u16>) -> (res: u16)
    ensures
        res == target.unwrap_or(0),
{
    match target {
        Some(e) => e,
        None => 0,
    }
}

/// A measurement under way.
#[derive(Clone, Copy, Debug, PartialEq, Eq)]
pub struct Emissive {
    pub stage: Stage,
    pub channels: [Channel; 3],
}

/// The state after estimates have been made: channels not worth refining are
/// settled, and what is left is refined.
pub open spec fn settled(c0: Channel, c1: Channel, c2: Channel) -> (Stage, Seq<Channel>) {
    let done = c0.target() is None && c1.target() is None && c2.target() is None;
    (
        if done {
            Stage::Done
        } else {
            Stage::Refine
        },
        seq![kept(c0), kept(c1), kept(c2)],
    )
}

impl Emissive {
    pub open spec fn view(self) -> (Stage, Seq<Channel>) {
        (self.stage, self.channels@)
    }

    /// A state that replies lead to.
    pub open spec fn wf(self) -> bool {
        let c = self.channels@;
        &&& c[0].wf() && c[1].wf() && c[2].wf()
        &&& match self.stage {
            Stage::Survey | Stage::Fallback => true,
            Stage::Probe => c[0] == Channel::Unseen || c[1] == Channel::Unseen || c[2]
                == Channel::Unseen,
            Stage::Refine => {
                &&& c[0] is Estimated || c[1] is Estimated || c[2] is Estimated
                &&& forall|i: int| 0 <= i < 3 ==> #[trigger] c[i] != Channel::Unseen
                &&& forall|i: int|
                    0 <= i < 3 ==> (#[trigger] c[i] is Estimated ==> c[i].target() is Some)
            },
            Stage::Done => c[0] is Settled && c[1] is Settled && c[2] is Settled,
        }
    }

    pub fn start() -> (res: Emissive)
        ensures
            res.wf(),
            res.stage == Stage::Survey,
            res.channels@ == seq![Channel::Unseen, Channel::Unseen, Channel::Unseen],
    {
        let channels: [Channel; 3] = [Channel::Unseen, Channel::Unseen, Channel::Unseen];
        assert(channels@ == seq![Channel::Unseen, Channel::Unseen, Channel::Unseen]);
        Emissive { stage: Stage::Survey, channels }
    }

    /// The command to send next; `None` once the measurement is done.
    pub fn next(&self) -> (res: Option<Request>)
        requires
            self.wf(),
        ensures
            match self.stage {
                Stage::Survey => res == Some(Request::Frequency { clocks: SURVEY_CLOCKS }),
                Stage::Fallback => res == Some(Request::Frequency { clocks: FALLBACK_CLOCKS }),
                Stage::Done => res is None,
                Stage::Probe => res matches Some(Request::Period { edges, mask }) && edges@
                    == seq![2u16, 2, 2] && mask == mask_of(
                    self.channels@[0] == Channel::Unseen,
                    self.channels@[1] == Channel::Unseen,
                    self.channels@[2] == Channel::Unseen,
                ),
                Stage::Refine => res matches Some(Request::Period { edges, mask }) && edges@
                    == seq![
                    self.channels@[0].target().unwrap_or(0),
                    self.channels@[1].target().unwrap_or(0),
                    self.channels@[2].target().unwrap_or(0),
                ] && mask == mask_of(
                    self.channels@[0].target() is Some,
                    self.channels@[1].target() is Some,
                    self.channels@[2].target() is Some,
                ),
            },
    {
        let c = self.channels;
        match self.stage {
            Stage::Survey => Some(Request::Frequency { clocks: SURVEY_CLOCKS }),
            Stage::Fallback => Some(Request::Frequency { clocks: FALLBACK_CLOCKS }),
            Stage::Done => None,
            Stage::Probe => {
                let edges: [u16; 3] = [2, 2, 2];
                assert(edges@ == seq![2u16, 2, 2]);
                let m: u8 = mask(is_unseen(c[0]), is_unseen(c[1]), is_unseen(c[2]));
                Some(Request::Period { edges, mask: m })
            },
            Stage::Refine => {
                let t0 = c[0].refine_target();
                let t1 = c[1].refine_target();
                let t2 = c[2].refine_target();
                let edges: [u16; 3] = [edges_of(t0), edges_of(t1), edges_of(t2)];
                assert(edges@ == seq![t0.unwrap_or(0), t1.unwrap_or(0), t2.unwrap_or(0)]);
                let m: u8 = mask(t0.is_some(), t1.is_some(), t2.is_some());
                Some(Request::Period { edges, mask: m })
            },
        }
    }

    /// The state after a reply. A saturated channel ends the measurement with an
    /// error.
    pub fn answered(self, reply: Reply) -> (res: Result<Emissive, Error>)
        requires
            self.wf(),
            self.stage != Stage::Done,
            reply == Reply::PeriodFailed ==> self.stage == Stage::Probe || self.stage
                == Stage::Refine,
        ensures
            match res {
                Err(e) => e == Error::Saturated && after_reply(self, reply) is None,
                Ok(next) => next.wf() && after_reply(self, reply) == Some(next@),
            },
    {
        let n: [u32; 3] = match reply {
            Reply::PeriodFailed => {
                return Ok(Emissive { stage: Stage::Fallback, channels: self.channels });
            },
            Reply::Numbers(n) => n,
        };
        let c = self.channels;
        match self.stage {
            Stage::Survey => {
                let d = center_counts(&n);
                assert(d@[0] == centred(n@, 0) && d@[1] == centred(n@, 1) && d@[2] == centred(n@, 2));
                match (after_survey(d[0]), after_survey(d[1]), after_survey(d[2])) {
                    (Some(c0), Some(c1), Some(c2)) => if is_unseen(c0) || is_unseen(c1) || is_unseen(
                        c2,
                    ) {
                        let channels: [Channel; 3] = [c0, c1, c2];
                        assert(channels@ == seq![c0, c1, c2]);
                        Ok(Emissive { stage: Stage::Probe, channels })
                    } else {
                        Ok(settle(c0, c1, c2))
                    },
                    _ => Err(Error::Saturated),
                }
            },
            Stage::Probe => Ok(
                settle(after_probe(c[0], n[0]), after_probe(c[1], n[1]), after_probe(c[2], n[2])),
            ),
            Stage::Refine => {
                let channels: [Channel; 3] = [
                    after_refinement(c[0], n[0]),
                    after_refinement(c[1], n[1]),
                    after_refinement(c[2], n[2]),
                ];
                assert(channels@ == seq![
                    refined(c@[0], n@[0]),
                    refined(c@[1], n@[1]),
                    refined(c@[2], n@[2]),
                ]);
                Ok(Emissive { stage: Stage::Done, channels })
            },
            _ => {
                let d = center_counts(&n);
                assert(d@[0] == centred(n@, 0) && d@[1] == centred(n@, 1) && d@[2] == centred(n@, 2));
                let channels: [Channel; 3] = [
                    Channel::Settled(Frequency::Counted { half_counts: d[0], clocks: FALLBACK_CLOCKS }),
                    Channel::Settled(Frequency::Counted { half_counts: d[1], clocks: FALLBACK_CLOCKS }),
                    Channel::Settled(Frequency::Counted { half_counts: d[2], clocks: FALLBACK_CLOCKS }),
                ];
                assert(channels@ == seq![
                    counted(n@, 0),
                    counted(n@, 1),
                    counted(n@, 2),
                ]);
                Ok(Emissive { stage: Stage::Done, channels })
            },
        }
    }

    /// The three frequencies, once the measurement is done.
    pub fn frequencies(&self) -> (res: Option<[Frequency; 3]>)
        requires
            self.wf(),
        ensures
            self.stage != Stage::Done ==> res is None,
            self.stage == Stage::Done ==> (res matches Some(f) && forall|i: int|
                0 <= i < 3 ==> self.channels@[i] == Channel::Settled(#[trigger] f@[i])),
    {
        match self.stage {
            Stage::Done => match (self.channels[0], self.channels[1], self.channels[2]) {
                (Channel::Settled(a), Channel::Settled(b), Channel::Settled(c)) => Some([a, b, c]),
                _ => None,
            },
            _ => None,
        }
    }
}

/// A channel of the long count.
pub open spec fn counted(n: Seq<u32>, i: int) -> Channel {
    Channel::Settled(
        Frequency::Counted { half_counts: centred(n, i), clocks: FALLBACK_CLOCKS },
    )
}

/// The state after a reply; `None` if the survey found a saturated channel.
pub open spec fn after_reply(e: Emissive, reply: Reply) -> Option<(Stage, Seq<Channel>)> {
    let c = e.channels@;
    match reply {
        Reply::PeriodFailed => Some((Stage::Fallback, c)),
        Reply::Numbers(n) => match e.stage {
            Stage::Survey => match (
                surveyed(centred(n@, 0)),
                surveyed(centred(n@, 1)),
                surveyed(centred(n@, 2)),
            ) {
                (Some(c0), Some(c1), Some(c2)) => if c0 == Channel::Unseen || c1 == Channel::Unseen
                    || c2 == Channel::Unseen {
                    Some((Stage::Probe, seq![c0, c1, c2]))
                } else {
                    Some(settled(c0, c1, c2))
                },
                _ => None,
            },
            Stage::Probe => Some(
                settled(probed(c[0], n@[0]), probed(c[1], n@[1]), probed(c[2], n@[2])),
            ),
            Stage::Refine => Some(
                (
                    Stage::Done,
                    seq![refined(c[0], n@[0]), refined(c[1], n@[1]), refined(c[2], n@[2])],
                ),
            ),
            _ => Some((Stage::Done, seq![counted(n@, 0), counted(n@, 1), counted(n@, 2)])),
        },
    }
}

fn after_survey(half_counts: u64) -> (res: Option<Channel>)
    requires
        half_counts <= 0x2_0000_0000,
    ensures
        res == surveyed(half_counts),
        res matches Some(c) ==> c.wf(),
{
    match assess_survey(half_counts, SURVEY_CLOCKS) {
        Disposition::Done(f) => if f.is_saturated() {
            None
        } else {
            Some(Channel::Settled(f))
        },
        Disposition::Refine(est) => Some(Channel::Estimated { est, probed: None }),
        Disposition::Probe => Some(Channel::Unseen),
    }
}

fn after_probe(ch: Channel, clocks: u32) -> (res: Channel)
    requires
        ch.wf(),
    ensures
        res == probed(ch, clocks),
        res.wf(),
        res != Channel::Unseen,
{
    match ch {
        Channel::Unseen => match period_hz(2, clocks) {
            Some(est) => Channel::Estimated { est, probed: Some(2) },
            None => Channel::Settled(Frequency::Dark),
        },
        _ => ch,
    }
}

fn after_refinement(ch: Channel, clocks: u32) -> (res: Channel)
    requires
        ch.wf(),
        ch != Channel::Unseen,
        ch is Estimated ==> ch.target() is Some,
    ensures
        res == refined(ch, clocks),
        res.wf(),
        res is Settled,
{
    match ch {
        Channel::Estimated { est, .. } => {
            let e: u16 = edges_of(ch.refine_target());
            match period_hz(e, clocks) {
                Some(f) => Channel::Settled(f),
                None => Channel::Settled(est),
            }
        },
        _ => ch,
    }
}

fn keep(ch: Channel) -> (res: Channel)
    requires
        ch.wf(),
    ensures
        res == kept(ch),
        res.wf(),
{
    match ch {
        Channel::Estimated { est, .. } => match ch.refine_target() {
            None => Channel::Settled(est),
            Some(_) => ch,
        },
        _ => ch,
    }
}

fn settle(c0: Channel, c1: Channel, c2: Channel) -> (res: Emissive)
    requires
        c0.wf() && c1.wf() && c2.wf(),
        c0 != Channel::Unseen && c1 != Channel::Unseen && c2 != Channel::Unseen,
    ensures
        res@ == settled(c0, c1, c2),
        res.wf(),
{
    let done: bool = c0.refine_target().is_none() && c1.refine_target().is_none()
        && c2.refine_target().is_none();
    let channels: [Channel; 3] = [keep(c0), keep(c1), keep(c2)];
    assert(channels@ == seq![kept(c0), kept(c1), kept(c2)]);
    Emissive {
        stage: if done {
            Stage::Done
        } else {
            Stage::Refine
        },
        channels,
    }
}

/// How many commands a measurement may still take.
pub open spec fn commands_left(stage: Stage) -> nat {
    match stage {
        Stage::Survey => 4,
        Stage::Probe => 3,
        Stage::Refine => 2,
        Stage::Fallback => 1,
        Stage::Done => 0,
    }
}

/// Every reply brings a measurement nearer to its end: it takes at most three
/// commands and a fallback.
pub proof fn measurement_ends(e: Emissive, reply: Reply)
    requires
        e.wf(),
        e.stage != Stage::Done,
        reply == Reply::PeriodFailed ==> e.stage == Stage::Probe || e.stage == Stage::Refine,
    ensures
        after_reply(e, reply) matches Some((stage, _)) ==> commands_left(stage) < commands_left(
            e.stage,
        ),
{
}

/// A channel that is settled keeps its frequency whatever the later commands
/// bring, unless a period measurement fails and everything is measured anew.
pub proof fn settled_channels_stay(e: Emissive, reply: Reply, i: int)
    requires
        e.wf(),
        e.stage == Stage::Probe || e.stage == Stage::Refine,
        0 <= i < 3,
        e.channels@[i] is Settled,
    ensures
        after_reply(e, reply) matches Some((_, c)) && c[i] == e.channels@[i],
{
}

/// A channel is only asked for again while it is not settled.
pub proof fn only_open_channels_are_measured(e: Emissive, i: int)
    requires
        e.wf(),
        0 <= i < 3,
    ensures
        e.stage == Stage::Refine ==> (e.channels@[i].target() is Some <==> !(e.channels@[i] is Settled)),
        e.stage == Stage::Done ==> e.channels@[i] is Settled,
{
}

// ---------------------------------------------------------------------------
// What the replies decide
// ---------------------------------------------------------------------------

/// The frequency that a channel has so far, settled or estimated.
pub open spec fn frequency_of(ch: Channel) -> Option<Frequency> {
    match ch {
        Channel::Settled(f) => Some(f),
        Channel::Estimated { est, .. } => Some(est),
        Channel::Unseen => None,
    }
}

/// A probe decides each unseen channel by that channel's number: without edges it
/// is dark, and otherwise its frequency is two edges over that many clocks. A
/// channel that was seen keeps its frequency.
pub proof fn probes_decide_their_own_channels(e: Emissive, n: [u32; 3], next: Emissive, i: int)
    requires
        e.wf(),
        e.stage == Stage::Probe,
        call_ensures(Emissive::answered, (e, Reply::Numbers(n)), Ok::<Emissive, Error>(next)),
        0 <= i < 3,
    ensures
        e.channels@[i] == Channel::Unseen ==> {
            &&& next.channels@[i] == Channel::Settled(Frequency::Dark) <==> n@[i] == 0
            &&& n@[i] > 0 ==> frequency_of(next.channels@[i]) == Some(
                Frequency::Timed { edges: 2, clocks: n@[i] },
            )
        },
        e.channels@[i] != Channel::Unseen ==> frequency_of(next.channels@[i]) == frequency_of(
            e.channels@[i],
        ),
        next.channels@[i] != Channel::Unseen,
{
}

/// Two probes or refinements that saw the same on a channel leave it the same,
/// whatever they saw on the others.
pub proof fn channels_are_decided_apart(
    e: Emissive,
    m: [u32; 3],
    n: [u32; 3],
    after_m: Emissive,
    after_n: Emissive,
    i: int,
)
    requires
        e.wf(),
        e.stage == Stage::Probe || e.stage == Stage::Refine,
        call_ensures(Emissive::answered, (e, Reply::Numbers(m)), Ok::<Emissive, Error>(after_m)),
        call_ensures(Emissive::answered, (e, Reply::Numbers(n)), Ok::<Emissive, Error>(after_n)),
        0 <= i < 3,
        m@[i] == n@[i],
    ensures
        after_m.channels@[i] == after_n.channels@[i],
{
}

/// A refinement decides each channel that it asked for by that channel's number:
/// the edges that were asked for over that many clocks, or the estimate where no
/// edges came. The measurement is then done.
pub proof fn refinements_decide_their_own_channels(
    e: Emissive,
    edges: [u16; 3],
    mask: u8,
    n: [u32; 3],
    next: Emissive,
    i: int,
)
    requires
        e.wf(),
        e.stage == Stage::Refine,
        call_ensures(Emissive::next, (&e,), Some(Request::Period { edges, mask })),
        call_ensures(Emissive::answered, (e, Reply::Numbers(n)), Ok::<Emissive, Error>(next)),
        0 <= i < 3,
    ensures
        next.stage == Stage::Done,
        e.channels@[i] matches Channel::Estimated { est, .. } ==> {
            &&& n@[i] == 0 ==> next.channels@[i] == Channel::Settled(est)
            &&& n@[i] > 0 ==> next.channels@[i] == Channel::Settled(
                Frequency::Timed { edges: edges@[i], clocks: n@[i] },
            )
        },
        e.channels@[i] is Settled ==> next.channels@[i] == e.channels@[i],
{
}

/// A survey decides each channel by its own count, taken as half a count more than
/// it says unless a channel counted nothing. Under 4 counts the channel is unseen;
/// from 400 on the count is kept; and more than 125000 in the quarter of a second
/// saturate the sensor, which ends the measurement.
pub proof fn surveys_decide_their_own_channels(
    e: Emissive,
    n: [u32; 3],
    res: Result<Emissive, Error>,
    i: int,
)
    requires
        e.wf(),
        e.stage == Stage::Survey,
        call_ensures(Emissive::answered, (e, Reply::Numbers(n)), res),
        0 <= i < 3,
    ensures
        ({
            let half = if n@[0] > 0 && n@[1] > 0 && n@[2] > 0 {
                1int
            } else {
                0
            };
            let h = 2 * n@[i] + half;
            &&& res is Err <==> 2 * n@[0] + half > 250_000 || 2 * n@[1] + half > 250_000 || 2
                * n@[2] + half > 250_000
            &&& res matches Ok(next) ==> {
                &&& next.channels@[i] == Channel::Unseen <==> h < 8
                &&& h >= 8 ==> frequency_of(next.channels@[i]) == Some(
                    Frequency::Counted { half_counts: h as u64, clocks: 3_000_000 },
                )
                &&& h >= 800 ==> next.channels@[i] is Settled
                &&& 8 <= h < 800 && next.channels@[i] is Settled ==> next.stage != Stage::Probe
            }
        }),
{
    assert(forall|h: int| #[trigger]
        (h * 3_000_000) > 250_000 * 3_000_000 <==> h > 250_000) by (nonlinear_arith);
}

/// A measurement is done as soon as every channel is settled, probes while a
/// channel is unseen, and otherwise refines.
pub proof fn stages_follow_the_channels(e: Emissive, n: [u32; 3], next: Emissive)
    requires
        e.wf(),
        e.stage != Stage::Done,
        call_ensures(Emissive::answered, (e, Reply::Numbers(n)), Ok::<Emissive, Error>(next)),
    ensures
        ({
            let c = next.channels@;
            &&& next.stage == Stage::Done <==> c[0] is Settled && c[1] is Settled && c[2] is Settled
            &&& next.stage == Stage::Probe <==> c[0] == Channel::Unseen || c[1] == Channel::Unseen
                || c[2] == Channel::Unseen
            &&& next.stage == Stage::Refine <==> next.stage != Stage::Done && next.stage
                != Stage::Probe
        }),
{
}

/// A period measurement that failed is made good by one long count, which decides
/// every channel anew, each by its own count over eight seconds.
pub proof fn failures_are_made_good_by_counting(
    e: Emissive,
    fallback: Emissive,
    n: [u32; 3],
    next: Emissive,
    i: int,
)
    requires
        e.wf(),
        e.stage == Stage::Probe || e.stage == Stage::Refine,
        call_ensures(Emissive::answered, (e, Reply::PeriodFailed), Ok::<Emissive, Error>(fallback)),
        call_ensures(
            Emissive::answered,
            (fallback, Reply::Numbers(n)),
            Ok::<Emissive, Error>(next),
        ),
        0 <= i < 3,
    ensures
        fallback.stage == Stage::Fallback,
        next.stage == Stage::Done,
        next.channels@[i] matches Channel::Settled(Frequency::Counted { half_counts, clocks }) && {
            &&& clocks == 96_000_000
            &&& half_counts == 2 * n@[i] + if n@[0] > 0 && n@[1] > 0 && n@[2] > 0 {
                1int
            } else {
                0
            }
        },
{
}

/// Whether bit `i` of a mask of three is set.
pub open spec fn asks_for(mask: u8, i: int) -> bool {
    if i == 0 {
        mask % 2 == 1
    } else if i == 1 {
        (mask / 2) % 2 == 1
    } else {
        (mask / 4) % 2 == 1
    }
}

/// What is asked for: a survey of a quarter of a second, then two edges of exactly
/// the channels that are unseen, then a refinement of exactly those that are not
/// settled; or, after a failure, a count of eight seconds. Nothing is asked for once
/// the measurement is done. A second has twelve million clocks.
pub proof fn requests_ask_for_what_is_open(e: Emissive, req: Option<Request>, i: int)
    requires
        e.wf(),
        call_ensures(Emissive::next, (&e,), req),
        0 <= i < 3,
    ensures
        e.stage == Stage::Survey ==> req == Some(Request::Frequency { clocks: 3_000_000 }),
        e.stage == Stage::Fallback ==> req == Some(Request::Frequency { clocks: 96_000_000 }),
        e.stage == Stage::Done <==> req is None,
        e.stage == Stage::Probe ==> (req matches Some(Request::Period { edges, mask }) && mask < 8
            && (asks_for(mask, i) <==> e.channels@[i] == Channel::Unseen) && edges@[i] == 2),
        e.stage == Stage::Refine ==> (req matches Some(Request::Period { edges, mask }) && mask < 8
            && (asks_for(mask, i) <==> e.channels@[i] is Estimated) && (asks_for(mask, i) <==>
        edges@[i] > 0)),
{
    assert(forall|i: int| 0 <= i < 3 ==> #[trigger] e.channels@[i].wf());
    if e.channels@[i] is Estimated {
        let f = e.channels@[i]->est;
        refinement_is_even_and_bounded(f.hz().0, f.hz().1);
    }
}

/// A refinement is sized to take about a second of the estimated frequency: the
/// whole cycles that go into it, two edges each.
pub proof fn refinements_take_about_a_second(
    e: Emissive,
    edges: [u16; 3],
    mask: u8,
    i: int,
    num: int,
    den: int,
)
    requires
        e.wf(),
        e.stage == Stage::Refine,
        call_ensures(Emissive::next, (&e,), Some(Request::Period { edges, mask })),
        0 <= i < 3,
        e.channels@[i] is Estimated,
        frequency_of(e.channels@[i])->0.hz() == (num, den),
    ensures
        num >= den && num < 32768 * den ==> edges@[i] * den <= 2 * num < (edges@[i] + 2) * den,
        num < den ==> edges@[i] == 2,
        num >= 32768 * den ==> edges@[i] == 65534,
{
    let ch = e.channels@[i];
    assert(ch.wf());
    assert(edges@[i] == ch.target()->0);
    refinement_takes_a_second(num, den);
}

// ---------------------------------------------------------------------------
// The reading
// ---------------------------------------------------------------------------

/// A frequency above the black level; zero for anything that is not above zero.
pub open spec fn clamped(v: Double) -> Double {
    if (Double { bits: 0 }).less(v) {
        v
    } else {
        Double { bits: 0 }
    }
}

/// 250 kHz.
pub open spec fn saturation() -> Double {
    Double { bits: SAT_FREQ_BITS }
}

/// Whether one of three frequencies is above the saturation frequency.
pub open spec fn any_saturated(v: Seq<Double>) -> bool {
    saturation().less(v[0]) || saturation().less(v[1]) || saturation().less(v[2])
}

fn clamp(v: Double) -> (res: Double)
    ensures
        res == clamped(v),
{
    let zero = Double { bits: 0 };
    if zero.is_less(&v) {
        v
    } else {
        zero
    }
}

/// Clamps the frequencies that are left after the black levels have been taken
/// off, and checks them for saturation.
pub fn finish_rgb(above_black: &[Double; 3]) -> (res: Result<[Double; 3], Error>)
    ensures
        match res {
            Ok(rgb) => !any_saturated(above_black@) && rgb@ == above_black@.map_values(
                |v: Double| clamped(v),
            ),
            Err(e) => e == Error::Saturated && any_saturated(above_black@),
        },
{
    let sat = Double { bits: SAT_FREQ_BITS };
    if sat.is_less(&above_black[0]) || sat.is_less(&above_black[1]) || sat.is_less(&above_black[2]) {
        return Err(Error::Saturated);
    }
    let rgb: [Double; 3] = [clamp(above_black[0]), clamp(above_black[1]), clamp(above_black[2])];
    assert(rgb@ == above_black@.map_values(|v: Double| clamped(v)));
    Ok(rgb)
}

/// A reading is what is left above black, channel by channel, and never below zero;
/// a channel above 250 kHz is an error.
pub proof fn readings_are_what_is_above_black(
    v: [Double; 3],
    res: Result<[Double; 3], Error>,
    i: int,
)
    requires
        call_ensures(finish_rgb, (&v,), res),
        0 <= i < 3,
    ensures
        ({
            let sat = Double { bits: 0x410E_8480_0000_0000 };
            let zero = Double { bits: 0 };
            &&& res is Err <==> sat.less(v@[0]) || sat.less(v@[1]) || sat.less(v@[2])
            &&& res matches Err(e) ==> e == Error::Saturated
            &&& res matches Ok(rgb) ==> {
                &&& zero.less(v@[i]) ==> rgb@[i] == v@[i]
                &&& !zero.less(v@[i]) ==> rgb@[i] == zero
            }
        }),
{
}

} // verus!
