//! The coarse gamut probe: a fixed set of points on the surface of the
//! code-value cube.
use vstd::prelude::*;

use crate::capture::Negotiation;
use crate::driver::confidence::TrustFlag;
use crate::gather::gamut::GridPoint;
use crate::number::{Double, Triple};

verus! {

/// A point of the coarse probe, on a grid with two units to a full-scale
/// channel.
#[derive(Clone, Copy, Debug)]
pub struct ProbePoint {
    pub label: &'static str,
    pub code_value: GridPoint,
}

/// The number of points: eight corners and six face centres.
pub const NUM_POINTS: usize = 14;

/// Full scale on the grid of the coarse probe.
pub const FULL: u64 = 2;

/// The code value of a point.
pub open spec fn point_code(i: int) -> GridPoint {
    match i as usize {
        0 => GridPoint { r: 0, g: 0, b: 0 },
        1 => GridPoint { r: 2, g: 0, b: 0 },
        2 => GridPoint { r: 0, g: 2, b: 0 },
        3 => GridPoint { r: 0, g: 0, b: 2 },
        4 => GridPoint { r: 2, g: 2, b: 0 },
        5 => GridPoint { r: 0, g: 2, b: 2 },
        6 => GridPoint { r: 2, g: 0, b: 2 },
        7 => GridPoint { r: 2, g: 2, b: 2 },
        8 => GridPoint { r: 0, g: 1, b: 1 },
        9 => GridPoint { r: 2, g: 1, b: 1 },
        10 => GridPoint { r: 1, g: 0, b: 1 },
        11 => GridPoint { r: 1, g: 2, b: 1 },
        12 => GridPoint { r: 1, g: 1, b: 0 },
        _ => GridPoint { r: 1, g: 1, b: 2 },
    }
}

/// The label of a point.
pub open spec fn point_label(i: int) -> Seq<char> {
    match i as usize {
        0 => "black"@,
        1 => "red"@,
        2 => "green"@,
        3 => "blue"@,
        4 => "yellow"@,
        5 => "cyan"@,
        6 => "magenta"@,
        7 => "white"@,
        8 => "R=0"@,
        9 => "R=1"@,
        10 => "G=0"@,
        11 => "G=1"@,
        12 => "B=0"@,
        _ => "B=1"@,
    }
}

fn at(label: &'static str, r: u64, g: u64, b: u64) -> (res: ProbePoint)
    ensures
        res.label@ == label@,
        res.code_value == (GridPoint { r, g, b }),
{
    ProbePoint { label, code_value: GridPoint { r, g, b } }
}

/// A point of the coarse probe.
pub fn probe_point(i: usize) -> (res: ProbePoint)
    requires
        i < NUM_POINTS,
    ensures
        res.code_value == point_code(i as int),
        res.label@ == point_label(i as int),
{
    match i {
        0 => at("black", 0, 0, 0),
        1 => at("red", 2, 0, 0),
        2 => at("green", 0, 2, 0),
        3 => at("blue", 0, 0, 2),
        4 => at("yellow", 2, 2, 0),
        5 => at("cyan", 0, 2, 2),
        6 => at("magenta", 2, 0, 2),
        7 => at("white", 2, 2, 2),
        8 => at("R=0", 0, 1, 1),
        9 => at("R=1", 2, 1, 1),
        10 => at("G=0", 1, 0, 1),
        11 => at("G=1", 1, 2, 1),
        12 => at("B=0", 1, 1, 0),
        _ => at("B=1", 1, 1, 2),
    }
}

/// A corner of the cube.
pub open spec fn is_corner(p: GridPoint) -> bool {
    (p.r == 0 || p.r == FULL) && (p.g == 0 || p.g == FULL) && (p.b == 0 || p.b == FULL)
}

/// The centre of a face of the cube.
pub open spec fn is_face_center(p: GridPoint) -> bool {
    ||| (p.r == 0 || p.r == FULL) && p.g == 1 && p.b == 1
    ||| (p.g == 0 || p.g == FULL) && p.r == 1 && p.b == 1
    ||| (p.b == 0 || p.b == FULL) && p.r == 1 && p.g == 1
}

/// The probe points are the corners and the face centres of the cube, each of
/// them once.
pub proof fn points_are_corners_and_centers(p: GridPoint)
    ensures
        is_corner(p) || is_face_center(p) <==> exists|i: int|
            0 <= i < NUM_POINTS && #[trigger] point_code(i) == p,
        forall|i: int, j: int|
            0 <= i < NUM_POINTS && 0 <= j < NUM_POINTS && #[trigger] point_code(i)
                == #[trigger] point_code(j) ==> i == j,
{
    let codes = seq![
        point_code(0),
        point_code(1),
        point_code(2),
        point_code(3),
        point_code(4),
        point_code(5),
        point_code(6),
        point_code(7),
        point_code(8),
        point_code(9),
        point_code(10),
        point_code(11),
        point_code(12),
        point_code(13),
    ];
    if is_corner(p) || is_face_center(p) {
        assert(codes.len() == NUM_POINTS);
    }
}

/// A point that was measured.
#[derive(Clone, Copy, Debug)]
pub struct GamutVertex {
    pub label: &'static str,
    pub code_value: GridPoint,
    /// Mean colour of the repeats.
    pub measured: Triple,
}

/// Progress of a gamut probe.
#[allow(inconsistent_fields)]
#[derive(Debug)]
pub enum GamutEvent {
    /// The colorimeter is ready.
    DeviceReady { product: String, serial: String, hw_version: (u32, u32) },
    /// The compositor's answer to the format's description.
    Negotiation(Negotiation),
    /// Seconds left to place the instrument.
    Countdown { remaining: u64 },
    /// A point of the coarse probe was measured.
    Point {
        index: usize,
        total: usize,
        label: &'static str,
        code_value: GridPoint,
        measured: Triple,
        flags: Vec<TrustFlag>,
    },
    /// A point of a refinement was measured.
    Measured { index: usize, code_value: GridPoint, measured: Triple, flags: Vec<TrustFlag> },
}

/// The coarse probe under way, and in the end its result.
#[derive(Debug)]
pub struct GamutProbe {
    pub vertices: Vec<GamutVertex>,
    /// The probe was cut short.
    pub stopped: bool,
}

/// No light.
pub open spec fn black() -> Triple {
    Triple { a: Double { bits: 0 }, b: Double { bits: 0 }, c: Double { bits: 0 } }
}

impl GamutProbe {
    /// The points are measured in order.
    pub open spec fn wf(self) -> bool {
        &&& self.vertices@.len() <= NUM_POINTS
        &&& forall|i: int|
            0 <= i < self.vertices@.len() ==> {
                &&& (#[trigger] self.vertices@[i]).code_value == point_code(i)
                &&& self.vertices@[i].label@ == point_label(i)
            }
    }

    pub fn start() -> (res: GamutProbe)
        ensures
            res.wf(),
            res.vertices@.len() == 0,
            !res.stopped,
    {
        GamutProbe { vertices: Vec::new(), stopped: false }
    }

    /// The point to measure next; `None` at the end, or where the probe was cut
    /// short.
    pub fn next(&self) -> (res: Option<ProbePoint>)
        requires
            self.wf(),
        ensures
            self.stopped || self.vertices@.len() == NUM_POINTS ==> res is None,
            !self.stopped && self.vertices@.len() < NUM_POINTS ==> (res matches Some(p)
                && p.code_value == point_code(self.vertices@.len() as int) && p.label@
                == point_label(self.vertices@.len() as int)),
    {
        if self.stopped || self.vertices.len() >= NUM_POINTS {
            None
        } else {
            Some(probe_point(self.vertices.len()))
        }
    }

    /// Cuts the probe short.
    pub fn stop(&mut self)
        ensures
            final(self).vertices == old(self).vertices,
            final(self).stopped,
    {
        self.stopped = true;
    }

    /// Takes note of the colour of the point that was asked for.
    pub fn measured(&mut self, measured: Triple, flags: Vec<TrustFlag>) -> (res: GamutEvent)
        requires
            old(self).wf(),
            old(self).vertices@.len() < NUM_POINTS,
        ensures
            final(self).wf(),
            final(self).stopped == old(self).stopped,
            final(self).vertices@.len() == old(self).vertices@.len() + 1,
            final(self).vertices@.drop_last() == old(self).vertices@,
            final(self).vertices@.last().measured == measured,
            ({
                let i = old(self).vertices@.len() as int;
                res matches GamutEvent::Point {
                    index,
                    total,
                    label,
                    code_value,
                    measured: m,
                    flags: f,
                } && index == i && total == NUM_POINTS && label@ == point_label(i) && code_value
                    == point_code(i) && m == measured && f == flags
            }),
    {
        let index: usize = self.vertices.len();
        let p = probe_point(index);
        self.vertices.push(GamutVertex { label: p.label, code_value: p.code_value, measured });
        assert(self.vertices@.drop_last() == old(self).vertices@);
        GamutEvent::Point {
            index,
            total: NUM_POINTS,
            label: p.label,
            code_value: p.code_value,
            measured,
            flags,
        }
    }

    /// The measured white; black where the probe did not get to it.
    pub fn white(&self) -> (res: Triple)
        requires
            self.wf(),
        ensures
            res == if self.vertices@.len() > 7 {
                self.vertices@[7].measured
            } else {
                black()
            },
    {
        let mut i: usize = 0;
        while i < self.vertices.len()
            invariant
                i <= self.vertices@.len(),
                self.wf(),
                i <= 7,
            decreases self.vertices@.len() - i,
        {
            let v = self.vertices[i];
            assert(self.vertices@[i as int].code_value == point_code(i as int));
            if v.code_value.r == FULL && v.code_value.g == FULL && v.code_value.b == FULL {
                assert(i == 7);
                return v.measured;
            }
            i += 1;
        }
        Triple { a: Double { bits: 0 }, b: Double { bits: 0 }, c: Double { bits: 0 } }
    }
}

/// The first second that a countdown reports, if it has any.
pub fn first_second(prep_ms: u64) -> (res: Option<u64>)
    ensures
        res == if prep_ms / 1000 == 0 {
            None
        } else {
            Some(prep_ms / 1000)
        },
{
    if prep_ms / 1000 == 0 {
        None
    } else {
        Some(prep_ms / 1000)
    }
}

/// The second that a countdown reports after another; none after the last one,
/// or where it was cut short.
pub fn next_second(remaining: u64, cancelled: bool) -> (res: Option<u64>)
    ensures
        res == if cancelled || remaining <= 1 {
            None
        } else {
            Some((remaining - 1) as u64)
        },
{
    if cancelled || remaining <= 1 {
        None
    } else {
        Some(remaining - 1)
    }
}

/// Every point has the label of its colour: the corners are named for the channels
/// that are full, the face centres for the channel that they hold at an end.
pub proof fn labels_name_their_colours(i: usize, p: ProbePoint)
    requires
        i < NUM_POINTS,
        call_ensures(probe_point, (i,), p),
    ensures
        ({
            let (r, g, b) = (p.code_value.r, p.code_value.g, p.code_value.b);
            &&& r <= FULL && g <= FULL && b <= FULL
            &&& r == 0 && g == 0 && b == 0 ==> p.label@ == "black"@
            &&& r == FULL && g == 0 && b == 0 ==> p.label@ == "red"@
            &&& r == 0 && g == FULL && b == 0 ==> p.label@ == "green"@
            &&& r == 0 && g == 0 && b == FULL ==> p.label@ == "blue"@
            &&& r == FULL && g == FULL && b == 0 ==> p.label@ == "yellow"@
            &&& r == 0 && g == FULL && b == FULL ==> p.label@ == "cyan"@
            &&& r == FULL && g == 0 && b == FULL ==> p.label@ == "magenta"@
            &&& r == FULL && g == FULL && b == FULL ==> p.label@ == "white"@
            &&& r == 0 && g == 1 ==> b == 1 && p.label@ == "R=0"@
            &&& r == FULL && g == 1 ==> b == 1 && p.label@ == "R=1"@
            &&& g == 0 && b == 1 ==> r == 1 && p.label@ == "G=0"@
            &&& g == FULL && b == 1 ==> r == 1 && p.label@ == "G=1"@
            &&& b == 0 && r == 1 ==> g == 1 && p.label@ == "B=0"@
            &&& b == FULL && r == 1 ==> g == 1 && p.label@ == "B=1"@
            &&& i < 8 <==> is_corner(p.code_value)
        }),
{
}

/// The white of a probe is what was measured where all channels were full, and black
/// before that was measured.
pub proof fn white_is_where_all_is_full(probe: GamutProbe, i: int, w: Triple)
    requires
        probe.wf(),
        call_ensures(GamutProbe::white, (&probe,), w),
    ensures
        0 <= i < probe.vertices@.len() && probe.vertices@[i].code_value == (GridPoint {
            r: FULL,
            g: FULL,
            b: FULL,
        }) ==> w == probe.vertices@[i].measured,
        (forall|j: int|
            0 <= j < probe.vertices@.len() ==> (#[trigger] probe.vertices@[j]).code_value
                != (GridPoint { r: FULL, g: FULL, b: FULL })) ==> w == black(),
{
    if 0 <= i < probe.vertices@.len() {
        assert(probe.vertices@[i].code_value == point_code(i));
    }
    if probe.vertices@.len() > 7 {
        assert(probe.vertices@[7].code_value == point_code(7));
    }
}

/// A countdown goes from the whole seconds of the preparation to one, a second at a
/// time, unless it is cut short.
pub proof fn countdowns_go_down_to_one(
    prep_ms: u64,
    remaining: u64,
    cancelled: bool,
    first: Option<u64>,
    next: Option<u64>,
)
    requires
        call_ensures(first_second, (prep_ms,), first),
        call_ensures(next_second, (remaining, cancelled), next),
    ensures
        first matches Some(n) ==> n >= 1 && n * 1000 <= prep_ms < n * 1000 + 1000,
        first is None ==> prep_ms < 1000,
        next matches Some(n) ==> n >= 1 && n + 1 == remaining && !cancelled,
        next is None ==> cancelled || remaining <= 1,
{
}

} // verus!
