//! Adaptive refinement of the code-value cube's surface.
//!
//! The measured gamut is the image of the code-value cube under the display
//! pipeline, and its boundary is the image of the cube's surface. The surface
//! is probed face by face: a square of a face is measured at its corners, and
//! is split in four as long as its measured image is curved.
//!
//! [`Refinement`] holds the decisions. It asks for one thing at a time, a
//! measurement or a judgement on measured colours ([`Step`]), and is told the
//! answer. Code values are kept on a grid whose unit is the side of the
//! smallest square that can be reached, so that they are exact.
use vstd::arithmetic::power::{lemma_pow_positive, pow};
use vstd::arithmetic::power2::{lemma2_to64, lemma_pow2_pos, lemma_pow2_strictly_increases, lemma_pow2_unfold, pow2};
use vstd::prelude::*;

use crate::capture;
use crate::number::{power_of_two, CodeValue, Double, Fraction, Triple};
use crate::text::{decimal, decimal_text, joined};

verus! {

/// The deepest subdivision on which double-precision bisection is exact.
pub const DEPTH_LIMIT: u32 = 52;

/// Limits of a refinement.
#[derive(Clone, Copy, Debug, PartialEq, Eq, Structural)]
pub struct RefineParams {
    /// Maximum subdivision depth per face.
    pub max_depth: u32,
    /// A collapsed square counts as a fold, and not as ordinary convergence, on
    /// this many levels of subdivision, counted from the whole face.
    pub fold_levels: u32,
}

impl Default for RefineParams {
    fn default() -> (res: Self)
        ensures
            res == (RefineParams { max_depth: 3, fold_levels: 3 }),
    {
        RefineParams { max_depth: 3, fold_levels: 3 }
    }
}

/// A code value on the refinement grid: each channel counts grid units, and
/// full scale is the grid's size.
#[derive(Clone, Copy, Debug, PartialEq, Eq, Structural)]
pub struct GridPoint {
    pub r: u64,
    pub g: u64,
    pub b: u64,
}

/// Why a leaf patch stopped subdividing.
#[derive(Clone, Copy, Debug, PartialEq, Eq, Structural)]
pub enum PatchStatus {
    /// Planar enough.
    Flat,
    /// Corners collapsed in measured space over a non-trivial code-value area:
    /// the pipeline clamped this region onto the gamut boundary.
    Folded,
    /// Hit the depth cap while still curved.
    MaxDepth,
    /// A corner was untrustworthy; stopped rather than chase noise.
    LowTrust,
}

impl PatchStatus {
    /// The name a capture file gives the status.
    pub open spec fn name(self) -> Seq<char> {
        match self {
            PatchStatus::Flat => "flat"@,
            PatchStatus::Folded => "folded"@,
            PatchStatus::MaxDepth => "max_depth"@,
            PatchStatus::LowTrust => "low_trust"@,
        }
    }

    /// Stable string for the capture schema.
    pub fn as_str(&self) -> (res: &'static str)
        ensures
            res@ == self.name(),
    {
        match self {
            PatchStatus::Flat => "flat",
            PatchStatus::Folded => "folded",
            PatchStatus::MaxDepth => "max_depth",
            PatchStatus::LowTrust => "low_trust",
        }
    }
}

/// A measured boundary point: the code value asked for, and whether the reading
/// can be trusted.
#[derive(Clone, Copy, Debug, PartialEq, Eq, Structural)]
pub struct MeshVertex {
    pub code_value: GridPoint,
    pub trustworthy: bool,
}

/// The corners of a square as vertex numbers, in cyclic order.
#[derive(Clone, Copy, Debug, PartialEq, Eq, Structural)]
pub struct Corners {
    pub a: usize,
    pub b: usize,
    pub c: usize,
    pub d: usize,
}

/// A leaf patch of a refined face: its corners and why it stopped.
#[derive(Clone, Copy, Debug, PartialEq, Eq, Structural)]
pub struct Patch {
    /// The channel that is fixed on the face: 0 red, 1 green, 2 blue.
    pub axis: usize,
    /// The value of that channel, 0 or 1.
    pub value: u8,
    pub corners: Corners,
    pub status: PatchStatus,
}

/// A square of a face: the lower corner and the side, in grid units.
#[derive(Clone, Copy, Debug, PartialEq, Eq, Structural)]
pub struct Square {
    pub axis: usize,
    pub value: u8,
    pub s: u64,
    pub t: u64,
    pub side: u64,
    pub depth: u32,
}

/// What the refinement is waiting for.
#[derive(Clone, Copy, Debug, PartialEq, Eq, Structural)]
pub enum Stage {
    /// The measurement of white.
    White,
    /// The measurement of the corner numbered `done`; the first `done` entries
    /// of `found` are known.
    Corner { square: Square, done: u8, found: Corners },
    /// Whether the corners collapsed in measured space.
    Collapse { square: Square, corners: Corners },
    /// The measurement of the centre.
    Center { square: Square, corners: Corners },
    /// Whether the centre is close to the mean of the corners.
    Flat { square: Square, corners: Corners, center: usize },
    /// Nothing: the refinement is complete.
    Done,
}

/// What the refinement asks for next.
#[derive(Clone, Copy, Debug, PartialEq, Eq, Structural)]
pub enum Step {
    /// Measure this code value.
    Measure { code_value: GridPoint },
    /// Tell whether the measured colours of these corners have collapsed.
    JudgeCollapse { corners: Corners },
    /// Tell whether the measured colour of the centre is planar with its corners.
    JudgeFlat { corners: Corners, center: usize },
    Done,
}

// ---------------------------------------------------------------------------
// Geometry
// ---------------------------------------------------------------------------

/// The size of the grid: the number of units in a full-scale channel.
pub open spec fn grid_size(max_depth: u32) -> nat {
    pow2(max_depth as nat)
}

/// A point of the grid as fractions of full scale.
pub open spec fn grid_code(p: GridPoint, max_depth: u32) -> CodeValue {
    let den = grid_size(max_depth) as u64;
    CodeValue {
        r: Fraction { num: p.r, den },
        g: Fraction { num: p.g, den },
        b: Fraction { num: p.b, den },
    }
}

/// The points of a grid are fractions.
pub proof fn lemma_grid_code(p: GridPoint, max_depth: u32)
    requires
        max_depth <= DEPTH_LIMIT,
    ensures
        grid_code(p, max_depth).wf(),
{
    lemma_grid_size(max_depth);
}

/// The fractions of full scale that a point of the grid stands for.
pub fn code_of(p: GridPoint, max_depth: u32) -> (res: CodeValue)
    requires
        max_depth <= DEPTH_LIMIT,
    ensures
        res == grid_code(p, max_depth),
        res.wf(),
{
    proof {
        lemma_grid_code(p, max_depth);
    }
    let den: u64 = power_of_two(max_depth);
    CodeValue {
        r: Fraction { num: p.r, den },
        g: Fraction { num: p.g, den },
        b: Fraction { num: p.b, den },
    }
}

/// The point of a face at face coordinates `(s, t)`: the fixed channel is held,
/// the other two take `s` and `t` in channel order.
pub open spec fn face_point(size: nat, axis: usize, value: u8, s: nat, t: nat) -> GridPoint {
    let v = (value as nat * size) as u64;
    if axis == 0 {
        GridPoint { r: v, g: s as u64, b: t as u64 }
    } else if axis == 1 {
        GridPoint { r: s as u64, g: v, b: t as u64 }
    } else {
        GridPoint { r: s as u64, g: t as u64, b: v }
    }
}

/// The first face coordinate of a point.
pub open spec fn coord_s(axis: usize, p: GridPoint) -> nat {
    if axis == 0 {
        p.g as nat
    } else {
        p.r as nat
    }
}

/// The second face coordinate of a point.
pub open spec fn coord_t(axis: usize, p: GridPoint) -> nat {
    if axis == 2 {
        p.g as nat
    } else {
        p.b as nat
    }
}

impl Square {
    /// A square of the size its depth says, inside its face.
    pub open spec fn wf(self, max_depth: u32) -> bool {
        &&& self.axis < 3
        &&& self.value <= 1
        &&& self.depth <= max_depth
        &&& self.side == pow2((max_depth - self.depth) as nat)
        &&& self.s + self.side <= grid_size(max_depth)
        &&& self.t + self.side <= grid_size(max_depth)
    }

    /// The code value at corner `k`, in cyclic order from the lower one.
    pub open spec fn corner(self, max_depth: u32, k: int) -> GridPoint {
        let s = if k <= 1 {
            self.s as nat
        } else {
            (self.s + self.side) as nat
        };
        let t = if k == 0 || k == 3 {
            self.t as nat
        } else {
            (self.t + self.side) as nat
        };
        face_point(grid_size(max_depth), self.axis, self.value, s, t)
    }

    /// The code value at the centre.
    pub open spec fn center(self, max_depth: u32) -> GridPoint {
        face_point(
            grid_size(max_depth),
            self.axis,
            self.value,
            (self.s + self.side / 2) as nat,
            (self.t + self.side / 2) as nat,
        )
    }

    /// Quadrant `k` of the square.
    pub open spec fn quadrant(self, k: int) -> Square {
        let half = self.side / 2;
        Square {
            axis: self.axis,
            value: self.value,
            s: (if k == 1 || k == 3 {
                self.s + half
            } else {
                self.s as int
            }) as u64,
            t: (if k >= 2 {
                self.t + half
            } else {
                self.t as int
            }) as u64,
            side: half,
            depth: (self.depth + 1) as u32,
        }
    }

    /// Whether the grid cell with lower corner `(i, j)` of a face is in the square.
    pub open spec fn covers(self, axis: usize, value: u8, i: int, j: int) -> bool {
        &&& self.axis == axis
        &&& self.value == value
        &&& self.s <= i < self.s + self.side
        &&& self.t <= j < self.t + self.side
    }
}

/// The whole of face number `k`: red at 0 and 1, then green, then blue.
pub open spec fn face(max_depth: u32, k: int) -> Square {
    Square {
        axis: (k / 2) as usize,
        value: (k % 2) as u8,
        s: 0,
        t: 0,
        side: grid_size(max_depth) as u64,
        depth: 0,
    }
}

// ---------------------------------------------------------------------------
// The mesh that a display gives rise to
// ---------------------------------------------------------------------------

/// How a display answers: which code values read back trustworthily, which
/// corner sets collapse, and which centres are planar with their corners.
pub ghost struct Display {
    pub trust: spec_fn(GridPoint) -> bool,
    pub collapsed: spec_fn(GridPoint, GridPoint, GridPoint, GridPoint) -> bool,
    pub flat: spec_fn(GridPoint, GridPoint, GridPoint, GridPoint, GridPoint) -> bool,
}

/// Vertices without repetition, and the leaf patches found so far.
pub ghost struct Mesh {
    pub vertices: Seq<MeshVertex>,
    pub patches: Seq<Patch>,
}

/// The number of the vertex with this code value.
pub open spec fn vertex_number(vertices: Seq<MeshVertex>, code_value: GridPoint) -> Option<usize>
    decreases vertices.len(),
{
    if vertices.len() == 0 {
        None
    } else if vertices.last().code_value == code_value {
        Some((vertices.len() - 1) as usize)
    } else {
        vertex_number(vertices.drop_last(), code_value)
    }
}

impl Mesh {
    /// The mesh with a vertex for this code value, measured only if it is new.
    pub open spec fn sampled(self, code_value: GridPoint, display: Display) -> Mesh {
        if vertex_number(self.vertices, code_value) is Some {
            self
        } else {
            Mesh {
                vertices: self.vertices.push(
                    MeshVertex { code_value, trustworthy: (display.trust)(code_value) },
                ),
                patches: self.patches,
            }
        }
    }

    pub open spec fn number(self, code_value: GridPoint) -> usize {
        vertex_number(self.vertices, code_value)->0
    }

    pub open spec fn with_patch(self, square: Square, corners: Corners, status: PatchStatus) -> Mesh {
        Mesh {
            vertices: self.vertices,
            patches: self.patches.push(
                Patch { axis: square.axis, value: square.value, corners, status },
            ),
        }
    }

    pub open spec fn code(self, i: usize) -> GridPoint {
        self.vertices[i as int].code_value
    }

    /// Every corner is trustworthy.
    pub open spec fn all_trusted(self, corners: Corners) -> bool {
        &&& self.vertices[corners.a as int].trustworthy
        &&& self.vertices[corners.b as int].trustworthy
        &&& self.vertices[corners.c as int].trustworthy
        &&& self.vertices[corners.d as int].trustworthy
    }
}

/// The vertex numbers of a square's corners in a mesh that has them all.
pub open spec fn corners_in(mesh: Mesh, square: Square, max_depth: u32) -> Corners {
    Corners {
        a: mesh.number(square.corner(max_depth, 0)),
        b: mesh.number(square.corner(max_depth, 1)),
        c: mesh.number(square.corner(max_depth, 2)),
        d: mesh.number(square.corner(max_depth, 3)),
    }
}

/// The mesh after refining one square: sample its corners, then stop on a
/// collapse, at the depth limit, on an untrustworthy corner or on a planar
/// centre, and otherwise refine the four quadrants in turn.
#[verifier::opaque]
pub open spec fn refined(p: RefineParams, mesh: Mesh, square: Square, display: Display) -> Mesh
    decreases p.max_depth - square.depth, 3int,
{
    let mesh = mesh.sampled(square.corner(p.max_depth, 0), display).sampled(
        square.corner(p.max_depth, 1),
        display,
    ).sampled(square.corner(p.max_depth, 2), display).sampled(
        square.corner(p.max_depth, 3),
        display,
    );
    refined_from_corners(p, mesh, square, corners_in(mesh, square, p.max_depth), display)
}

/// [`refined`], from the point on where the corners are sampled.
pub open spec fn refined_from_corners(
    p: RefineParams,
    mesh: Mesh,
    square: Square,
    corners: Corners,
    display: Display,
) -> Mesh
    decreases p.max_depth - square.depth, 2int,
{
    if (display.collapsed)(
        mesh.code(corners.a),
        mesh.code(corners.b),
        mesh.code(corners.c),
        mesh.code(corners.d),
    ) {
        mesh.with_patch(square, corners, collapse_status(p, square))
    } else {
        refined_uncollapsed(p, mesh, square, corners, display)
    }
}

/// A collapsed square is a fold while it is large.
pub open spec fn collapse_status(p: RefineParams, square: Square) -> PatchStatus {
    if square.depth < p.fold_levels {
        PatchStatus::Folded
    } else {
        PatchStatus::Flat
    }
}

/// [`refined`], from the point on where the corners are known not to collapse.
pub open spec fn refined_uncollapsed(
    p: RefineParams,
    mesh: Mesh,
    square: Square,
    corners: Corners,
    display: Display,
) -> Mesh
    decreases p.max_depth - square.depth, 1int,
{
    if square.depth >= p.max_depth {
        mesh.with_patch(square, corners, PatchStatus::MaxDepth)
    } else if !mesh.all_trusted(corners) {
        mesh.with_patch(square, corners, PatchStatus::LowTrust)
    } else {
        let center = square.center(p.max_depth);
        let mesh = mesh.sampled(center, display);
        refined_from_center(p, mesh, square, corners, mesh.number(center), display)
    }
}

/// [`refined`], from the point on where the centre is sampled.
pub open spec fn refined_from_center(
    p: RefineParams,
    mesh: Mesh,
    square: Square,
    corners: Corners,
    center: usize,
    display: Display,
) -> Mesh
    decreases p.max_depth - square.depth, 0int,
{
    if square.depth >= p.max_depth || (display.flat)(
        mesh.code(center),
        mesh.code(corners.a),
        mesh.code(corners.b),
        mesh.code(corners.c),
        mesh.code(corners.d),
    ) {
        mesh.with_patch(square, corners, PatchStatus::Flat)
    } else {
        let mesh = refined(p, mesh, square.quadrant(0), display);
        let mesh = refined(p, mesh, square.quadrant(1), display);
        let mesh = refined(p, mesh, square.quadrant(2), display);
        refined(p, mesh, square.quadrant(3), display)
    }
}

/// The mesh after refining the squares of a stack, the last one first.
pub open spec fn refined_all(
    p: RefineParams,
    mesh: Mesh,
    stack: Seq<Square>,
    display: Display,
) -> Mesh
    decreases stack.len(),
{
    if stack.len() == 0 {
        mesh
    } else {
        refined_all(p, refined(p, mesh, stack.last(), display), stack.drop_last(), display)
    }
}

/// The mesh of white alone.
pub open spec fn white_mesh(p: RefineParams, trustworthy: bool) -> Mesh {
    Mesh {
        vertices: seq![MeshVertex { code_value: white_point(p.max_depth), trustworthy }],
        patches: seq![],
    }
}

pub open spec fn white_point(max_depth: u32) -> GridPoint {
    let n = grid_size(max_depth) as u64;
    GridPoint { r: n, g: n, b: n }
}

/// The six faces as a stack, the first one on top.
pub open spec fn face_stack(max_depth: u32) -> Seq<Square> {
    seq![
        face(max_depth, 5),
        face(max_depth, 4),
        face(max_depth, 3),
        face(max_depth, 2),
        face(max_depth, 1),
        face(max_depth, 0),
    ]
}

/// The gamut mesh of a display: white is measured first, then the six faces
/// are refined in order.
pub open spec fn gamut_mesh(p: RefineParams, display: Display) -> Mesh {
    refined_all(
        p,
        white_mesh(p, (display.trust)(white_point(p.max_depth))),
        face_stack(p.max_depth),
        display,
    )
}

// ---------------------------------------------------------------------------
// The refinement as a state
// ---------------------------------------------------------------------------

/// A refinement under way: the mesh so far, the squares still to refine (the
/// last one first), and what it waits for.
pub ghost struct RefineState {
    pub params: RefineParams,
    pub mesh: Mesh,
    pub pending: Seq<Square>,
    pub stage: Stage,
}

pub open spec fn no_corners() -> Corners {
    Corners { a: 0, b: 0, c: 0, d: 0 }
}

impl Corners {
    /// The corners with entry `k` set to `i`.
    pub open spec fn with(self, k: int, i: usize) -> Corners {
        if k == 0 {
            Corners { a: i, ..self }
        } else if k == 1 {
            Corners { b: i, ..self }
        } else if k == 2 {
            Corners { c: i, ..self }
        } else {
            Corners { d: i, ..self }
        }
    }

    /// Every entry is the number of a vertex.
    pub open spec fn below(self, n: nat) -> bool {
        self.a < n && self.b < n && self.c < n && self.d < n
    }
}

/// What to wait for once the first `done` corners are known: corners that were
/// measured before are recalled, not measured again.
pub open spec fn settled(p: RefineParams, mesh: Mesh, square: Square, done: u8, found: Corners) -> Stage
    decreases 4 - done,
{
    if done >= 4 {
        Stage::Collapse { square, corners: found }
    } else {
        match vertex_number(mesh.vertices, square.corner(p.max_depth, done as int)) {
            Some(i) => settled(p, mesh, square, (done + 1) as u8, found.with(done as int, i)),
            None => Stage::Corner { square, done, found },
        }
    }
}

/// The state that takes up the next pending square.
pub open spec fn next_square(p: RefineParams, mesh: Mesh, pending: Seq<Square>) -> RefineState {
    if pending.len() == 0 {
        RefineState { params: p, mesh, pending, stage: Stage::Done }
    } else {
        RefineState {
            params: p,
            mesh,
            pending: pending.drop_last(),
            stage: settled(p, mesh, pending.last(), 0, no_corners()),
        }
    }
}

impl RefineState {
    pub open spec fn start(p: RefineParams) -> RefineState {
        RefineState {
            params: p,
            mesh: Mesh { vertices: seq![], patches: seq![] },
            pending: face_stack(p.max_depth),
            stage: Stage::White,
        }
    }

    pub open spec fn wf(self) -> bool {
        let d = self.params.max_depth;
        let n = self.mesh.vertices.len();
        &&& d <= DEPTH_LIMIT
        &&& forall|i: int| 0 <= i < self.pending.len() ==> (#[trigger] self.pending[i]).wf(d)
        &&& forall|i: int|
            0 <= i < self.mesh.patches.len() ==> (#[trigger] self.mesh.patches[i]).axis < 3
        &&& match self.stage {
            Stage::White => self == RefineState::start(self.params),
            Stage::Corner { square, done, found } => {
                &&& square.wf(d)
                &&& done < 4
                &&& vertex_number(self.mesh.vertices, square.corner(d, done as int)) is None
                &&& n > 0
                &&& found.below(n)
            },
            Stage::Collapse { square, corners } => square.wf(d) && corners.below(n),
            Stage::Center { square, corners } => {
                &&& square.wf(d)
                &&& square.depth < d
                &&& corners.below(n)
                &&& vertex_number(self.mesh.vertices, square.center(d)) is None
            },
            Stage::Flat { square, corners, center } => {
                &&& square.wf(d)
                &&& square.depth < d
                &&& corners.below(n)
                &&& center < n
            },
            Stage::Done => self.pending.len() == 0 && n > 0,
        }
    }

    /// What the state asks for.
    pub open spec fn step(self) -> Step {
        let d = self.params.max_depth;
        match self.stage {
            Stage::White => Step::Measure { code_value: white_point(d) },
            Stage::Corner { square, done, found } => Step::Measure {
                code_value: square.corner(d, done as int),
            },
            Stage::Collapse { square, corners } => Step::JudgeCollapse { corners },
            Stage::Center { square, corners } => Step::Measure { code_value: square.center(d) },
            Stage::Flat { square, corners, center } => Step::JudgeFlat { corners, center },
            Stage::Done => Step::Done,
        }
    }

    /// The mesh with a vertex for the code value that was asked for.
    pub open spec fn mesh_with(self, trustworthy: bool) -> Mesh {
        Mesh {
            vertices: self.mesh.vertices.push(
                MeshVertex { code_value: self.step()->code_value, trustworthy },
            ),
            patches: self.mesh.patches,
        }
    }

    /// The state once the measurement that was asked for is there.
    pub open spec fn measured(self, trustworthy: bool) -> RefineState {
        let mesh = self.mesh_with(trustworthy);
        let i = self.mesh.vertices.len() as usize;
        match self.stage {
            Stage::White => next_square(self.params, mesh, self.pending),
            Stage::Corner { square, done, found } => RefineState {
                mesh,
                stage: settled(
                    self.params,
                    mesh,
                    square,
                    (done + 1) as u8,
                    found.with(done as int, i),
                ),
                ..self
            },
            Stage::Center { square, corners } => RefineState {
                mesh,
                stage: Stage::Flat { square, corners, center: i },
                ..self
            },
            _ => self,
        }
    }

    /// The state once the leaf patch of a square is recorded.
    pub open spec fn stopped(self, square: Square, corners: Corners, status: PatchStatus) -> RefineState {
        next_square(self.params, self.mesh.with_patch(square, corners, status), self.pending)
    }

    /// The state once it is told whether the corners collapsed.
    pub open spec fn collapse_judged(self, collapsed: bool) -> RefineState {
        let d = self.params.max_depth;
        match self.stage {
            Stage::Collapse { square, corners } => if collapsed {
                self.stopped(square, corners, collapse_status(self.params, square))
            } else if square.depth >= d {
                self.stopped(square, corners, PatchStatus::MaxDepth)
            } else if !self.mesh.all_trusted(corners) {
                self.stopped(square, corners, PatchStatus::LowTrust)
            } else {
                match vertex_number(self.mesh.vertices, square.center(d)) {
                    Some(center) => RefineState {
                        stage: Stage::Flat { square, corners, center },
                        ..self
                    },
                    None => RefineState { stage: Stage::Center { square, corners }, ..self },
                }
            },
            _ => self,
        }
    }

    /// The state once it is told whether the centre is planar with the corners.
    pub open spec fn flat_judged(self, flat: bool) -> RefineState {
        match self.stage {
            Stage::Flat { square, corners, center } => if flat {
                self.stopped(square, corners, PatchStatus::Flat)
            } else {
                next_square(
                    self.params,
                    self.mesh,
                    self.pending.push(square.quadrant(3)).push(square.quadrant(2)).push(
                        square.quadrant(1),
                    ).push(square.quadrant(0)),
                )
            },
            _ => self,
        }
    }
}

/// The side of a patch at a depth, as a number.
pub open spec fn side_at(depth: u32) -> Double {
    Double { bits: ((1023 - depth) * 0x10_0000_0000_0000) as u64 }
}

/// How many depths have patches whose side is at least `min_side`, counted from
/// the whole face.
pub fn fold_levels(min_side: Double) -> (res: u32)
    ensures
        res <= DEPTH_LIMIT + 1,
        res > 0 ==> !min_side.nan(),
        forall|d: u32| d < res ==> !(#[trigger] side_at(d)).less(min_side),
        res <= DEPTH_LIMIT ==> min_side.nan() || side_at(res).less(min_side),
{
    let mut levels: u32 = 0;
    while levels <= DEPTH_LIMIT
        invariant_except_break
            levels <= DEPTH_LIMIT + 1,
            levels > 0 ==> !min_side.nan(),
            forall|d: u32| d < levels ==> !(#[trigger] side_at(d)).less(min_side),
        ensures
            levels <= DEPTH_LIMIT + 1,
            levels > 0 ==> !min_side.nan(),
            forall|d: u32| d < levels ==> !(#[trigger] side_at(d)).less(min_side),
            levels <= DEPTH_LIMIT ==> min_side.nan() || side_at(levels).less(min_side),
        decreases DEPTH_LIMIT + 1 - levels,
    {
        let side = Double { bits: (1023 - levels as u64) * 0x10_0000_0000_0000 };
        assert(side == side_at(levels));
        if min_side.is_nan() || side.is_less(&min_side) {
            break;
        }
        levels += 1;
    }
    levels
}

/// A measurement adds its vertex to the mesh, and a judgement adds none. No
/// answer changes the parameters.
pub proof fn lemma_vertices_grow(st: RefineState, answer: bool)
    requires
        st.wf(),
    ensures
        st.step() is Measure ==> st.measured(answer).mesh.vertices == st.mesh_with(answer).vertices,
        st.step() is JudgeCollapse ==> st.collapse_judged(answer).mesh.vertices
            == st.mesh.vertices,
        st.step() is JudgeFlat ==> st.flat_judged(answer).mesh.vertices == st.mesh.vertices,
        st.measured(answer).params == st.params,
        st.collapse_judged(answer).params == st.params,
        st.flat_judged(answer).params == st.params,
{
}

/// The adaptive refinement of the cube's surface.
#[derive(Debug)]
pub struct Refinement {
    params: RefineParams,
    vertices: Vec<MeshVertex>,
    patches: Vec<Patch>,
    pending: Vec<Square>,
    stage: Stage,
}

impl View for Refinement {
    type V = RefineState;

    closed spec fn view(&self) -> RefineState {
        RefineState {
            params: self.params,
            mesh: Mesh { vertices: self.vertices@, patches: self.patches@ },
            pending: self.pending@,
            stage: self.stage,
        }
    }
}

proof fn lemma_vertex_number(vertices: Seq<MeshVertex>, code_value: GridPoint)
    requires
        vertices.len() <= usize::MAX,
    ensures
        match vertex_number(vertices, code_value) {
            Some(i) => i < vertices.len() && vertices[i as int].code_value == code_value,
            None => forall|i: int|
                0 <= i < vertices.len() ==> (#[trigger] vertices[i]).code_value != code_value,
        },
    decreases vertices.len(),
{
    if vertices.len() > 0 && vertices.last().code_value != code_value {
        lemma_vertex_number(vertices.drop_last(), code_value);
        if vertex_number(vertices, code_value) is None {
            assert forall|i: int| 0 <= i < vertices.len() implies (#[trigger] vertices[i]).code_value
                != code_value by {
                if i < vertices.len() - 1 {
                    assert(vertices[i] == vertices.drop_last()[i]);
                }
            }
        }
    }
}

fn find_vertex(vertices: &Vec<MeshVertex>, code_value: GridPoint) -> (res: Option<usize>)
    ensures
        res == vertex_number(vertices@, code_value),
        res matches Some(i) ==> i < vertices@.len(),
{
    let mut n: usize = vertices.len();
    assert(vertices@.take(n as int) == vertices@);
    while n > 0
        invariant
            n <= vertices@.len(),
            vertex_number(vertices@, code_value) == vertex_number(
                vertices@.take(n as int),
                code_value,
            ),
        decreases n,
    {
        assert(vertices@.take(n as int).drop_last() == vertices@.take(n - 1));
        if vertices[n - 1].code_value == code_value {
            return Some(n - 1);
        }
        n -= 1;
    }
    None
}

proof fn lemma_grid_size(max_depth: u32)
    requires
        max_depth <= DEPTH_LIMIT,
    ensures
        1 <= grid_size(max_depth) <= 0x10_0000_0000_0000,
{
    lemma2_to64();
    lemma_pow2_pos(max_depth as nat);
    if max_depth < 52 {
        lemma_pow2_strictly_increases(max_depth as nat, 52);
    }
    assert(pow2(52) == 0x10_0000_0000_0000) by {
        vstd::arithmetic::power2::lemma2_to64_rest();
    }
}

/// The point of a face at face coordinates `(s, t)`.
fn face_cv(size: u64, axis: usize, value: u8, s: u64, t: u64) -> (res: GridPoint)
    requires
        value <= 1,
        axis < 3,
    ensures
        res == face_point(size as nat, axis, value, s as nat, t as nat),
{
    let v: u64 = if value == 0 {
        0
    } else {
        size
    };
    proof {
        assert(value as nat * size as nat == v) by (nonlinear_arith)
            requires
                value == 0 && v == 0 || value == 1 && v == size,
        ;
    }
    if axis == 0 {
        GridPoint { r: v, g: s, b: t }
    } else if axis == 1 {
        GridPoint { r: s, g: v, b: t }
    } else {
        GridPoint { r: s, g: t, b: v }
    }
}

proof fn lemma_quadrants(max_depth: u32, square: Square)
    requires
        max_depth <= DEPTH_LIMIT,
        square.wf(max_depth),
        square.depth < max_depth,
    ensures
        square.side == 2 * (square.side / 2),
        square.side / 2 >= 1,
        forall|k: int| 0 <= k < 4 ==> (#[trigger] square.quadrant(k)).wf(max_depth),
{
    lemma_grid_size(max_depth);
    lemma_pow2_unfold((max_depth - square.depth) as nat);
    lemma_pow2_pos((max_depth - square.depth - 1) as nat);
    assert forall|k: int| 0 <= k < 4 implies (#[trigger] square.quadrant(k)).wf(max_depth) by {
        assert((max_depth - (square.depth + 1)) as nat == (max_depth - square.depth - 1) as nat);
    }
}

impl Refinement {
    /// The refinement's own bookkeeping is in order.
    pub closed spec fn wf(self) -> bool {
        self@.wf()
    }

    /// The state of a refinement whose bookkeeping is in order is one that
    /// answers lead to.
    pub proof fn lemma_state(self)
        requires
            self.wf(),
        ensures
            self@.wf(),
    {
    }

    /// The mesh so far: every code value that was measured, once, in the order
    /// of the measurements.
    pub fn vertices(&self) -> (res: &Vec<MeshVertex>)
        ensures
            res@ == self@.mesh.vertices,
    {
        &self.vertices
    }

    /// The leaf patches so far.
    pub fn patches(&self) -> (res: &Vec<Patch>)
        ensures
            res@ == self@.mesh.patches,
    {
        &self.patches
    }

    fn corner(&self, square: Square, k: u8) -> (res: GridPoint)
        requires
            self.params.max_depth <= DEPTH_LIMIT,
            square.wf(self.params.max_depth),
            k < 4,
        ensures
            res == square.corner(self.params.max_depth, k as int),
    {
        proof {
            lemma_grid_size(self.params.max_depth);
        }
        let s: u64 = if k <= 1 {
            square.s
        } else {
            square.s + square.side
        };
        let t: u64 = if k == 0 || k == 3 {
            square.t
        } else {
            square.t + square.side
        };
        face_cv(power_of_two(self.params.max_depth), square.axis, square.value, s, t)
    }

    fn center(&self, square: Square) -> (res: GridPoint)
        requires
            self.params.max_depth <= DEPTH_LIMIT,
            square.wf(self.params.max_depth),
        ensures
            res == square.center(self.params.max_depth),
    {
        proof {
            lemma_grid_size(self.params.max_depth);
        }
        face_cv(
            power_of_two(self.params.max_depth),
            square.axis,
            square.value,
            square.s + square.side / 2,
            square.t + square.side / 2,
        )
    }

    /// What is asked for next.
    pub fn next(&self) -> (res: Step)
        requires
            self.wf(),
        ensures
            res == self@.step(),
    {
        proof {
            lemma_grid_size(self.params.max_depth);
        }
        match self.stage {
            Stage::White => {
                let n: u64 = power_of_two(self.params.max_depth);
                Step::Measure { code_value: GridPoint { r: n, g: n, b: n } }
            },
            Stage::Corner { square, done, found } => Step::Measure {
                code_value: self.corner(square, done),
            },
            Stage::Collapse { square, corners } => Step::JudgeCollapse { corners },
            Stage::Center { square, corners } => Step::Measure { code_value: self.center(square) },
            Stage::Flat { square, corners, center } => Step::JudgeFlat { corners, center },
            Stage::Done => Step::Done,
        }
    }
}

impl Corners {
    fn set(&self, k: u8, i: usize) -> (res: Corners)
        ensures
            res == self.with(k as int, i),
    {
        if k == 0 {
            Corners { a: i, b: self.b, c: self.c, d: self.d }
        } else if k == 1 {
            Corners { a: self.a, b: i, c: self.c, d: self.d }
        } else if k == 2 {
            Corners { a: self.a, b: self.b, c: i, d: self.d }
        } else {
            Corners { a: self.a, b: self.b, c: self.c, d: i }
        }
    }
}

/// The whole of a face.
fn whole_face(size: u64, axis: usize, value: u8) -> (res: Square)
    ensures
        res == (Square { axis, value, s: 0, t: 0, side: size, depth: 0 }),
{
    Square { axis, value, s: 0, t: 0, side: size, depth: 0 }
}

/// Starts a refinement of the cube's surface.
pub fn refine_gamut(params: &RefineParams) -> (res: Refinement)
    requires
        params.max_depth <= DEPTH_LIMIT,
    ensures
        res.wf(),
        res@ == RefineState::start(*params),
{
    let size = power_of_two(params.max_depth);
    proof {
        lemma_grid_size(params.max_depth);
    }
    let mut pending: Vec<Square> = Vec::new();
    pending.push(whole_face(size, 2, 1));
    pending.push(whole_face(size, 2, 0));
    pending.push(whole_face(size, 1, 1));
    pending.push(whole_face(size, 1, 0));
    pending.push(whole_face(size, 0, 1));
    pending.push(whole_face(size, 0, 0));
    assert(pending@ == face_stack(params.max_depth));
    let res = Refinement {
        params: *params,
        vertices: Vec::new(),
        patches: Vec::new(),
        pending,
        stage: Stage::White,
    };
    assert(res@ == RefineState::start(*params)) by {
        assert(res.vertices@ == Seq::<MeshVertex>::empty());
        assert(res.patches@ == Seq::<Patch>::empty());
    }
    res
}

impl Refinement {
    /// Settles on what to wait for once the first `done` corners of a square
    /// are known.
    fn settle(&mut self, square: Square, done: u8, found: Corners)
        requires
            old(self).params.max_depth <= DEPTH_LIMIT,
            square.wf(old(self).params.max_depth),
            done <= 4,
            found.below(old(self).vertices@.len()),
            forall|i: int|
                0 <= i < old(self).pending@.len() ==> (#[trigger] old(self).pending@[i]).wf(
                    old(self).params.max_depth,
                ),
            forall|i: int|
                0 <= i < old(self).patches@.len() ==> (#[trigger] old(self).patches@[i]).axis < 3,
        ensures
            final(self).wf(),
            final(self)@ == (RefineState {
                stage: settled(old(self).params, old(self)@.mesh, square, done, found),
                ..old(self)@
            }),
    {
        let mut k: u8 = done;
        let mut corners: Corners = found;
        while k < 4
            invariant
                done <= k <= 4,
                self.params.max_depth <= DEPTH_LIMIT,
                    square.wf(self.params.max_depth),
                corners.below(self.vertices@.len()),
                *self == *old(self),
                forall|i: int|
                    0 <= i < self.pending@.len() ==> (#[trigger] self.pending@[i]).wf(
                        self.params.max_depth,
                    ),
                forall|i: int|
                    0 <= i < self.patches@.len() ==> (#[trigger] self.patches@[i]).axis < 3,
                settled(self.params, self@.mesh, square, done, found) == settled(
                    self.params,
                    self@.mesh,
                    square,
                    k,
                    corners,
                ),
            decreases 4 - k,
        {
            let code_value = self.corner(square, k);
            match find_vertex(&self.vertices, code_value) {
                Some(i) => {
                    corners = corners.set(k, i);
                    k += 1;
                },
                None => {
                    self.stage = Stage::Corner { square, done: k, found: corners };
                    return ;
                },
            }
        }
        self.stage = Stage::Collapse { square, corners };
    }

    /// Takes up the next pending square.
    fn take_up(&mut self)
        requires
            old(self).params.max_depth <= DEPTH_LIMIT,
            old(self).vertices@.len() > 0,
            forall|i: int|
                0 <= i < old(self).pending@.len() ==> (#[trigger] old(self).pending@[i]).wf(
                    old(self).params.max_depth,
                ),
            forall|i: int|
                0 <= i < old(self).patches@.len() ==> (#[trigger] old(self).patches@[i]).axis < 3,
        ensures
            final(self).wf(),
            final(self)@ == next_square(old(self).params, old(self)@.mesh, old(self).pending@),
    {
        match self.pending.pop() {
            None => {
                self.stage = Stage::Done;
            },
            Some(square) => {
                self.settle(square, 0, Corners { a: 0, b: 0, c: 0, d: 0 });
            },
        }
    }

    /// Records a leaf patch and takes up the next pending square.
    fn stop(&mut self, square: Square, corners: Corners, status: PatchStatus)
        requires
            old(self).wf(),
            old(self).vertices@.len() > 0,
            square.axis < 3,
        ensures
            final(self).wf(),
            final(self)@ == old(self)@.stopped(square, corners, status),
    {
        self.patches.push(Patch { axis: square.axis, value: square.value, corners, status });
        self.take_up();
    }

    /// Takes note that the measurement that was asked for has been made.
    pub fn measured(&mut self, trustworthy: bool)
        requires
            old(self).wf(),
            old(self)@.step() is Measure,
        ensures
            final(self).wf(),
            final(self)@ == old(self)@.measured(trustworthy),
    {
        let code_value: GridPoint = match self.next() {
            Step::Measure { code_value } => code_value,
            _ => return ,
        };
        let stage = self.stage;
        let i: usize = self.vertices.len();
        self.vertices.push(MeshVertex { code_value, trustworthy });
        match stage {
            Stage::White => {
                proof {
                    lemma_grid_size(self.params.max_depth);
                }
                self.take_up();
            },
            Stage::Corner { square, done, found } => {
                self.settle(square, done + 1, found.set(done, i));
            },
            Stage::Center { square, corners } => {
                self.stage = Stage::Flat { square, corners, center: i };
            },
            _ => {},
        }
    }

    /// Takes note of whether the corners that were asked about collapsed.
    pub fn collapse_judged(&mut self, collapsed: bool)
        requires
            old(self).wf(),
            old(self)@.step() is JudgeCollapse,
        ensures
            final(self).wf(),
            final(self)@ == old(self)@.collapse_judged(collapsed),
    {
        if let Stage::Collapse { square, corners } = self.stage {
            if collapsed {
                let status = if square.depth < self.params.fold_levels {
                    PatchStatus::Folded
                } else {
                    PatchStatus::Flat
                };
                self.stop(square, corners, status);
            } else if square.depth >= self.params.max_depth {
                self.stop(square, corners, PatchStatus::MaxDepth);
            } else if !(self.vertices[corners.a].trustworthy && self.vertices[corners.b].trustworthy
                && self.vertices[corners.c].trustworthy && self.vertices[corners.d].trustworthy) {
                self.stop(square, corners, PatchStatus::LowTrust);
            } else {
                let code_value = self.center(square);
                match find_vertex(&self.vertices, code_value) {
                    Some(center) => {
                        self.stage = Stage::Flat { square, corners, center };
                    },
                    None => {
                        self.stage = Stage::Center { square, corners };
                    },
                }
            }
        }
    }

    fn quadrant(square: Square, k: u8) -> (res: Square)
        requires
            k < 4,
            square.s + square.side <= 0x10_0000_0000_0000,
            square.t + square.side <= 0x10_0000_0000_0000,
            square.depth < DEPTH_LIMIT,
        ensures
            res == square.quadrant(k as int),
    {
        let half: u64 = square.side / 2;
        Square {
            axis: square.axis,
            value: square.value,
            s: if k == 1 || k == 3 {
                square.s + half
            } else {
                square.s
            },
            t: if k >= 2 {
                square.t + half
            } else {
                square.t
            },
            side: half,
            depth: square.depth + 1,
        }
    }

    /// Takes note of whether the centre that was asked about is planar with its
    /// corners.
    pub fn flat_judged(&mut self, flat: bool)
        requires
            old(self).wf(),
            old(self)@.step() is JudgeFlat,
        ensures
            final(self).wf(),
            final(self)@ == old(self)@.flat_judged(flat),
    {
        if let Stage::Flat { square, corners, center } = self.stage {
            if flat {
                self.stop(square, corners, PatchStatus::Flat);
            } else {
                proof {
                    lemma_grid_size(self.params.max_depth);
                    lemma_quadrants(self.params.max_depth, square);
                }
                let ghost before = self.pending@;
                self.pending.push(Self::quadrant(square, 3));
                self.pending.push(Self::quadrant(square, 2));
                self.pending.push(Self::quadrant(square, 1));
                self.pending.push(Self::quadrant(square, 0));
                assert(self.pending@ == before.push(square.quadrant(3)).push(
                    square.quadrant(2),
                ).push(square.quadrant(1)).push(square.quadrant(0)));
                assert forall|i: int| 0 <= i < self.pending@.len() implies (
                #[trigger] self.pending@[i]).wf(self.params.max_depth) by {
                    if i < before.len() {
                        assert(self.pending@[i] == before[i]);
                    }
                }
                self.take_up();
            }
        }
    }
}

// ---------------------------------------------------------------------------
// What a refinement arrives at
// ---------------------------------------------------------------------------

/// The mesh after the rest of a square's corners are sampled and the square is
/// refined.
pub open spec fn finished_corners(
    p: RefineParams,
    mesh: Mesh,
    square: Square,
    done: u8,
    found: Corners,
    display: Display,
) -> Mesh
    decreases 4 - done,
{
    if done >= 4 {
        refined_from_corners(p, mesh, square, found, display)
    } else {
        let c = square.corner(p.max_depth, done as int);
        let mesh = mesh.sampled(c, display);
        finished_corners(
            p,
            mesh,
            square,
            (done + 1) as u8,
            found.with(done as int, mesh.number(c)),
            display,
        )
    }
}

impl RefineState {
    /// The mesh once the square at hand is refined.
    pub open spec fn stage_mesh(self, display: Display) -> Mesh {
        let p = self.params;
        match self.stage {
            Stage::White => self.mesh,
            Stage::Corner { square, done, found } => finished_corners(
                p,
                self.mesh,
                square,
                done,
                found,
                display,
            ),
            Stage::Collapse { square, corners } => refined_from_corners(
                p,
                self.mesh,
                square,
                corners,
                display,
            ),
            Stage::Center { square, corners } => {
                let c = square.center(p.max_depth);
                let mesh = self.mesh.sampled(c, display);
                refined_from_center(p, mesh, square, corners, mesh.number(c), display)
            },
            Stage::Flat { square, corners, center } => refined_from_center(
                p,
                self.mesh,
                square,
                corners,
                center,
                display,
            ),
            Stage::Done => self.mesh,
        }
    }

    /// The mesh that the refinement arrives at on a display.
    pub open spec fn outcome(self, display: Display) -> Mesh {
        match self.stage {
            Stage::White => gamut_mesh(self.params, display),
            _ => refined_all(self.params, self.stage_mesh(display), self.pending, display),
        }
    }
}

proof fn lemma_sampled(mesh: Mesh, c: GridPoint, x: GridPoint, display: Display)
    ensures
        vertex_number(mesh.sampled(c, display).vertices, c) is Some,
        vertex_number(mesh.vertices, x) is Some ==> vertex_number(
            mesh.sampled(c, display).vertices,
            x,
        ) == vertex_number(mesh.vertices, x),
{
    let v = MeshVertex { code_value: c, trustworthy: (display.trust)(c) };
    assert(mesh.vertices.push(v).drop_last() == mesh.vertices);
}

proof fn lemma_refined_by_corners(p: RefineParams, mesh: Mesh, square: Square, display: Display)
    ensures
        refined(p, mesh, square, display) == finished_corners(
            p,
            mesh,
            square,
            0,
            no_corners(),
            display,
        ),
{
    let c0 = square.corner(p.max_depth, 0);
    let c1 = square.corner(p.max_depth, 1);
    let c2 = square.corner(p.max_depth, 2);
    let c3 = square.corner(p.max_depth, 3);
    let m0 = mesh.sampled(c0, display);
    let m1 = m0.sampled(c1, display);
    let m2 = m1.sampled(c2, display);
    let m3 = m2.sampled(c3, display);
    lemma_sampled(mesh, c0, c0, display);
    lemma_sampled(m0, c1, c0, display);
    lemma_sampled(m1, c2, c0, display);
    lemma_sampled(m2, c3, c0, display);
    lemma_sampled(m1, c2, c1, display);
    lemma_sampled(m2, c3, c1, display);
    lemma_sampled(m2, c3, c2, display);
    let f = corners_in(m3, square, p.max_depth);
    reveal(refined);
    reveal_with_fuel(finished_corners, 5);
    assert(finished_corners(p, mesh, square, 0, no_corners(), display) == refined_from_corners(
        p,
        m3,
        square,
        f,
        display,
    ));
}

proof fn lemma_settled(
    p: RefineParams,
    mesh: Mesh,
    pending: Seq<Square>,
    square: Square,
    done: u8,
    found: Corners,
    display: Display,
)
    requires
        done <= 4,
    ensures
        ({
            let st = RefineState {
                params: p,
                mesh,
                pending,
                stage: settled(p, mesh, square, done, found),
            };
            &&& st.stage_mesh(display) == finished_corners(p, mesh, square, done, found, display)
            &&& !(st.stage is White)
        }),
    decreases 4 - done,
{
    if done < 4 {
        if let Some(i) = vertex_number(mesh.vertices, square.corner(p.max_depth, done as int)) {
            lemma_settled(
                p,
                mesh,
                pending,
                square,
                (done + 1) as u8,
                found.with(done as int, i),
                display,
            );
        }
    }
}

proof fn lemma_next_square(p: RefineParams, mesh: Mesh, pending: Seq<Square>, display: Display)
    ensures
        next_square(p, mesh, pending).outcome(display) == refined_all(p, mesh, pending, display),
{
    if pending.len() > 0 {
        lemma_settled(p, mesh, pending.drop_last(), pending.last(), 0, no_corners(), display);
        lemma_refined_by_corners(p, mesh, pending.last(), display);
    }
}

/// A refinement that starts arrives at the display's gamut mesh.
pub proof fn start_leads_to_gamut_mesh(p: RefineParams, display: Display)
    ensures
        RefineState::start(p).outcome(display) == gamut_mesh(p, display),
{
}

/// Measuring what is asked for does not change what the refinement arrives at.
pub proof fn measurement_keeps_outcome(st: RefineState, display: Display)
    requires
        st.wf(),
        st.step() is Measure,
    ensures
        st.measured((display.trust)(st.step()->code_value)).outcome(display) == st.outcome(display),
{
    let trustworthy = (display.trust)(st.step()->code_value);
    let mesh = st.mesh_with(trustworthy);
    match st.stage {
        Stage::White => {
            assert(mesh.vertices == white_mesh(st.params, trustworthy).vertices);
            assert(mesh.patches == white_mesh(st.params, trustworthy).patches);
            assert(mesh == white_mesh(st.params, trustworthy));
            lemma_next_square(st.params, mesh, st.pending, display);
        },
        Stage::Corner { square, done, found } => {
            let c = square.corner(st.params.max_depth, done as int);
            assert(mesh == st.mesh.sampled(c, display));
            lemma_settled(
                st.params,
                mesh,
                st.pending,
                square,
                (done + 1) as u8,
                found.with(done as int, st.mesh.vertices.len() as usize),
                display,
            );
        },
        Stage::Center { square, corners } => {
            assert(mesh == st.mesh.sampled(square.center(st.params.max_depth), display));
        },
        _ => {},
    }
}

/// Judging a collapse as the display has it does not change what the
/// refinement arrives at.
pub proof fn collapse_judgement_keeps_outcome(st: RefineState, display: Display)
    requires
        st.wf(),
        st.step() is JudgeCollapse,
    ensures
        ({
            let k = st.step()->JudgeCollapse_corners;
            let collapsed = (display.collapsed)(
                st.mesh.code(k.a),
                st.mesh.code(k.b),
                st.mesh.code(k.c),
                st.mesh.code(k.d),
            );
            st.collapse_judged(collapsed).outcome(display) == st.outcome(display)
        }),
{
    if let Stage::Collapse { square, corners } = st.stage {
        lemma_next_square(
            st.params,
            st.mesh.with_patch(square, corners, collapse_status(st.params, square)),
            st.pending,
            display,
        );
        lemma_next_square(
            st.params,
            st.mesh.with_patch(square, corners, PatchStatus::MaxDepth),
            st.pending,
            display,
        );
        lemma_next_square(
            st.params,
            st.mesh.with_patch(square, corners, PatchStatus::LowTrust),
            st.pending,
            display,
        );
    }
}

/// Judging a centre as the display has it does not change what the refinement
/// arrives at.
pub proof fn flat_judgement_keeps_outcome(st: RefineState, display: Display)
    requires
        st.wf(),
        st.step() is JudgeFlat,
    ensures
        ({
            let k = st.step()->JudgeFlat_corners;
            let flat = (display.flat)(
                st.mesh.code(st.step()->center),
                st.mesh.code(k.a),
                st.mesh.code(k.b),
                st.mesh.code(k.c),
                st.mesh.code(k.d),
            );
            st.flat_judged(flat).outcome(display) == st.outcome(display)
        }),
{
    if let Stage::Flat { square, corners, center } = st.stage {
        let p = st.params;
        let q0 = square.quadrant(0);
        let q1 = square.quadrant(1);
        let q2 = square.quadrant(2);
        let q3 = square.quadrant(3);
        let s3 = st.pending.push(q3);
        let s2 = s3.push(q2);
        let s1 = s2.push(q1);
        let s0 = s1.push(q0);
        lemma_next_square(p, st.mesh.with_patch(square, corners, PatchStatus::Flat), st.pending, display);
        lemma_next_square(p, st.mesh, s0, display);
        let m0 = refined(p, st.mesh, q0, display);
        let m1 = refined(p, m0, q1, display);
        let m2 = refined(p, m1, q2, display);
        let m3 = refined(p, m2, q3, display);
        let flat = (display.flat)(
            st.mesh.code(center),
            st.mesh.code(corners.a),
            st.mesh.code(corners.b),
            st.mesh.code(corners.c),
            st.mesh.code(corners.d),
        );
        if !flat {
            assert(refined_from_center(p, st.mesh, square, corners, center, display) == m3) by {
                reveal(refined);
            }
        }
        assert(s0.drop_last() == s1);
        assert(s1.drop_last() == s2);
        assert(s2.drop_last() == s3);
        assert(s3.drop_last() == st.pending);
        assert(refined_all(p, st.mesh, s0, display) == refined_all(p, m0, s1, display));
        assert(refined_all(p, m0, s1, display) == refined_all(p, m1, s2, display));
        assert(refined_all(p, m1, s2, display) == refined_all(p, m2, s3, display));
        assert(refined_all(p, m2, s3, display) == refined_all(p, m3, st.pending, display));
    }
}

/// A completed refinement holds the mesh it arrives at.
pub proof fn done_holds_outcome(st: RefineState, display: Display)
    requires
        st.wf(),
        st.step() is Done,
    ensures
        st.mesh == st.outcome(display),
{
}

// ---------------------------------------------------------------------------
// Every refinement ends
// ---------------------------------------------------------------------------

/// A bound on the steps that a square takes with this many levels left below it.
pub open spec fn square_effort(levels: nat) -> nat
    decreases levels,
{
    if levels == 0 {
        8
    } else {
        8 + 4 * square_effort((levels - 1) as nat)
    }
}

/// A bound on the steps that a square's quadrants take.
pub open spec fn quadrants_effort(p: RefineParams, square: Square) -> nat {
    if square.depth < p.max_depth {
        4 * square_effort((p.max_depth - square.depth - 1) as nat)
    } else {
        0
    }
}

pub open spec fn pending_effort(p: RefineParams, pending: Seq<Square>) -> nat
    decreases pending.len(),
{
    if pending.len() == 0 {
        0
    } else {
        pending_effort(p, pending.drop_last()) + 8 + quadrants_effort(p, pending.last())
    }
}

impl RefineState {
    /// A bound on the steps that are left.
    pub open spec fn effort(self) -> nat {
        pending_effort(self.params, self.pending) + match self.stage {
            Stage::White => 1,
            Stage::Corner { square, done, found } => (7 - done) as nat + quadrants_effort(
                self.params,
                square,
            ),
            Stage::Collapse { square, corners } => 3 + quadrants_effort(self.params, square),
            Stage::Center { square, corners } => 2 + quadrants_effort(self.params, square),
            Stage::Flat { square, corners, center } => 1 + quadrants_effort(self.params, square),
            Stage::Done => 0,
        }
    }
}

proof fn lemma_settled_effort(p: RefineParams, mesh: Mesh, pending: Seq<Square>, square: Square, done: u8, found: Corners)
    requires
        done <= 4,
    ensures
        (RefineState { params: p, mesh, pending, stage: settled(p, mesh, square, done, found) }).effort()
            <= pending_effort(p, pending) + (7 - done) + quadrants_effort(p, square),
    decreases 4 - done,
{
    if done < 4 {
        if let Some(i) = vertex_number(mesh.vertices, square.corner(p.max_depth, done as int)) {
            lemma_settled_effort(p, mesh, pending, square, (done + 1) as u8, found.with(done as int, i));
        }
    }
}

proof fn lemma_next_square_effort(p: RefineParams, mesh: Mesh, pending: Seq<Square>)
    ensures
        next_square(p, mesh, pending).effort() <= pending_effort(p, pending),
        pending.len() > 0 ==> next_square(p, mesh, pending).effort() < pending_effort(p, pending),
{
    if pending.len() > 0 {
        lemma_settled_effort(p, mesh, pending.drop_last(), pending.last(), 0, no_corners());
    }
}

/// Every answer to a refinement brings it closer to its end, whatever the
/// answer.
pub proof fn every_answer_makes_progress(st: RefineState, answer: bool)
    requires
        st.wf(),
    ensures
        st.step() is Measure ==> st.measured(answer).effort() < st.effort(),
        st.step() is JudgeCollapse ==> st.collapse_judged(answer).effort() < st.effort(),
        st.step() is JudgeFlat ==> st.flat_judged(answer).effort() < st.effort(),
{
    let p = st.params;
    match st.stage {
        Stage::White => {
            lemma_next_square_effort(p, st.mesh_with(answer), st.pending);
        },
        Stage::Corner { square, done, found } => {
            lemma_settled_effort(
                p,
                st.mesh_with(answer),
                st.pending,
                square,
                (done + 1) as u8,
                found.with(done as int, st.mesh.vertices.len() as usize),
            );
        },
        Stage::Collapse { square, corners } => {
            lemma_next_square_effort(
                p,
                st.mesh.with_patch(square, corners, collapse_status(p, square)),
                st.pending,
            );
            lemma_next_square_effort(
                p,
                st.mesh.with_patch(square, corners, PatchStatus::MaxDepth),
                st.pending,
            );
            lemma_next_square_effort(
                p,
                st.mesh.with_patch(square, corners, PatchStatus::LowTrust),
                st.pending,
            );
        },
        Stage::Flat { square, corners, center } => {
            lemma_next_square_effort(
                p,
                st.mesh.with_patch(square, corners, PatchStatus::Flat),
                st.pending,
            );
            let q0 = square.quadrant(0);
            let q1 = square.quadrant(1);
            let q2 = square.quadrant(2);
            let q3 = square.quadrant(3);
            let s3 = st.pending.push(q3);
            let s2 = s3.push(q2);
            let s1 = s2.push(q1);
            let s0 = s1.push(q0);
            lemma_next_square_effort(p, st.mesh, s0);
            assert(s0.drop_last() == s1);
            assert(s1.drop_last() == s2);
            assert(s2.drop_last() == s3);
            assert(s3.drop_last() == st.pending);
            let below = square_effort((p.max_depth - square.depth - 1) as nat);
            assert(8 + quadrants_effort(p, q0) == below);
            assert(8 + quadrants_effort(p, q1) == below);
            assert(8 + quadrants_effort(p, q2) == below);
            assert(8 + quadrants_effort(p, q3) == below);
            assert(pending_effort(p, s3) == pending_effort(p, st.pending) + below);
            assert(pending_effort(p, s2) == pending_effort(p, s3) + below);
            assert(pending_effort(p, s1) == pending_effort(p, s2) + below);
            assert(pending_effort(p, s0) == pending_effort(p, s1) + below);
        },
        _ => {},
    }
}

// ---------------------------------------------------------------------------
// The leaves tile the surface
// ---------------------------------------------------------------------------

impl Mesh {
    /// Every patch names vertices of the mesh.
    pub open spec fn wf(self) -> bool {
        forall|i: int|
            0 <= i < self.patches.len() ==> (#[trigger] self.patches[i]).corners.below(
                self.vertices.len(),
            )
    }
}

/// Whether a patch covers the grid cell with lower corner `(i, j)` of a face.
pub open spec fn patch_covers(
    vertices: Seq<MeshVertex>,
    patch: Patch,
    axis: usize,
    value: u8,
    i: int,
    j: int,
) -> bool {
    let low = vertices[patch.corners.a as int].code_value;
    let high = vertices[patch.corners.c as int].code_value;
    &&& patch.axis == axis
    &&& patch.value == value
    &&& coord_s(axis, low) <= i < coord_s(axis, high)
    &&& coord_t(axis, low) <= j < coord_t(axis, high)
}

/// How many patches cover a grid cell of a face.
pub open spec fn cover_count(
    vertices: Seq<MeshVertex>,
    patches: Seq<Patch>,
    axis: usize,
    value: u8,
    i: int,
    j: int,
) -> nat
    decreases patches.len(),
{
    if patches.len() == 0 {
        0
    } else {
        cover_count(vertices, patches.drop_last(), axis, value, i, j) + if patch_covers(
            vertices,
            patches.last(),
            axis,
            value,
            i,
            j,
        ) {
            1nat
        } else {
            0nat
        }
    }
}

proof fn lemma_cover_count_extends(
    v: Seq<MeshVertex>,
    w: Seq<MeshVertex>,
    patches: Seq<Patch>,
    axis: usize,
    value: u8,
    i: int,
    j: int,
)
    requires
        v.is_prefix_of(w),
        forall|k: int| 0 <= k < patches.len() ==> (#[trigger] patches[k]).corners.below(v.len()),
    ensures
        cover_count(v, patches, axis, value, i, j) == cover_count(w, patches, axis, value, i, j),
    decreases patches.len(),
{
    if patches.len() > 0 {
        assert forall|k: int| 0 <= k < patches.drop_last().len() implies (
        #[trigger] patches.drop_last()[k]).corners.below(v.len()) by {
            assert(patches.drop_last()[k] == patches[k]);
        }
        lemma_cover_count_extends(v, w, patches.drop_last(), axis, value, i, j);
        let p = patches.last();
        assert(p == patches[patches.len() - 1]);
        assert(v[p.corners.a as int] == w[p.corners.a as int]);
        assert(v[p.corners.c as int] == w[p.corners.c as int]);
    }
}

/// The mesh with the corners of a square sampled.
pub open spec fn with_corners(p: RefineParams, mesh: Mesh, square: Square, display: Display) -> Mesh {
    mesh.sampled(square.corner(p.max_depth, 0), display).sampled(
        square.corner(p.max_depth, 1),
        display,
    ).sampled(square.corner(p.max_depth, 2), display).sampled(
        square.corner(p.max_depth, 3),
        display,
    )
}

proof fn lemma_with_corners(p: RefineParams, mesh: Mesh, square: Square, display: Display)
    ensures
        ({
            let m = with_corners(p, mesh, square, display);
            let k = corners_in(m, square, p.max_depth);
            &&& mesh.wf() ==> m.wf()
            &&& mesh.vertices.is_prefix_of(m.vertices)
            &&& m.patches == mesh.patches
            &&& m.vertices.len() <= usize::MAX ==> {
                &&& k.below(m.vertices.len())
                &&& m.code(k.a) == square.corner(p.max_depth, 0)
                &&& m.code(k.b) == square.corner(p.max_depth, 1)
                &&& m.code(k.c) == square.corner(p.max_depth, 2)
                &&& m.code(k.d) == square.corner(p.max_depth, 3)
            }
        }),
{
    let c0 = square.corner(p.max_depth, 0);
    let c1 = square.corner(p.max_depth, 1);
    let c2 = square.corner(p.max_depth, 2);
    let c3 = square.corner(p.max_depth, 3);
    let m0 = mesh.sampled(c0, display);
    let m1 = m0.sampled(c1, display);
    let m2 = m1.sampled(c2, display);
    let m3 = m2.sampled(c3, display);
    lemma_sampled_keeps_wf(mesh, c0, display);
    lemma_sampled_keeps_wf(m0, c1, display);
    lemma_sampled_keeps_wf(m1, c2, display);
    lemma_sampled_keeps_wf(m2, c3, display);
    lemma_sampled(mesh, c0, c0, display);
    lemma_sampled(m0, c1, c0, display);
    lemma_sampled(m1, c2, c0, display);
    lemma_sampled(m2, c3, c0, display);
    lemma_sampled(m1, c2, c1, display);
    lemma_sampled(m2, c3, c1, display);
    lemma_sampled(m2, c3, c2, display);
    if m3.vertices.len() <= usize::MAX {
        lemma_vertex_number(m3.vertices, c0);
        lemma_vertex_number(m3.vertices, c1);
        lemma_vertex_number(m3.vertices, c2);
        lemma_vertex_number(m3.vertices, c3);
    }
}

/// The mesh with the quadrants of a square refined in turn.
pub open spec fn with_quadrants(p: RefineParams, mesh: Mesh, square: Square, display: Display) -> Mesh {
    let mesh = refined(p, mesh, square.quadrant(0), display);
    let mesh = refined(p, mesh, square.quadrant(1), display);
    let mesh = refined(p, mesh, square.quadrant(2), display);
    refined(p, mesh, square.quadrant(3), display)
}

/// The corners of a patch collapsed in measured space.
pub open spec fn has_collapsed(mesh: Mesh, k: Corners, display: Display) -> bool {
    (display.collapsed)(mesh.code(k.a), mesh.code(k.b), mesh.code(k.c), mesh.code(k.d))
}

/// The ways in which a square is refined: it stays whole with one of the
/// statuses, or it is split.
proof fn lemma_refined_cases(p: RefineParams, mesh: Mesh, square: Square, display: Display)
    ensures
        ({
            let out = refined(p, mesh, square, display);
            let m = with_corners(p, mesh, square, display);
            let k = corners_in(m, square, p.max_depth);
            let center = square.center(p.max_depth);
            let n = m.sampled(center, display);
            if has_collapsed(m, k, display) {
                out == m.with_patch(square, k, collapse_status(p, square))
            } else if square.depth >= p.max_depth {
                out == m.with_patch(square, k, PatchStatus::MaxDepth)
            } else if !m.all_trusted(k) {
                out == m.with_patch(square, k, PatchStatus::LowTrust)
            } else if (display.flat)(
                n.code(n.number(center)),
                n.code(k.a),
                n.code(k.b),
                n.code(k.c),
                n.code(k.d),
            ) {
                out == n.with_patch(square, k, PatchStatus::Flat)
            } else {
                out == with_quadrants(p, n, square, display)
            }
        }),
{
    reveal(refined);
}

proof fn lemma_prefix(a: Seq<MeshVertex>, b: Seq<MeshVertex>, c: Seq<MeshVertex>)
    requires
        a.is_prefix_of(b),
        b.is_prefix_of(c),
    ensures
        a.is_prefix_of(c),
{
    assert forall|k: int| 0 <= k < a.len() implies #[trigger] a[k] == c[k] by {
        assert(b[k] == c[k]);
    }
}

proof fn lemma_refined_extends(p: RefineParams, mesh: Mesh, square: Square, display: Display)
    ensures
        mesh.vertices.is_prefix_of(refined(p, mesh, square, display).vertices),
    decreases p.max_depth - square.depth, 1int,
{
    let m = with_corners(p, mesh, square, display);
    let center = square.center(p.max_depth);
    let n = m.sampled(center, display);
    let k = corners_in(m, square, p.max_depth);
    lemma_with_corners(p, mesh, square, display);
    lemma_sampled_keeps_wf(m, center, display);
    lemma_refined_cases(p, mesh, square, display);
    let out = refined(p, mesh, square, display);
    lemma_prefix(mesh.vertices, m.vertices, n.vertices);
    if square.depth < p.max_depth && out == with_quadrants(p, n, square, display) {
        lemma_quadrants_extend(p, n, square, display);
        lemma_prefix(mesh.vertices, n.vertices, out.vertices);
    }
}

proof fn lemma_quadrants_extend(p: RefineParams, mesh: Mesh, square: Square, display: Display)
    requires
        square.depth < p.max_depth,
    ensures
        ({
            let r0 = refined(p, mesh, square.quadrant(0), display);
            let r1 = refined(p, r0, square.quadrant(1), display);
            let r2 = refined(p, r1, square.quadrant(2), display);
            let r3 = refined(p, r2, square.quadrant(3), display);
            &&& mesh.vertices.is_prefix_of(r0.vertices)
            &&& r0.vertices.is_prefix_of(r1.vertices)
            &&& r1.vertices.is_prefix_of(r2.vertices)
            &&& r2.vertices.is_prefix_of(r3.vertices)
            &&& mesh.vertices.is_prefix_of(r3.vertices)
        }),
    decreases p.max_depth - square.depth, 0int,
{
    let r0 = refined(p, mesh, square.quadrant(0), display);
    let r1 = refined(p, r0, square.quadrant(1), display);
    let r2 = refined(p, r1, square.quadrant(2), display);
    let r3 = refined(p, r2, square.quadrant(3), display);
    lemma_refined_extends(p, mesh, square.quadrant(0), display);
    lemma_refined_extends(p, r0, square.quadrant(1), display);
    lemma_refined_extends(p, r1, square.quadrant(2), display);
    lemma_refined_extends(p, r2, square.quadrant(3), display);
    lemma_prefix(mesh.vertices, r0.vertices, r1.vertices);
    lemma_prefix(mesh.vertices, r1.vertices, r2.vertices);
    lemma_prefix(mesh.vertices, r2.vertices, r3.vertices);
}

proof fn lemma_sampled_keeps_wf(mesh: Mesh, c: GridPoint, display: Display)
    ensures
        mesh.wf() ==> mesh.sampled(c, display).wf(),
        mesh.vertices.is_prefix_of(mesh.sampled(c, display).vertices),
        mesh.sampled(c, display).patches == mesh.patches,
{
}

proof fn lemma_with_patch_covers(
    mesh: Mesh,
    square: Square,
    corners: Corners,
    status: PatchStatus,
    max_depth: u32,
    axis: usize,
    value: u8,
    i: int,
    j: int,
)
    requires
        mesh.wf(),
        max_depth <= DEPTH_LIMIT,
        square.wf(max_depth),
        corners.below(mesh.vertices.len()),
        mesh.code(corners.a) == square.corner(max_depth, 0),
        mesh.code(corners.c) == square.corner(max_depth, 2),
    ensures
        mesh.with_patch(square, corners, status).wf(),
        ({
            let m = mesh.with_patch(square, corners, status);
            cover_count(m.vertices, m.patches, axis, value, i, j) == cover_count(
                mesh.vertices,
                mesh.patches,
                axis,
                value,
                i,
                j,
            ) + (if square.covers(axis, value, i, j) {
                1nat
            } else {
                0nat
            })
        }),
{
    let m = mesh.with_patch(square, corners, status);
    assert(m.patches.drop_last() == mesh.patches);
    lemma_grid_size(max_depth);
    let low = mesh.code(corners.a);
    let high = mesh.code(corners.c);
    if square.axis == axis {
        assert(coord_s(axis, low) == square.s);
        assert(coord_t(axis, low) == square.t);
        assert(coord_s(axis, high) == square.s + square.side);
        assert(coord_t(axis, high) == square.t + square.side);
    }
}

/// Refining a square adds patches that cover each cell of the square exactly
/// once, and no other cell.
pub proof fn refined_square_is_tiled(
    p: RefineParams,
    mesh: Mesh,
    square: Square,
    display: Display,
    axis: usize,
    value: u8,
    i: int,
    j: int,
)
    requires
        p.max_depth <= DEPTH_LIMIT,
        square.wf(p.max_depth),
        mesh.wf(),
        refined(p, mesh, square, display).vertices.len() <= usize::MAX,
    ensures
        refined(p, mesh, square, display).wf(),
        ({
            let m = refined(p, mesh, square, display);
            cover_count(m.vertices, m.patches, axis, value, i, j) == cover_count(
                mesh.vertices,
                mesh.patches,
                axis,
                value,
                i,
                j,
            ) + (if square.covers(axis, value, i, j) {
                1nat
            } else {
                0nat
            })
        }),
    decreases p.max_depth - square.depth, 1int,
{
    let m = with_corners(p, mesh, square, display);
    let k = corners_in(m, square, p.max_depth);
    let center = square.center(p.max_depth);
    let n = m.sampled(center, display);
    let out = refined(p, mesh, square, display);
    lemma_with_corners(p, mesh, square, display);
    lemma_sampled_keeps_wf(m, center, display);
    lemma_refined_cases(p, mesh, square, display);
    if square.depth < p.max_depth && out == with_quadrants(p, n, square, display) {
        lemma_quadrants_extend(p, n, square, display);
    }
    assert(m.vertices.len() <= n.vertices.len() && (m.vertices.len() <= out.vertices.len()));
    lemma_cover_count_extends(mesh.vertices, m.vertices, mesh.patches, axis, value, i, j);
    lemma_cover_count_extends(m.vertices, n.vertices, mesh.patches, axis, value, i, j);
    let d = p.max_depth;
    if out == m.with_patch(square, k, collapse_status(p, square)) {
        lemma_with_patch_covers(m, square, k, collapse_status(p, square), d, axis, value, i, j);
    } else if out == m.with_patch(square, k, PatchStatus::MaxDepth) {
        lemma_with_patch_covers(m, square, k, PatchStatus::MaxDepth, d, axis, value, i, j);
    } else if out == m.with_patch(square, k, PatchStatus::LowTrust) {
        lemma_with_patch_covers(m, square, k, PatchStatus::LowTrust, d, axis, value, i, j);
    } else if out == n.with_patch(square, k, PatchStatus::Flat) {
        assert(n.code(k.a) == m.code(k.a));
        assert(n.code(k.c) == m.code(k.c));
        lemma_with_patch_covers(n, square, k, PatchStatus::Flat, d, axis, value, i, j);
    } else {
        quadrants_are_tiled(p, n, square, display, axis, value, i, j);
    }
}

/// Refining the quadrants of a square adds patches that cover each cell of the
/// square exactly once, and no other cell.
proof fn quadrants_are_tiled(
    p: RefineParams,
    mesh: Mesh,
    square: Square,
    display: Display,
    axis: usize,
    value: u8,
    i: int,
    j: int,
)
    requires
        p.max_depth <= DEPTH_LIMIT,
        square.wf(p.max_depth),
        square.depth < p.max_depth,
        mesh.wf(),
        with_quadrants(p, mesh, square, display).vertices.len() <= usize::MAX,
    ensures
        with_quadrants(p, mesh, square, display).wf(),
        ({
            let m = with_quadrants(p, mesh, square, display);
            cover_count(m.vertices, m.patches, axis, value, i, j) == cover_count(
                mesh.vertices,
                mesh.patches,
                axis,
                value,
                i,
                j,
            ) + (if square.covers(axis, value, i, j) {
                1nat
            } else {
                0nat
            })
        }),
    decreases p.max_depth - square.depth, 0int,
{
    let q0 = square.quadrant(0);
    let q1 = square.quadrant(1);
    let q2 = square.quadrant(2);
    let q3 = square.quadrant(3);
    let r0 = refined(p, mesh, q0, display);
    let r1 = refined(p, r0, q1, display);
    let r2 = refined(p, r1, q2, display);
    lemma_quadrants_extend(p, mesh, square, display);
    lemma_quadrants(p.max_depth, square);
    lemma_grid_size(p.max_depth);
    assert(q0.wf(p.max_depth) && q1.wf(p.max_depth) && q2.wf(p.max_depth) && q3.wf(p.max_depth));
    refined_square_is_tiled(p, mesh, q0, display, axis, value, i, j);
    refined_square_is_tiled(p, r0, q1, display, axis, value, i, j);
    refined_square_is_tiled(p, r1, q2, display, axis, value, i, j);
    refined_square_is_tiled(p, r2, q3, display, axis, value, i, j);
}

proof fn lemma_refined_all_extends(p: RefineParams, mesh: Mesh, stack: Seq<Square>, display: Display)
    ensures
        mesh.vertices.is_prefix_of(refined_all(p, mesh, stack, display).vertices),
    decreases stack.len(),
{
    if stack.len() > 0 {
        let m = refined(p, mesh, stack.last(), display);
        lemma_refined_extends(p, mesh, stack.last(), display);
        lemma_refined_all_extends(p, m, stack.drop_last(), display);
        lemma_prefix(mesh.vertices, m.vertices, refined_all(p, mesh, stack, display).vertices);
    }
}

/// How many squares of a stack cover a grid cell of a face.
pub open spec fn stack_count(stack: Seq<Square>, axis: usize, value: u8, i: int, j: int) -> nat
    decreases stack.len(),
{
    if stack.len() == 0 {
        0
    } else {
        stack_count(stack.drop_last(), axis, value, i, j) + if stack.last().covers(axis, value, i, j) {
            1nat
        } else {
            0nat
        }
    }
}

proof fn lemma_refined_all_is_tiled(
    p: RefineParams,
    mesh: Mesh,
    stack: Seq<Square>,
    display: Display,
    axis: usize,
    value: u8,
    i: int,
    j: int,
)
    requires
        p.max_depth <= DEPTH_LIMIT,
        forall|k: int| 0 <= k < stack.len() ==> (#[trigger] stack[k]).wf(p.max_depth),
        mesh.wf(),
        refined_all(p, mesh, stack, display).vertices.len() <= usize::MAX,
    ensures
        refined_all(p, mesh, stack, display).wf(),
        ({
            let m = refined_all(p, mesh, stack, display);
            cover_count(m.vertices, m.patches, axis, value, i, j) == cover_count(
                mesh.vertices,
                mesh.patches,
                axis,
                value,
                i,
                j,
            ) + stack_count(stack, axis, value, i, j)
        }),
    decreases stack.len(),
{
    if stack.len() > 0 {
        let m = refined(p, mesh, stack.last(), display);
        lemma_refined_all_extends(p, m, stack.drop_last(), display);
        assert(stack.last() == stack[stack.len() - 1]);
        refined_square_is_tiled(p, mesh, stack.last(), display, axis, value, i, j);
        assert forall|k: int| 0 <= k < stack.drop_last().len() implies (
        #[trigger] stack.drop_last()[k]).wf(p.max_depth) by {
            assert(stack.drop_last()[k] == stack[k]);
        }
        lemma_refined_all_is_tiled(p, m, stack.drop_last(), display, axis, value, i, j);
    }
}

/// The patches of a gamut mesh cover the cube's surface without gap or overlap,
/// and name vertices of the mesh.
pub proof fn gamut_mesh_tiles_the_cube(
    p: RefineParams,
    display: Display,
    axis: usize,
    value: u8,
    i: int,
    j: int,
)
    requires
        p.max_depth <= DEPTH_LIMIT,
        gamut_mesh(p, display).vertices.len() <= usize::MAX,
        axis < 3,
        value <= 1,
        0 <= i < grid_size(p.max_depth),
        0 <= j < grid_size(p.max_depth),
    ensures
        gamut_mesh(p, display).wf(),
        cover_count(
            gamut_mesh(p, display).vertices,
            gamut_mesh(p, display).patches,
            axis,
            value,
            i,
            j,
        ) == 1,
{
    let stack = face_stack(p.max_depth);
    let white = white_mesh(p, (display.trust)(white_point(p.max_depth)));
    lemma_grid_size(p.max_depth);
    lemma_refined_all_is_tiled(p, white, stack, display, axis, value, i, j);
    let s5 = stack.drop_last();
    let s4 = s5.drop_last();
    let s3 = s4.drop_last();
    let s2 = s3.drop_last();
    let s1 = s2.drop_last();
    assert(s1.drop_last().len() == 0);
    assert(stack_count(s1.drop_last(), axis, value, i, j) == 0);
    assert(s1.last() == face(p.max_depth, 5) && s2.last() == face(p.max_depth, 4) && s3.last()
        == face(p.max_depth, 3) && s4.last() == face(p.max_depth, 2) && s5.last() == face(
        p.max_depth,
        1,
    ) && stack.last() == face(p.max_depth, 0));
    reveal_with_fuel(stack_count, 7);
}

// ---------------------------------------------------------------------------
// How many patches there are
// ---------------------------------------------------------------------------

/// Refining a square adds at least one patch, at most one for each of its grid
/// cells, and each split adds three.
proof fn lemma_refined_count(p: RefineParams, mesh: Mesh, square: Square, display: Display)
    requires
        square.depth <= p.max_depth,
    ensures
        ({
            let added = refined(p, mesh, square, display).patches.len() - mesh.patches.len();
            &&& 1 <= added <= pow(4, (p.max_depth - square.depth) as nat)
            &&& added % 3 == 1
        }),
    decreases p.max_depth - square.depth,
{
    let m = with_corners(p, mesh, square, display);
    let n = m.sampled(square.center(p.max_depth), display);
    let levels = (p.max_depth - square.depth) as nat;
    lemma_refined_cases(p, mesh, square, display);
    lemma_with_corners(p, mesh, square, display);
    lemma_sampled_keeps_wf(m, square.center(p.max_depth), display);
    lemma_pow_positive(4, levels);
    let out = refined(p, mesh, square, display);
    if out.patches.len() != mesh.patches.len() + 1 {
        let r0 = refined(p, n, square.quadrant(0), display);
        let r1 = refined(p, r0, square.quadrant(1), display);
        let r2 = refined(p, r1, square.quadrant(2), display);
        lemma_refined_count(p, n, square.quadrant(0), display);
        lemma_refined_count(p, r0, square.quadrant(1), display);
        lemma_refined_count(p, r1, square.quadrant(2), display);
        lemma_refined_count(p, r2, square.quadrant(3), display);
        assert(pow(4, levels) == 4 * pow(4, (levels - 1) as nat)) by {
            reveal(pow);
        }
    }
}

/// A gamut mesh has at least the six faces as patches and at most one patch for
/// each grid cell of the surface, and their number is a multiple of three.
pub proof fn patches_are_counted(p: RefineParams, display: Display)
    ensures
        6 <= gamut_mesh(p, display).patches.len() <= 6 * pow(4, p.max_depth as nat),
        gamut_mesh(p, display).patches.len() % 3 == 0,
{
    let m0 = white_mesh(p, (display.trust)(white_point(p.max_depth)));
    let s0 = face_stack(p.max_depth);
    let s1 = s0.drop_last();
    let s2 = s1.drop_last();
    let s3 = s2.drop_last();
    let s4 = s3.drop_last();
    let s5 = s4.drop_last();
    let m1 = refined(p, m0, s0.last(), display);
    let m2 = refined(p, m1, s1.last(), display);
    let m3 = refined(p, m2, s2.last(), display);
    let m4 = refined(p, m3, s3.last(), display);
    let m5 = refined(p, m4, s4.last(), display);
    lemma_refined_count(p, m0, s0.last(), display);
    lemma_refined_count(p, m1, s1.last(), display);
    lemma_refined_count(p, m2, s2.last(), display);
    lemma_refined_count(p, m3, s3.last(), display);
    lemma_refined_count(p, m4, s4.last(), display);
    lemma_refined_count(p, m5, s5.last(), display);
    assert(s5.drop_last().len() == 0);
    reveal_with_fuel(refined_all, 7);
}

// ---------------------------------------------------------------------------
// What a status says of a patch
// ---------------------------------------------------------------------------

/// A patch is the image of a square, and its status is the reason why that
/// square was not split.
pub open spec fn is_image_of(
    p: RefineParams,
    mesh: Mesh,
    patch: Patch,
    square: Square,
    display: Display,
) -> bool {
    let k = patch.corners;
    let collapsed = has_collapsed(mesh, k, display);
    &&& square.wf(p.max_depth)
    &&& patch.axis == square.axis
    &&& patch.value == square.value
    &&& k.below(mesh.vertices.len())
    &&& mesh.code(k.a) == square.corner(p.max_depth, 0)
    &&& mesh.code(k.b) == square.corner(p.max_depth, 1)
    &&& mesh.code(k.c) == square.corner(p.max_depth, 2)
    &&& mesh.code(k.d) == square.corner(p.max_depth, 3)
    &&& match patch.status {
        PatchStatus::Folded => collapsed && square.depth < p.fold_levels,
        PatchStatus::MaxDepth => !collapsed && square.depth == p.max_depth,
        PatchStatus::LowTrust => {
            &&& !collapsed
            &&& square.depth < p.max_depth
            &&& !mesh.all_trusted(k)
        },
        PatchStatus::Flat => {
            ||| collapsed && square.depth >= p.fold_levels
            ||| {
                &&& !collapsed
                &&& square.depth < p.max_depth
                &&& mesh.all_trusted(k)
                &&& (display.flat)(
                    square.center(p.max_depth),
                    mesh.code(k.a),
                    mesh.code(k.b),
                    mesh.code(k.c),
                    mesh.code(k.d),
                )
            }
        },
    }
}

/// A patch is the image of some square.
pub open spec fn is_image(p: RefineParams, mesh: Mesh, patch: Patch, display: Display) -> bool {
    exists|square: Square| is_image_of(p, mesh, patch, square, display)
}

/// Every patch of a mesh is the image of a square.
pub open spec fn all_images(p: RefineParams, mesh: Mesh, display: Display) -> bool {
    forall|i: int|
        0 <= i < mesh.patches.len() ==> is_image(p, mesh, #[trigger] mesh.patches[i], display)
}

proof fn lemma_images_extend(p: RefineParams, mesh: Mesh, more: Mesh, display: Display)
    requires
        all_images(p, mesh, display),
        mesh.vertices.is_prefix_of(more.vertices),
        more.patches == mesh.patches,
    ensures
        all_images(p, more, display),
{
    assert forall|i: int| 0 <= i < more.patches.len() implies is_image(
        p,
        more,
        #[trigger] more.patches[i],
        display,
    ) by {
        let patch = mesh.patches[i];
        let square = choose|square: Square| is_image_of(p, mesh, patch, square, display);
        assert(is_image_of(p, more, patch, square, display));
    }
}

proof fn lemma_image_added(
    p: RefineParams,
    mesh: Mesh,
    square: Square,
    corners: Corners,
    status: PatchStatus,
    display: Display,
)
    requires
        all_images(p, mesh, display),
        is_image_of(
            p,
            mesh,
            Patch { axis: square.axis, value: square.value, corners, status },
            square,
            display,
        ),
    ensures
        all_images(p, mesh.with_patch(square, corners, status), display),
{
    let more = mesh.with_patch(square, corners, status);
    assert forall|i: int| 0 <= i < more.patches.len() implies is_image(
        p,
        more,
        #[trigger] more.patches[i],
        display,
    ) by {
        if i < mesh.patches.len() {
            let patch = mesh.patches[i];
            let old_square = choose|square: Square| is_image_of(p, mesh, patch, square, display);
            assert(is_image_of(p, more, more.patches[i], old_square, display));
        } else {
            assert(is_image_of(p, more, more.patches[i], square, display));
        }
    }
}

proof fn lemma_refined_images(p: RefineParams, mesh: Mesh, square: Square, display: Display)
    requires
        p.max_depth <= DEPTH_LIMIT,
        square.wf(p.max_depth),
        all_images(p, mesh, display),
        refined(p, mesh, square, display).vertices.len() <= usize::MAX,
    ensures
        all_images(p, refined(p, mesh, square, display), display),
    decreases p.max_depth - square.depth,
{
    let m = with_corners(p, mesh, square, display);
    let k = corners_in(m, square, p.max_depth);
    let center = square.center(p.max_depth);
    let n = m.sampled(center, display);
    let out = refined(p, mesh, square, display);
    lemma_with_corners(p, mesh, square, display);
    lemma_sampled_keeps_wf(m, center, display);
    lemma_refined_cases(p, mesh, square, display);
    lemma_images_extend(p, mesh, m, display);
    lemma_images_extend(p, m, n, display);
    let flat = (display.flat)(
        n.code(n.number(center)),
        n.code(k.a),
        n.code(k.b),
        n.code(k.c),
        n.code(k.d),
    );
    if has_collapsed(m, k, display) {
        lemma_image_added(p, m, square, k, collapse_status(p, square), display);
    } else if square.depth >= p.max_depth {
        lemma_image_added(p, m, square, k, PatchStatus::MaxDepth, display);
    } else if !m.all_trusted(k) {
        lemma_image_added(p, m, square, k, PatchStatus::LowTrust, display);
    } else if flat {
        lemma_sampled(m, center, center, display);
        lemma_vertex_number(n.vertices, center);
        lemma_image_added(p, n, square, k, PatchStatus::Flat, display);
    } else {
        let r0 = refined(p, n, square.quadrant(0), display);
        let r1 = refined(p, r0, square.quadrant(1), display);
        let r2 = refined(p, r1, square.quadrant(2), display);
        lemma_quadrants_extend(p, n, square, display);
        lemma_quadrants(p.max_depth, square);
        assert(square.quadrant(0).wf(p.max_depth) && square.quadrant(1).wf(p.max_depth)
            && square.quadrant(2).wf(p.max_depth) && square.quadrant(3).wf(p.max_depth));
        lemma_refined_images(p, n, square.quadrant(0), display);
        lemma_refined_images(p, r0, square.quadrant(1), display);
        lemma_refined_images(p, r1, square.quadrant(2), display);
        lemma_refined_images(p, r2, square.quadrant(3), display);
    }
}

proof fn lemma_refined_all_images(
    p: RefineParams,
    mesh: Mesh,
    stack: Seq<Square>,
    display: Display,
)
    requires
        p.max_depth <= DEPTH_LIMIT,
        forall|k: int| 0 <= k < stack.len() ==> (#[trigger] stack[k]).wf(p.max_depth),
        all_images(p, mesh, display),
        refined_all(p, mesh, stack, display).vertices.len() <= usize::MAX,
    ensures
        all_images(p, refined_all(p, mesh, stack, display), display),
    decreases stack.len(),
{
    if stack.len() > 0 {
        let m = refined(p, mesh, stack.last(), display);
        lemma_refined_all_extends(p, m, stack.drop_last(), display);
        assert(stack.last() == stack[stack.len() - 1]);
        lemma_refined_images(p, mesh, stack.last(), display);
        assert forall|k: int| 0 <= k < stack.drop_last().len() implies (
        #[trigger] stack.drop_last()[k]).wf(p.max_depth) by {
            assert(stack.drop_last()[k] == stack[k]);
        }
        lemma_refined_all_images(p, m, stack.drop_last(), display);
    }
}

/// Every patch of a gamut mesh is the image of a square of the surface, and its
/// status says why that square was not split. In particular a patch of low trust
/// has a corner that cannot be trusted, and a patch at the maximum depth is a
/// single grid cell.
pub proof fn statuses_give_the_reason(p: RefineParams, display: Display, i: int)
    requires
        p.max_depth <= DEPTH_LIMIT,
        gamut_mesh(p, display).vertices.len() <= usize::MAX,
        0 <= i < gamut_mesh(p, display).patches.len(),
    ensures
        ({
            let mesh = gamut_mesh(p, display);
            let patch = mesh.patches[i];
            let low = mesh.code(patch.corners.a);
            let high = mesh.code(patch.corners.c);
            &&& is_image(p, mesh, patch, display)
            &&& patch.status is LowTrust ==> !mesh.all_trusted(patch.corners)
            &&& patch.status is MaxDepth ==> {
                &&& coord_s(patch.axis, high) == coord_s(patch.axis, low) + 1
                &&& coord_t(patch.axis, high) == coord_t(patch.axis, low) + 1
            }
            &&& patch.status is Folded ==> has_collapsed(mesh, patch.corners, display)
        }),
{
    let white = white_mesh(p, (display.trust)(white_point(p.max_depth)));
    lemma_grid_size(p.max_depth);
    lemma_refined_all_images(p, white, face_stack(p.max_depth), display);
    let mesh = gamut_mesh(p, display);
    let patch = mesh.patches[i];
    let square = choose|square: Square| is_image_of(p, mesh, patch, square, display);
    if patch.status is MaxDepth {
        lemma2_to64();
        assert(square.side == 1);
    }
}

/// Nothing is measured twice: a code value that is asked for is not yet among
/// the vertices.
pub proof fn nothing_is_measured_twice(st: RefineState)
    requires
        st.wf(),
        st.step() is Measure,
    ensures
        vertex_number(st.mesh.vertices, st.step()->code_value) is None,
{
}

// ---------------------------------------------------------------------------
// The mesh as a result
// ---------------------------------------------------------------------------

/// The label of a face.
pub open spec fn face_text(axis: usize, value: u8) -> Seq<char> {
    (if axis == 0 {
        "R"@
    } else if axis == 1 {
        "G"@
    } else {
        "B"@
    }) + "="@ + decimal_text(value as nat)
}

/// Human label for a face, such as `R=1`.
pub fn face_label(axis: usize, value: u8) -> (res: String)
    requires
        axis < 3,
    ensures
        res@ == face_text(axis, value),
{
    let name: &str = if axis == 0 {
        "R"
    } else if axis == 1 {
        "G"
    } else {
        "B"
    };
    let mut out: String = joined(name, "=");
    out.append(decimal(value as u64).as_str());
    out
}

impl Patch {
    /// The label of the face that the patch lies on.
    pub fn face_label(&self) -> (res: String)
        requires
            self.axis < 3,
        ensures
            res@ == face_text(self.axis, self.value),
    {
        face_label(self.axis, self.value)
    }
}

/// A refined gamut: the vertices without repetition and the leaf patches.
#[derive(Debug)]
pub struct GamutMesh {
    pub vertices: Vec<MeshVertex>,
    pub patches: Vec<Patch>,
}

/// The measured colour of a vertex, with its code value as a number.
#[derive(Clone, Copy, Debug, PartialEq, Eq, Structural)]
pub struct VertexReading {
    pub code_value: Triple,
    pub xyz: Triple,
    pub lab: Triple,
}

/// How many of the patches have a status.
pub open spec fn status_count(patches: Seq<Patch>, status: PatchStatus) -> nat {
    patches.filter(|p: Patch| p.status == status).len()
}

impl Refinement {
    /// The mesh of a completed refinement.
    pub fn into_mesh(self) -> (res: GamutMesh)
        requires
            self.wf(),
        ensures
            forall|i: int| 0 <= i < res.patches@.len() ==> (#[trigger] res.patches@[i]).axis < 3,
            res.vertices@ == self@.mesh.vertices,
            res.patches@ == self@.mesh.patches,
    {
        assert forall|i: int| 0 <= i < self.patches@.len() implies (
        #[trigger] self.patches@[i]).axis < 3 by {
            assert(self@.mesh.patches[i].axis < 3);
        }
        GamutMesh { vertices: self.vertices, patches: self.patches }
    }
}

impl GamutMesh {
    /// Counts the leaf patches with a given status.
    pub fn count(&self, status: PatchStatus) -> (res: usize)
        ensures
            res == status_count(self.patches@, status),
    {
        let mut n: usize = 0;
        let mut i: usize = 0;
        let ghost pred = |p: Patch| p.status == status;
        assert(self.patches@.take(0).filter(pred).len() == 0);
        while i < self.patches.len()
            invariant
                n <= i <= self.patches@.len(),
                pred == (|p: Patch| p.status == status),
                n == self.patches@.take(i as int).filter(pred).len(),
            decreases self.patches@.len() - i,
        {
            proof {
                broadcast use vstd::seq_lib::group_filter_ensures;

                reveal(Seq::filter);
                assert(self.patches@.take(i + 1).drop_last() == self.patches@.take(i as int));
            }
            if self.patches[i].status == status {
                n += 1;
            }
            i += 1;
        }
        assert(self.patches@.take(i as int) == self.patches@);
        n
    }

    /// The vertex at a code value, if it was probed.
    pub fn vertex_at(&self, code_value: GridPoint) -> (res: Option<&MeshVertex>)
        ensures
            match res {
                Some(v) => exists|i: int|
                    {
                        &&& 0 <= i < self.vertices@.len()
                        &&& *v == #[trigger] self.vertices@[i]
                        &&& v.code_value == code_value
                        &&& forall|j: int|
                            0 <= j < i ==> (#[trigger] self.vertices@[j]).code_value != code_value
                    },
                None => forall|i: int|
                    0 <= i < self.vertices@.len() ==> (#[trigger] self.vertices@[i]).code_value
                        != code_value,
            },
    {
        let mut i: usize = 0;
        while i < self.vertices.len()
            invariant
                i <= self.vertices@.len(),
                forall|j: int|
                    0 <= j < i ==> (#[trigger] self.vertices@[j]).code_value != code_value,
            decreases self.vertices@.len() - i,
        {
            if self.vertices[i].code_value == code_value {
                assert(self.vertices@[i as int].code_value == code_value);
                return Some(&self.vertices[i]);
            }
            i += 1;
        }
        None
    }

    /// The mesh in the form that a capture records, with the colours that were
    /// measured at its vertices.
    pub fn to_capture(&self, white_xyz: Triple, readings: &Vec<VertexReading>) -> (res:
        capture::MeasuredGamut)
        requires
            readings@.len() == self.vertices@.len(),
            forall|i: int| 0 <= i < self.patches@.len() ==> (#[trigger] self.patches@[i]).axis < 3,
        ensures
            res.white_xyz == white_xyz,
            res.vertices@ == Seq::new(
                self.vertices@.len(),
                |i: int| captured_vertex(self.vertices@[i], readings@[i]),
            ),
            res.patches@.len() == self.patches@.len(),
            forall|i: int|
                0 <= i < self.patches@.len() ==> captured_patch(
                    self.patches@[i],
                    #[trigger] res.patches@[i],
                ),
    {
        let mut vertices: Vec<capture::GamutVertex> = Vec::new();
        let mut i: usize = 0;
        while i < self.vertices.len()
            invariant
                i <= self.vertices@.len(),
                readings@.len() == self.vertices@.len(),
                vertices@ == Seq::new(
                    i as nat,
                    |k: int| captured_vertex(self.vertices@[k], readings@[k]),
                ),
            decreases self.vertices@.len() - i,
        {
            let r = readings[i];
            vertices.push(
                capture::GamutVertex {
                    code_value: r.code_value,
                    xyz: r.xyz,
                    lab: r.lab,
                    trustworthy: self.vertices[i].trustworthy,
                },
            );
            i += 1;
            assert(vertices@ == Seq::new(
                i as nat,
                |k: int| captured_vertex(self.vertices@[k], readings@[k]),
            ));
        }
        let mut patches: Vec<capture::GamutPatch> = Vec::new();
        let mut j: usize = 0;
        while j < self.patches.len()
            invariant
                j <= self.patches@.len(),
                patches@.len() == j,
                forall|i: int|
                    0 <= i < self.patches@.len() ==> (#[trigger] self.patches@[i]).axis < 3,
                forall|i: int|
                    0 <= i < j ==> captured_patch(self.patches@[i], #[trigger] patches@[i]),
            decreases self.patches@.len() - j,
        {
            let p = self.patches[j];
            assert(self.patches@[j as int].axis < 3);
            let c = p.corners;
            patches.push(
                capture::GamutPatch {
                    face: p.face_label(),
                    corners: [c.a, c.b, c.c, c.d],
                    status: p.status.as_str().to_owned(),
                },
            );
            assert(captured_patch(self.patches@[j as int], patches@[j as int]));
            j += 1;
        }
        capture::MeasuredGamut { white_xyz, vertices, patches }
    }
}

pub open spec fn captured_vertex(v: MeshVertex, r: VertexReading) -> capture::GamutVertex {
    capture::GamutVertex {
        code_value: r.code_value,
        xyz: r.xyz,
        lab: r.lab,
        trustworthy: v.trustworthy,
    }
}

pub open spec fn captured_patch(p: Patch, q: capture::GamutPatch) -> bool {
    &&& q.face@ == face_text(p.axis, p.value)
    &&& q.corners@ == seq![p.corners.a, p.corners.b, p.corners.c, p.corners.d]
    &&& q.status@ == p.status.name()
}

/// A recorded patch names the corners of the mesh's patch, all four of them in
/// their order, and says in words which face it lies on and why it stopped.
pub proof fn recorded_patches_keep_their_corners(p: Patch, q: capture::GamutPatch)
    requires
        captured_patch(p, q),
        p.axis < 3,
        p.value <= 1,
    ensures
        q.corners@[0] == p.corners.a,
        q.corners@[1] == p.corners.b,
        q.corners@[2] == p.corners.c,
        q.corners@[3] == p.corners.d,
        q.face@.len() == 3,
        q.face@[0] == 'R' <==> p.axis == 0,
        q.face@[0] == 'G' <==> p.axis == 1,
        q.face@[0] == 'B' <==> p.axis == 2,
        q.face@[1] == '=',
        q.face@[2] == '0' <==> p.value == 0,
        q.face@[2] == '1' <==> p.value == 1,
        q.status@ == "flat"@ <==> p.status is Flat,
        q.status@ == "folded"@ <==> p.status is Folded,
        q.status@ == "max_depth"@ <==> p.status is MaxDepth,
        q.status@ == "low_trust"@ <==> p.status is LowTrust,
{
    reveal_strlit("R");
    reveal_strlit("G");
    reveal_strlit("B");
    reveal_strlit("=");
    reveal_strlit("flat");
    reveal_strlit("folded");
    reveal_strlit("max_depth");
    reveal_strlit("low_trust");
    assert("flat"@.len() == 4 && "folded"@.len() == 6);
    assert("max_depth"@[0] == 'm' && "low_trust"@[0] == 'l');
    assert("max_depth"@.len() == 9 && "low_trust"@.len() == 9);
    assert(decimal_text(p.value as nat).len() == 1);
    assert(decimal_text(p.value as nat)[0] == if p.value == 0 {
        '0'
    } else {
        '1'
    });
}

/// Four points, two coordinates each, are the corners of a square in cyclic
/// order, beginning at the lower one.
pub open spec fn go_round_a_square(a: (u64, u64), b: (u64, u64), c: (u64, u64), d: (u64, u64)) -> bool {
    let side = c.0 - a.0;
    &&& side > 0
    &&& b == (a.0, (a.1 + side) as u64) && b.1 == a.1 + side
    &&& c.1 == a.1 + side
    &&& d == (c.0, a.1)
}

/// The corners of a recorded patch span a square of the face that the patch lies
/// on: the face's channel is at its end of the scale in all four, and the other
/// two channels go round a square. So no two corners are the same.
pub proof fn recorded_patches_span_squares(
    p: RefineParams,
    display: Display,
    i: int,
    q: capture::GamutPatch,
)
    requires
        p.max_depth <= DEPTH_LIMIT,
        gamut_mesh(p, display).vertices.len() <= usize::MAX,
        0 <= i < gamut_mesh(p, display).patches.len(),
        captured_patch(gamut_mesh(p, display).patches[i], q),
    ensures
        ({
            let v = gamut_mesh(p, display).vertices;
            let patch = gamut_mesh(p, display).patches[i];
            let a = v[q.corners@[0] as int].code_value;
            let b = v[q.corners@[1] as int].code_value;
            let c = v[q.corners@[2] as int].code_value;
            let d = v[q.corners@[3] as int].code_value;
            let end = if patch.value == 0 {
                0
            } else {
                pow2(p.max_depth as nat)
            };
            &&& forall|k: int| 0 <= k < 4 ==> #[trigger] q.corners@[k] < v.len()
            &&& patch.axis < 3 && patch.value <= 1
            &&& patch.axis == 0 ==> {
                &&& a.r == end && b.r == end && c.r == end && d.r == end
                &&& go_round_a_square((a.g, a.b), (b.g, b.b), (c.g, c.b), (d.g, d.b))
            }
            &&& patch.axis == 1 ==> {
                &&& a.g == end && b.g == end && c.g == end && d.g == end
                &&& go_round_a_square((a.r, a.b), (b.r, b.b), (c.r, c.b), (d.r, d.b))
            }
            &&& patch.axis == 2 ==> {
                &&& a.b == end && b.b == end && c.b == end && d.b == end
                &&& go_round_a_square((a.r, a.g), (b.r, b.g), (c.r, c.g), (d.r, d.g))
            }
            &&& a != b && a != c && a != d && b != c && b != d && c != d
        }),
{
    let mesh = gamut_mesh(p, display);
    let patch = mesh.patches[i];
    statuses_give_the_reason(p, display, i);
    let square = choose|square: Square| is_image_of(p, mesh, patch, square, display);
    lemma_grid_size(p.max_depth);
    lemma_pow2_pos((p.max_depth - square.depth) as nat);
    recorded_patches_keep_their_corners(patch, q);
    let n = grid_size(p.max_depth);
    assert(patch.value as nat * n == if patch.value == 0 {
        0
    } else {
        n
    }) by (nonlinear_arith)
        requires
            patch.value <= 1,
    ;
}

/// A recorded vertex has the code value and the colours of its reading, and the
/// mesh's word on whether it can be trusted.
pub proof fn recorded_vertices_keep_their_colours(v: MeshVertex, r: VertexReading)
    ensures
        ({
            let g = captured_vertex(v, r);
            &&& g.code_value == r.code_value
            &&& g.xyz == r.xyz
            &&& g.lab == r.lab
            &&& g.trustworthy == v.trustworthy
        }),
{
}

/// A mesh is recorded whole and in order: vertex by vertex with the colours of its
/// reading, and patch by patch with its corners.
pub proof fn meshes_are_recorded_in_order(
    mesh: GamutMesh,
    white: Triple,
    readings: Vec<VertexReading>,
    res: capture::MeasuredGamut,
    i: int,
)
    requires
        readings@.len() == mesh.vertices@.len(),
        forall|i: int| 0 <= i < mesh.patches@.len() ==> (#[trigger] mesh.patches@[i]).axis < 3,
        call_ensures(GamutMesh::to_capture, (&mesh, white, &readings), res),
    ensures
        res.white_xyz == white,
        res.vertices@.len() == mesh.vertices@.len(),
        res.patches@.len() == mesh.patches@.len(),
        0 <= i < mesh.vertices@.len() ==> {
            &&& res.vertices@[i].code_value == readings@[i].code_value
            &&& res.vertices@[i].xyz == readings@[i].xyz
            &&& res.vertices@[i].lab == readings@[i].lab
            &&& res.vertices@[i].trustworthy == mesh.vertices@[i].trustworthy
        },
        0 <= i < mesh.patches@.len() ==> {
            &&& res.patches@[i].corners@[0] == mesh.patches@[i].corners.a
            &&& res.patches@[i].corners@[1] == mesh.patches@[i].corners.b
            &&& res.patches@[i].corners@[2] == mesh.patches@[i].corners.c
            &&& res.patches@[i].corners@[3] == mesh.patches@[i].corners.d
        },
{
    if 0 <= i < mesh.patches@.len() {
        assert(captured_patch(mesh.patches@[i], res.patches@[i]));
    }
}

/// A point of the grid stands for its channels over the size of the grid, each channel
/// for itself.
pub proof fn grid_points_are_fractions_of_full_scale(p: GridPoint, max_depth: u32, c: CodeValue)
    requires
        max_depth <= DEPTH_LIMIT,
        call_ensures(code_of, (p, max_depth), c),
    ensures
        c.r.num == p.r && c.g.num == p.g && c.b.num == p.b,
        c.r.den == pow2(max_depth as nat),
        c.g.den == pow2(max_depth as nat),
        c.b.den == pow2(max_depth as nat),
{
    lemma_grid_size(max_depth);
}

/// The first thing to measure is white, with all channels at full scale. The faces
/// follow, red at its lower end first.
pub proof fn white_is_measured_first(p: RefineParams, trustworthy: bool)
    requires
        p.max_depth <= DEPTH_LIMIT,
    ensures
        ({
            let n = pow2(p.max_depth as nat);
            let first = RefineState::start(p);
            let second = first.measured(trustworthy);
            &&& first.step() is Measure
            &&& first.step()->code_value.r == n
            &&& first.step()->code_value.g == n
            &&& first.step()->code_value.b == n
            &&& second.mesh.vertices.len() == 1
            &&& second.mesh.vertices[0].trustworthy == trustworthy
            &&& second.step() is Measure
            &&& second.step()->code_value == (GridPoint { r: 0, g: 0, b: 0 })
            &&& second.pending.len() == 5
            &&& forall|k: int|
                1 <= k < 6 ==> {
                    let s = #[trigger] second.pending[5 - k];
                    &&& s.axis == k / 2
                    &&& s.value == k % 2
                    &&& s.s == 0 && s.t == 0 && s.side == n && s.depth == 0
                }
        }),
{
    lemma_grid_size(p.max_depth);
    lemma_pow2_pos(p.max_depth as nat);
    let mesh = RefineState::start(p).mesh_with(trustworthy);
    let low = face(p.max_depth, 0).corner(p.max_depth, 0);
    let n = grid_size(p.max_depth);
    assert(0 * n == 0) by (nonlinear_arith);
    assert(low == GridPoint { r: 0, g: 0, b: 0 });
    assert(mesh.vertices.drop_last().len() == 0);
    reveal_with_fuel(vertex_number, 2);
    assert(vertex_number(mesh.vertices, low) is None);
    assert(face_stack(p.max_depth).last() == face(p.max_depth, 0));
}

/// The status of a patch in plain words. Let `side` be the side of its square. A fold
/// and a patch that is flat by collapse have corners that collapsed, and the levels for
/// folds tell them apart; a patch of low trust has a corner that cannot be trusted; a
/// patch that is flat otherwise has four that can, and a planar centre.
pub proof fn statuses_are_told_apart(p: RefineParams, display: Display, i: int)
    requires
        p.max_depth <= DEPTH_LIMIT,
        gamut_mesh(p, display).vertices.len() <= usize::MAX,
        0 <= i < gamut_mesh(p, display).patches.len(),
    ensures
        ({
            let v = gamut_mesh(p, display).vertices;
            let patch = gamut_mesh(p, display).patches[i];
            let a = v[patch.corners.a as int];
            let b = v[patch.corners.b as int];
            let c = v[patch.corners.c as int];
            let d = v[patch.corners.d as int];
            let trusted = a.trustworthy && b.trustworthy && c.trustworthy && d.trustworthy;
            let collapsed = (display.collapsed)(
                a.code_value,
                b.code_value,
                c.code_value,
                d.code_value,
            );
            let low_s = coord_s(patch.axis, a.code_value);
            let low_t = coord_t(patch.axis, a.code_value);
            let side = coord_s(patch.axis, c.code_value) - low_s;
            &&& exists|depth: u32|
                {
                    &&& depth <= p.max_depth
                    &&& side == #[trigger] pow2((p.max_depth - depth) as nat)
                    &&& patch.status is Folded <==> collapsed && depth < p.fold_levels
                    &&& patch.status is MaxDepth <==> !collapsed && depth == p.max_depth
                    &&& patch.status is LowTrust <==> !collapsed && depth < p.max_depth && !trusted
                    &&& patch.status is Flat && !collapsed ==> trusted && depth < p.max_depth
                        && exists|m: GridPoint|
                        {
                            &&& #[trigger] coord_s(patch.axis, m) == low_s + side / 2
                            &&& coord_t(patch.axis, m) == low_t + side / 2
                            &&& (display.flat)(
                                m,
                                a.code_value,
                                b.code_value,
                                c.code_value,
                                d.code_value,
                            )
                        }
                }
        }),
{
    let mesh = gamut_mesh(p, display);
    let patch = mesh.patches[i];
    statuses_give_the_reason(p, display, i);
    let square = choose|square: Square| is_image_of(p, mesh, patch, square, display);
    lemma_grid_size(p.max_depth);
    lemma_pow2_pos((p.max_depth - square.depth) as nat);
    let m = square.center(p.max_depth);
    let v = mesh.vertices;
    let low_s = coord_s(patch.axis, v[patch.corners.a as int].code_value);
    let side = coord_s(patch.axis, v[patch.corners.c as int].code_value) - low_s;
    assert(side == pow2((p.max_depth - square.depth) as nat));
    assert(coord_s(patch.axis, m) == low_s + side / 2);
}

/// The quadrants of a square are half its side each, meet at its centre and go row by
/// row from the lower corner.
pub proof fn quadrants_meet_at_the_center(square: Square, max_depth: u32)
    requires
        max_depth <= DEPTH_LIMIT,
        square.wf(max_depth),
        square.depth < max_depth,
    ensures
        forall|k: int|
            0 <= k < 4 ==> {
                let q = #[trigger] square.quadrant(k);
                &&& 2 * q.side == square.side
                &&& q.axis == square.axis && q.value == square.value
                &&& q.depth == square.depth + 1
            },
        square.quadrant(0).s == square.s && square.quadrant(0).t == square.t,
        square.quadrant(1).s == square.s + square.side / 2 && square.quadrant(1).t == square.t,
        square.quadrant(2).s == square.s && square.quadrant(2).t == square.t + square.side / 2,
        square.quadrant(3).s == square.s + square.side / 2 && square.quadrant(3).t == square.t
            + square.side / 2,
        square.quadrant(0).corner(max_depth, 2) == square.center(max_depth),
        square.quadrant(3).corner(max_depth, 0) == square.center(max_depth),
{
    lemma_quadrants(max_depth, square);
    lemma_grid_size(max_depth);
    lemma_pow2_unfold((max_depth - square.depth) as nat);
}

/// A fold must be as wide as the least side that is asked for: the side of a level is
/// the level itself.
pub proof fn fold_levels_go_by_the_side(depth: u32, levels: u32)
    requires
        depth <= DEPTH_LIMIT,
        call_ensures(
            fold_levels,
            (Double { bits: ((1023 - depth) * 0x10_0000_0000_0000) as u64 },),
            levels,
        ),
    ensures
        levels == depth + 1,
{
    let min = Double { bits: ((1023 - depth) * 0x10_0000_0000_0000) as u64 };
    assert(min == side_at(depth));
    assert(!min.nan());
    if levels > depth + 1 {
        let d = (depth + 1) as u32;
        assert(!side_at(d).less(min));
        assert(side_at(d).bits < min.bits);
    }
    if levels <= depth {
        assert(side_at(levels).bits >= min.bits);
    }
}

/// Every patch is counted under exactly one status.
pub proof fn every_patch_is_counted_once(
    mesh: GamutMesh,
    flat: usize,
    folded: usize,
    deep: usize,
    low: usize,
)
    requires
        call_ensures(GamutMesh::count, (&mesh, PatchStatus::Flat), flat),
        call_ensures(GamutMesh::count, (&mesh, PatchStatus::Folded), folded),
        call_ensures(GamutMesh::count, (&mesh, PatchStatus::MaxDepth), deep),
        call_ensures(GamutMesh::count, (&mesh, PatchStatus::LowTrust), low),
    ensures
        flat + folded + deep + low == mesh.patches@.len(),
        (forall|i: int| 0 <= i < mesh.patches@.len() ==> (#[trigger] mesh.patches@[i]).status is Folded)
            ==> folded == mesh.patches@.len(),
{
    lemma_counts(mesh.patches@);
}

proof fn lemma_counts(patches: Seq<Patch>)
    ensures
        status_count(patches, PatchStatus::Flat) + status_count(patches, PatchStatus::Folded)
            + status_count(patches, PatchStatus::MaxDepth) + status_count(
            patches,
            PatchStatus::LowTrust,
        ) == patches.len(),
        (forall|i: int| 0 <= i < patches.len() ==> (#[trigger] patches[i]).status is Folded)
            ==> status_count(patches, PatchStatus::Folded) == patches.len(),
    decreases patches.len(),
{
    reveal(Seq::filter);
    if patches.len() > 0 {
        let rest = patches.drop_last();
        lemma_counts(rest);
        if forall|i: int| 0 <= i < patches.len() ==> (#[trigger] patches[i]).status is Folded {
            assert forall|i: int| 0 <= i < rest.len() implies (#[trigger] rest[i]).status is Folded by {
                assert(rest[i] == patches[i]);
            }
            assert(patches[patches.len() - 1].status is Folded);
        }
    }
}

} // verus!
