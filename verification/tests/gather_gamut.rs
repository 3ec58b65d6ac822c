use tristim::gather::gamut::{
    face_label, fold_levels, refine_gamut, Corners, GamutMesh, GridPoint, PatchStatus, RefineParams,
    Step, VertexReading,
};
use tristim::gather::probe::{first_second, next_second, probe_point, GamutEvent, GamutProbe, NUM_POINTS};
use tristim::number::{Double, Triple};

// sRGB linear-RGB to XYZ (D65): a smooth additive display for the models below.
const SRGB_TO_XYZ: [[f64; 3]; 3] = [
    [0.4124, 0.3576, 0.1805],
    [0.2126, 0.7152, 0.0722],
    [0.0193, 0.1192, 0.9505],
];

fn double(v: f64) -> Double {
    Double { bits: v.to_bits() }
}

fn triple(v: [f64; 3]) -> Triple {
    Triple { a: double(v[0]), b: double(v[1]), c: double(v[2]) }
}

fn mat_mul(m: [[f64; 3]; 3], v: [f64; 3]) -> [f64; 3] {
    m.map(|row| row[0] * v[0] + row[1] * v[1] + row[2] * v[2])
}

/// A well-behaved additive display. The XYZ map is affine, but Lab is curved, so
/// faces still need subdivision.
fn smooth(cv: [f64; 3]) -> [f64; 3] {
    mat_mul(SRGB_TO_XYZ, cv)
}

/// A display whose gamut is smaller than the container: each channel clamps at
/// 0.5, so the high-saturation corner of every face collapses to one point.
fn clamped(cv: [f64; 3]) -> [f64; 3] {
    mat_mul(SRGB_TO_XYZ, cv.map(|c| c.min(0.5)))
}

fn lab(xyz: [f64; 3], white: [f64; 3]) -> [f64; 3] {
    let f = |t: f64| {
        if t > (6.0f64 / 29.0).powi(3) {
            t.cbrt()
        } else {
            t / (3.0 * (6.0f64 / 29.0).powi(2)) + 4.0 / 29.0
        }
    };
    let [x, y, z] = [0, 1, 2].map(|i| f(xyz[i] / white[i]));
    [116.0 * y - 16.0, 500.0 * (x - y), 200.0 * (y - z)]
}

fn distance(a: [f64; 3], b: [f64; 3]) -> f64 {
    (0..3).map(|i| (a[i] - b[i]).powi(2)).sum::<f64>().sqrt()
}

struct Probed {
    mesh: GamutMesh,
    code_values: Vec<[f64; 3]>,
    xyz: Vec<[f64; 3]>,
    labs: Vec<[f64; 3]>,
}

/// Answers the refinement's questions for a display.
fn refine(params: &RefineParams, display: fn([f64; 3]) -> [f64; 3]) -> Probed {
    let size = (1u64 << params.max_depth) as f64;
    let mut r = refine_gamut(params);
    let mut code_values: Vec<[f64; 3]> = Vec::new();
    let mut xyz: Vec<[f64; 3]> = Vec::new();
    let mut labs: Vec<[f64; 3]> = Vec::new();
    loop {
        let corners_of = |c: Corners| [labs[c.a], labs[c.b], labs[c.c], labs[c.d]];
        match r.next() {
            Step::Measure { code_value: p } => {
                let cv = [p.r as f64 / size, p.g as f64 / size, p.b as f64 / size];
                let m = display(cv);
                assert!(!code_values.contains(&cv), "{cv:?} was measured twice");
                code_values.push(cv);
                xyz.push(m);
                labs.push(lab(m, xyz[0]));
                r.measured(true);
            }
            Step::JudgeCollapse { corners } => {
                let l = corners_of(corners);
                let mut spread = 0.0f64;
                for i in 0..4 {
                    for j in i + 1..4 {
                        spread = spread.max(distance(l[i], l[j]));
                    }
                }
                r.collapse_judged(spread < 0.5);
            }
            Step::JudgeFlat { corners, center } => {
                let l = corners_of(corners);
                let mean = [0, 1, 2].map(|k| 0.25 * (l[0][k] + l[1][k] + l[2][k] + l[3][k]));
                let flat = distance(labs[center], mean) < 2.0;
                r.flat_judged(flat);
            }
            Step::Done => break,
        }
    }
    Probed { mesh: r.into_mesh(), code_values, xyz, labs }
}

#[test]
fn smooth_display_converges_no_folds_recovers_primaries() {
    let p = refine(&RefineParams::default(), smooth);

    // Adaptivity ran (more than one leaf per face) and nothing folded.
    assert!(
        p.mesh.patches.len() > 6,
        "expected subdivision beyond the 6 faces, got {} patches",
        p.mesh.patches.len()
    );
    assert_eq!(p.mesh.count(PatchStatus::Folded), 0, "no clamping expected");

    // Measured red corner lands on sRGB red xy (0.640, 0.330).
    let red = GridPoint { r: 8, g: 0, b: 0 };
    assert!(p.mesh.vertex_at(red).is_some());
    let i = p.code_values.iter().position(|cv| *cv == [1.0, 0.0, 0.0]).unwrap();
    assert_eq!(p.mesh.vertices[i].code_value, red);
    let sum: f64 = p.xyz[i].iter().sum();
    let (x, y) = (p.xyz[i][0] / sum, p.xyz[i][1] / sum);
    assert!((x - 0.640).abs() < 1e-3, "red x {x}");
    assert!((y - 0.330).abs() < 1e-3, "red y {y}");
}

#[test]
fn clamped_display_detects_folds() {
    let p = refine(&RefineParams::default(), clamped);

    // The collapsed high-saturation corners must register as folds.
    assert!(
        p.mesh.count(PatchStatus::Folded) > 0,
        "expected at least one folded (clamped) patch"
    );

    // White clamps to half scale, so the gamut is genuinely smaller, not
    // collapsed to nothing.
    let white = p.xyz[0];
    assert!(white[1] > 0.0 && white[1] < SRGB_TO_XYZ[1].iter().sum::<f64>());
}

#[test]
fn meshes_are_recorded() {
    let p = refine(&RefineParams { max_depth: 1, fold_levels: 3 }, smooth);
    let readings: Vec<VertexReading> = (0..p.xyz.len())
        .map(|i| VertexReading {
            code_value: triple(p.code_values[i]),
            xyz: triple(p.xyz[i]),
            lab: triple(p.labs[i]),
        })
        .collect();
    let g = p.mesh.to_capture(triple(p.xyz[0]), &readings);
    assert_eq!(g.white_xyz, triple(p.xyz[0]));
    assert_eq!(g.vertices.len(), p.mesh.vertices.len());
    assert_eq!(g.vertices[1].xyz, triple(p.xyz[1]));
    assert!(g.vertices.iter().all(|v| v.trustworthy));
    assert_eq!(g.patches.len(), p.mesh.patches.len());
    assert_eq!(g.patches[0].face, "R=0");
    assert!(["flat", "folded", "max_depth", "low_trust"].contains(&g.patches[0].status.as_str()));
    assert_eq!(face_label(2, 1), "B=1");
}

#[test]
fn untrusted_corners_stop_subdivision() {
    let mut r = refine_gamut(&RefineParams::default());
    loop {
        match r.next() {
            Step::Measure { .. } => r.measured(false),
            Step::JudgeCollapse { .. } => r.collapse_judged(false),
            Step::JudgeFlat { .. } => r.flat_judged(false),
            Step::Done => break,
        }
    }
    let mesh = r.into_mesh();
    assert_eq!(mesh.patches.len(), 6);
    assert_eq!(mesh.count(PatchStatus::LowTrust), 6);
    assert_eq!(mesh.vertices.len(), 8);
}

#[test]
fn a_curved_display_is_split_to_the_end() {
    let mut r = refine_gamut(&RefineParams { max_depth: 2, fold_levels: 3 });
    loop {
        match r.next() {
            Step::Measure { .. } => r.measured(true),
            Step::JudgeCollapse { .. } => r.collapse_judged(false),
            Step::JudgeFlat { .. } => r.flat_judged(false),
            Step::Done => break,
        }
    }
    let mesh = r.into_mesh();
    assert_eq!(mesh.patches.len(), 6 * 16);
    assert_eq!(mesh.count(PatchStatus::MaxDepth), 96);
    // The surface of a 5x5x5 grid.
    assert_eq!(mesh.vertices.len(), 125 - 27);
}

#[test]
fn fold_levels_count_the_large_sides() {
    assert_eq!(fold_levels(double(0.25)), 3);
    assert_eq!(fold_levels(double(0.2)), 3);
    assert_eq!(fold_levels(double(1.0)), 1);
    assert_eq!(fold_levels(double(1.5)), 0);
    assert_eq!(fold_levels(double(0.0)), 53);
    assert_eq!(fold_levels(double(f64::NAN)), 0);
}

// ---------------------------------------------------------------------------
// The coarse probe
// ---------------------------------------------------------------------------

#[test]
fn the_coarse_probe_measures_corners_and_centers() {
    let mut p = GamutProbe::start();
    let mut labels = Vec::new();
    while let Some(point) = p.next() {
        labels.push(point.label);
        let i = p.vertices.len();
        let m = triple([i as f64, 0.0, 0.0]);
        match p.measured(m, vec![]) {
            GamutEvent::Point { index, total, label, code_value, measured, .. } => {
                assert_eq!((index, total), (i, NUM_POINTS));
                assert_eq!(label, point.label);
                assert_eq!(code_value, probe_point(i).code_value);
                assert_eq!(measured, m);
            }
            other => panic!("{other:?}"),
        }
        assert_eq!(p.white(), if i >= 7 { triple([7.0, 0.0, 0.0]) } else { triple([0.0; 3]) });
    }
    assert_eq!(
        labels,
        [
            "black", "red", "green", "blue", "yellow", "cyan", "magenta", "white", "R=0", "R=1",
            "G=0", "G=1", "B=0", "B=1"
        ]
    );
}

#[test]
fn the_coarse_probe_can_be_stopped() {
    let mut p = GamutProbe::start();
    p.measured(triple([1.0, 1.0, 1.0]), vec![]);
    p.stop();
    assert!(p.next().is_none());
    assert_eq!(p.vertices.len(), 1);
    assert_eq!(p.white(), triple([0.0; 3]));
}

#[test]
fn countdowns_end_at_one() {
    assert_eq!(first_second(999), None);
    assert_eq!(first_second(6500), Some(6));
    assert_eq!(next_second(6, false), Some(5));
    assert_eq!(next_second(6, true), None);
    assert_eq!(next_second(1, false), None);
}

/// The mesh of a display on which nothing is planar: which code values can be
/// trusted, and whether everything collapses.
fn curved(max_depth: u32, trusted: fn(GridPoint) -> bool, collapses: bool) -> GamutMesh {
    let mut r = refine_gamut(&RefineParams { max_depth, fold_levels: 1 });
    loop {
        match r.next() {
            Step::Measure { code_value } => r.measured(trusted(code_value)),
            Step::JudgeCollapse { .. } => r.collapse_judged(collapses),
            Step::JudgeFlat { .. } => r.flat_judged(false),
            Step::Done => return r.into_mesh(),
        }
    }
}

#[test]
fn patches_number_between_the_faces_and_the_cells() {
    let full = curved(2, |_| true, false);
    assert_eq!(full.patches.len(), 6 * 16);
    assert_eq!(full.count(PatchStatus::MaxDepth), 6 * 16);
    let whole = curved(2, |_| true, true);
    assert_eq!(whole.patches.len(), 6);
    assert_eq!(whole.count(PatchStatus::Folded), 6);
    // Black cannot be trusted: the three faces that meet there stay whole.
    let dark = curved(2, |p| p.r + p.g + p.b > 0, false);
    assert_eq!(dark.patches.len(), 3 + 3 * 16);
    for mesh in [&full, &whole, &dark] {
        assert_eq!(mesh.patches.len() % 3, 0);
    }
}

#[test]
fn statuses_say_why_a_patch_was_not_split() {
    let mesh = curved(2, |p| p.r + p.g + p.b > 0, false);
    assert_eq!(mesh.count(PatchStatus::LowTrust), 3);
    for p in &mesh.patches {
        let corners = [p.corners.a, p.corners.b, p.corners.c, p.corners.d];
        let trusted = corners.iter().all(|i| mesh.vertices[*i].trustworthy);
        let low = mesh.vertices[p.corners.a].code_value;
        let high = mesh.vertices[p.corners.c].code_value;
        let extent = (high.r - low.r) + (high.g - low.g) + (high.b - low.b);
        match p.status {
            PatchStatus::LowTrust => assert!(!trusted && extent == 8),
            PatchStatus::MaxDepth => assert_eq!(extent, 2),
            _ => panic!("neither curved nor untrusted"),
        }
    }
}
