use tristim::gather::sequence::{
    grey_ramp, parse_count, parse_scatter, parse_sequence, primary_ramps, scatter, scatter_accepted,
    SCATTER_SEED,
};
use tristim::number::{CodeValue, Fraction};

fn number(f: Fraction) -> f64 {
    f.num as f64 / f.den as f64
}

fn numbers(c: &CodeValue) -> [f64; 3] {
    [number(c.r), number(c.g), number(c.b)]
}

#[test]
fn grey_ramp_spans_zero_to_one() {
    let r = grey_ramp(11);
    assert_eq!(r.len(), 11);
    assert_eq!(numbers(&r[0]), [0.0, 0.0, 0.0]);
    assert_eq!(numbers(&r[10]), [1.0, 1.0, 1.0]);
}

#[test]
fn primary_ramps_cover_three_channels() {
    let r = primary_ramps(5);
    assert_eq!(r.len(), 3 * 4); // (n-1) per channel
    assert_eq!(numbers(&r[3]), [1.0, 0.0, 0.0]); // last red step = full red
    assert_eq!(numbers(&r[7]), [0.0, 1.0, 0.0]); // last green step = full green
}

#[test]
fn scatter_is_deterministic_and_in_range() {
    let a = scatter(16, 0x1234);
    let b = scatter(16, 0x1234);
    assert_eq!(a, b);
    assert_ne!(scatter(16, 0x1234), scatter(16, 0x5678));
    for p in a {
        for c in numbers(&p) {
            assert!((0.0..1.0).contains(&c), "{c} out of range");
        }
    }
}

#[test]
fn scatter_accepted_fills_to_count_with_only_accepted_points() {
    // Reject the half-cube x >= 0.5; we should still get exactly 20 points, all
    // in the accepted half.
    let pts = scatter_accepted(20, 0x99, |p: CodeValue| number(p.r) < 0.5);
    assert_eq!(pts.len(), 20);
    assert!(pts.iter().all(|p| number(p.r) < 0.5));
}

#[test]
fn scatter_accepted_all_matches_scatter() {
    assert_eq!(scatter(16, 0x1234), scatter_accepted(16, 0x1234, |_| true));
}

#[test]
fn hopeless_acceptance_gives_up() {
    assert!(scatter_accepted(3, 7, |_| false).is_empty());
}

/// The stream is that of splitmix64, its top 53 bits as a fraction.
#[test]
fn scatter_follows_splitmix64() {
    let mut state = 0x1234u64;
    let mut next = || {
        state = state.wrapping_add(0x9e37_79b9_7f4a_7c15);
        let mut z = state;
        z = (z ^ (z >> 30)).wrapping_mul(0xbf58_476d_1ce4_e5b9);
        z = (z ^ (z >> 27)).wrapping_mul(0x94d0_49bb_1331_11eb);
        z ^= z >> 31;
        (z >> 11) as f64 / (1u64 << 53) as f64
    };
    for p in scatter(8, 0x1234) {
        assert_eq!(numbers(&p), [next(), next(), next()]);
    }
}

#[test]
fn specs_are_read() {
    assert_eq!(parse_sequence("grey:3").unwrap(), grey_ramp(3));
    assert_eq!(parse_sequence("gray").unwrap(), grey_ramp(11));
    assert_eq!(parse_sequence("primaries").unwrap(), primary_ramps(5));
    assert_eq!(parse_sequence("scatter:4").unwrap(), scatter(4, SCATTER_SEED));
    assert_eq!(
        parse_sequence("nope").unwrap_err(),
        "unknown sequence \"nope\" (known: grey, primaries, scatter)"
    );
    assert_eq!(
        parse_sequence("grey:x").unwrap_err(),
        "bad count \"x\" (expected a positive integer)"
    );
    assert_eq!(parse_scatter("scatter:9").unwrap(), Some(9));
    assert_eq!(parse_scatter("scatter").unwrap(), Some(32));
    assert_eq!(parse_scatter("grey:9").unwrap(), None);
    assert!(parse_scatter("scatter:-1").is_err());
    assert_eq!(parse_count("", 5).unwrap(), 5);
    assert_eq!(parse_count("+7", 5).unwrap(), 7);
}
