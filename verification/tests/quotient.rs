use tristim::gather::gamut::{code_of, GridPoint};
use tristim::gather::sequence::{scatter, SCATTER_SEED};
use tristim::number::{CodeValue, Fraction};
use tristim::quotient::{code_numbers, quotient};

fn divided(num: u64, den: u64) -> f64 {
    f64::from_bits(quotient(&Fraction { num, den }).bits)
}

#[test]
fn fractions_have_their_nearest_doubles() {
    assert_eq!(quotient(&Fraction { num: 0, den: 7 }).bits, 0);
    assert_eq!(quotient(&Fraction { num: 1, den: 1 }).bits, 0x3ff0_0000_0000_0000);
    assert_eq!(quotient(&Fraction { num: 1, den: 3 }).bits, 0x3fd5_5555_5555_5555);
    assert_eq!(quotient(&Fraction { num: 2, den: 3 }).bits, 0x3fe5_5555_5555_5555);
    assert_eq!(quotient(&Fraction { num: 1, den: 10 }).bits, 0x3fb9_9999_9999_999a);
    assert_eq!(quotient(&Fraction { num: 7, den: 2 }).bits, 0x400c_0000_0000_0000);
    assert_eq!(divided(1, 1 << 53), 2f64.powi(-53));
    assert_eq!(divided(1, 1 << 63), 2f64.powi(-63));
}

#[test]
fn ties_go_to_the_even_fraction() {
    // 2^53 + 1 and 2^53 + 3 over a power of two lie half way between doubles.
    let base = 1u64 << 53;
    assert_eq!(divided(base + 1, 1), base as f64);
    assert_eq!(divided(base + 3, 1), (base + 4) as f64);
    assert_eq!(divided(u64::MAX, 1), 2f64.powi(64));
    assert_eq!(divided(u64::MAX, u64::MAX), 1.0);
    // Rounding up carries into the exponent.
    assert_eq!(divided((1 << 54) - 1, 1), 2f64.powi(54));
}

#[test]
fn fractions_divide_as_floating_point_does() {
    let edges = [
        1,
        2,
        3,
        5,
        10,
        255,
        1023,
        4095,
        65535,
        (1 << 52) - 1,
        1 << 52,
        (1 << 53) - 1,
        1 << 53,
        (1 << 53) + 1,
        (1 << 63) + 1025,
        u64::MAX - 1,
        u64::MAX,
    ];
    for &num in &edges {
        for &den in &edges {
            assert_eq!(divided(num, den), num as f64 / den as f64, "{num} / {den}");
        }
    }
    for n in 2..300u64 {
        for k in 0..n {
            assert_eq!(divided(k, n - 1), k as f64 / (n - 1) as f64, "{k} / {}", n - 1);
        }
    }
    let mut x = 0x9e37_79b9_7f4a_7c15u64;
    for shift in 0..60 {
        for _ in 0..50 {
            x = x.wrapping_mul(6364136223846793005).wrapping_add(1442695040888963407);
            let (num, den) = (x >> shift, (x.rotate_left(29) >> (59 - shift)) | 1);
            assert_eq!(divided(num, den), num as f64 / den as f64, "{num} / {den}");
        }
    }
}

#[test]
fn code_values_are_divided_by_channel() {
    let c = CodeValue {
        r: Fraction { num: 1, den: 4 },
        g: Fraction { num: 1, den: 3 },
        b: Fraction { num: 0, den: 1 },
    };
    let t = code_numbers(&c);
    assert_eq!(
        [t.a, t.b, t.c].map(|d| f64::from_bits(d.bits)),
        [0.25, 1.0 / 3.0, 0.0]
    );
    for p in scatter(20, SCATTER_SEED) {
        let t = code_numbers(&p);
        let unit = (1u64 << 53) as f64;
        assert_eq!(f64::from_bits(t.a.bits), p.r.num as f64 / unit);
        assert_eq!(f64::from_bits(t.b.bits), p.g.num as f64 / unit);
        assert_eq!(f64::from_bits(t.c.bits), p.b.num as f64 / unit);
    }
}

#[test]
fn grid_points_are_fractions_of_full_scale() {
    let c = code_of(GridPoint { r: 8, g: 3, b: 0 }, 3);
    assert_eq!(c.r, Fraction { num: 8, den: 8 });
    assert_eq!(c.g, Fraction { num: 3, den: 8 });
    assert_eq!(c.b, Fraction { num: 0, den: 8 });
    let t = code_numbers(&c);
    assert_eq!([t.a, t.b, t.c].map(|d| f64::from_bits(d.bits)), [1.0, 0.375, 0.0]);
    assert_eq!(code_of(GridPoint { r: 1, g: 0, b: 1 }, 0).r, Fraction { num: 1, den: 1 });
}
