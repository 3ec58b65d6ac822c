use tristim::number::{greatest_of, power_of_two, Double};
use tristim::scale::{quantize, rounded, signed, truncated, unsigned, whole};
use tristim::text::{
    contains_text, decimal, is_float, is_white_space, join, pad, parse_u64, same_text, split,
    starts_with, trim,
};

fn double(v: f64) -> Double {
    Double { bits: v.to_bits() }
}

#[test]
fn whole_numbers_are_written_and_read() {
    for n in [0, 7, 10, 65535, u64::MAX] {
        assert_eq!(decimal(n), n.to_string());
        assert_eq!(parse_u64(&decimal(n)), Some(n));
    }
    for s in ["", "+", "-0", "-1", "+5", "007", "1 ", "18446744073709551616", "\u{0661}", "++1"] {
        assert_eq!(parse_u64(s), s.parse().ok(), "{s:?}");
    }
}

#[test]
fn floats_are_recognized() {
    for s in [
        "", "+", "-", ".", "1", "-1.5", "+.5", "5.", "1e5", "1E-5", "1e+", "e5", ".e1", "1.5e3.2",
        "inf", "-Infinity", "NaN", "+nan", "infinit", "0x10", "1_000", " 1", "1,5", "--1",
        "\u{0661}", "1e99999", "INF", "nAn",
    ] {
        assert_eq!(is_float(s), s.parse::<f64>().is_ok(), "{s:?}");
    }
}

#[test]
fn white_space_is_trimmed() {
    for s in ["", " ", " a b ", "\ta\r\n", "\u{a0}x\u{3000}", "\u{200b}x", "\u{85}\u{2028}y"] {
        assert_eq!(trim(s), s.trim(), "{s:?}");
    }
    for n in 0..0x3100u32 {
        if let Some(c) = char::from_u32(n) {
            assert_eq!(is_white_space(c), c.is_whitespace(), "{n:x}");
        }
    }
}

#[test]
fn texts_are_split_and_joined() {
    for s in ["", ",", "a,,b", ",a,", "abc"] {
        let parts: Vec<&str> = s.split(',').collect();
        let got = split(s, ',');
        assert_eq!(got, parts);
        assert_eq!(join(&got, ','), s);
    }
    assert_eq!(join(&vec![], ','), "");
    assert_eq!(pad("7", 3, '0'), "007");
    assert_eq!(pad("1234", 3, '0'), "1234");
    assert!(starts_with("grey_1", "grey_") && !starts_with("gre", "grey_"));
    assert!(contains_text("a,X,Y", ",X,") && !contains_text("aXY", ",X,"));
    assert!(contains_text("", "") && same_text("a", "a") && !same_text("a", "A"));
}

#[test]
fn doubles_compare_as_numbers() {
    let all = [
        0.0, -0.0, 1.0, -1.0, 5e-324, -5e-324, f64::MAX, f64::INFINITY, f64::NEG_INFINITY, f64::NAN,
    ];
    for a in all {
        assert_eq!(double(a).is_nan(), a.is_nan());
        assert_eq!(double(a).is_at_most_zero(), a <= 0.0, "{a}");
        for b in all {
            assert_eq!(double(a).is_less(&double(b)), a < b, "{a} {b}");
            let m = f64::from_bits(double(a).max(&double(b)).bits);
            assert!(m == a.max(b) || m.is_nan() && a.max(b).is_nan(), "{a} {b}");
        }
    }
    assert_eq!(greatest_of(&vec![]), double(0.0));
    assert_eq!(greatest_of(&vec![double(1.0), double(3.0), double(2.0)]), double(3.0));
    assert_eq!(greatest_of(&vec![double(-1.0)]), double(0.0));
    for v in [1.0, 3.0, 0.0005, 1e-300, 400.0, 601.0, 5e-324, 1.5e-323, 1e-310] {
        assert_eq!(double(v).halved(), double(v * 0.5), "{v:e}");
    }
    assert_eq!(power_of_two(52), 1 << 52);
}

#[test]
fn products_are_rounded_as_ieee_does() {
    let mut values = vec![0.0, 0.5, 1.0, 0.1, 0.25, 0.3127, 1.0 / 3.0, 2.0, 1e-5, 1e-310, 4e9, 1e15];
    let mut seed = 1u64;
    for _ in 0..2000 {
        seed = seed.wrapping_mul(6364136223846793005).wrapping_add(1442695040888963407);
        values.push((seed >> 11) as f64 / (1u64 << 53) as f64 * 1.2);
    }
    for v in values {
        for f in [1u32, 255, 1000, 1023, 10_000, 65535, 1_000_000] {
            let p = v * f as f64;
            assert_eq!(rounded(&double(v), f), p.round() as u64, "{v} {f}");
            assert_eq!(truncated(&double(v), f), p as u64, "{v} {f}");
            assert_eq!(unsigned(double(v), f, u32::MAX as u64), (p.round() as u32) as u64);
            assert_eq!(signed(double(-v), f), (-p).round() as i32, "{v} {f}");
            assert_eq!(whole(double(v), f), p as u32, "{v} {f}");
        }
        for max in [1u16, 3, 31, 255, 1023, 65535] {
            let q = (v.clamp(0.0, 1.0) * max as f64).round() as u16;
            assert_eq!(quantize(double(v), max), q, "{v} {max}");
        }
    }
    for v in [-1.0, -0.0, f64::NEG_INFINITY, f64::NAN] {
        assert_eq!(unsigned(double(v), 10, 99), 0);
        assert_eq!(quantize(double(v), 255), 0);
    }
    assert_eq!(unsigned(double(f64::INFINITY), 10, 99), 99);
    assert_eq!(signed(double(f64::NEG_INFINITY), 10), i32::MIN);
    assert_eq!(signed(double(f64::NAN), 10), 0);
    assert_eq!(quantize(double(2.0), 255), 255);
}
