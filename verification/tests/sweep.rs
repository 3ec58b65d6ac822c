use tristim::cli::sweep::{
    fits_gamma, lines, panel_rows, read_sweep, sweep_header, sweep_patches, sweep_row, GreyFigures,
    SweepCells, SweepError,
};
use tristim::number::{Double, Fraction};

fn double(v: f64) -> Double {
    Double { bits: v.to_bits() }
}

fn row(name: &str, level: f64) -> String {
    let n = format!("{level}");
    let cells = SweepCells {
        name: name.to_string(),
        code_value: (n.clone(), n.clone(), n),
        xyz: ("1.000000".to_string(), "2.500000".to_string(), "3.000000".to_string()),
        xy: ("0.310000".to_string(), "0.330000".to_string()),
    };
    sweep_row(cells, &[1, 2, 3, 4, 5, 65535])
}

#[test]
fn patches_of_a_sweep() {
    let steps = 4;
    let levels: Vec<Double> = (0..steps).map(|k| double(k as f64 / 3.0)).collect();
    let p = sweep_patches(&levels);
    let names: Vec<&str> = p.iter().map(|p| p.name.as_str()).collect();
    assert_eq!(
        names,
        [
            "grey_000", "grey_333", "grey_666", "grey_1000", "red_250", "grn_250", "blu_250",
            "red_500", "grn_500", "blu_500", "red_750", "grn_750", "blu_750", "red_1000",
            "grn_1000", "blu_1000"
        ]
    );
    assert_eq!(p[1].code_value.g, Fraction { num: 1, den: 3 });
    assert_eq!(p[11].code_value.g, Fraction { num: 3, den: 4 });
    assert_eq!(p[11].code_value.r, Fraction { num: 0, den: 1 });
    // Small levels keep three digits.
    let p = sweep_patches(&vec![double(0.0625), double(f64::NAN)]);
    assert_eq!((p[0].name.as_str(), p[1].name.as_str()), ("grey_062", "grey_000"));
}

#[test]
fn written_tables_are_read_back() {
    let text = format!("{}\n{}\n\n{}\r\n", sweep_header(), row("grey_000", 0.0), row("a", 0.25));
    let rows = read_sweep(&text).unwrap();
    assert_eq!(rows.len(), 2);
    assert_eq!((rows[0].name.as_str(), rows[0].r_in.as_str()), ("grey_000", "0"));
    assert_eq!((rows[1].name.as_str(), rows[1].b_in.as_str()), ("a", "0.25"));
    assert_eq!((rows[1].big_x.as_str(), rows[1].big_y.as_str()), ("1.000000", "2.500000"));
    assert_eq!((rows[1].x.as_str(), rows[1].y.as_str()), ("0.310000", "0.330000"));
    assert_eq!(
        row("a", 0.25),
        "a,0.25,0.25,0.25,1,2,3,4,5,65535,1.000000,2.500000,3.000000,0.310000,0.330000"
    );
}

#[test]
fn bad_tables_are_refused() {
    let message = |text: &str| read_sweep(text).unwrap_err().message("f.csv", "bad float");
    assert_eq!(message(""), "empty file");
    assert_eq!(message("name,Y\n"), "unrecognized header in f.csv: name,Y");
    assert_eq!(
        message(&format!("{}\n\n1,2,3\n", sweep_header())),
        "f.csv: line 3 has only 3 columns"
    );
    let text = format!("{}\n{}", sweep_header(), row("a", 0.5).replace("0.330000", "y"));
    assert_eq!(message(&text), "bad float");
    match read_sweep(&text) {
        Err(SweepError::Number(cell)) => assert_eq!(cell, "y"),
        other => panic!("{other:?}"),
    }
    // The raw counts are not looked at.
    let text = format!("{}\n{}", sweep_header(), row("a", 0.5).replace("65535", "?"));
    assert!(read_sweep(&text).is_ok());
}

#[test]
fn panels_need_five_patches() {
    let names = ["grey_000", "red_1000", "grey_1000", "grn_1000", "blu_1000", "red_1000"];
    let table = |names: &[&str]| {
        let rows: Vec<String> = names.iter().map(|n| row(n, 1.0)).collect();
        read_sweep(&format!("{}\n{}", sweep_header(), rows.join("\n"))).unwrap()
    };
    let p = panel_rows(&table(&names)).unwrap();
    assert_eq!((p.white, p.black, p.red, p.green, p.blue), (2, 0, 1, 3, 4));
    assert_eq!(panel_rows(&table(&names[..2])).unwrap_err(), "missing grey_1000 patch");
    assert_eq!(panel_rows(&table(&names[1..])).unwrap_err(), "missing grey_000 patch");
    assert_eq!(panel_rows(&table(&names[..4])).unwrap_err(), "missing blu_1000 patch");
    let without = ["grey_000", "grey_1000", "grn_1000", "blu_1000"];
    assert_eq!(panel_rows(&table(&without)).unwrap_err(), "missing red_1000 patch");
    let without = ["grey_000", "grey_1000", "red_1000", "blu_1000"];
    assert_eq!(panel_rows(&table(&without)).unwrap_err(), "missing grn_1000 patch");
}

#[test]
fn gamma_is_fitted_to_middle_greys() {
    let fits = |name: &str, v: f64, y: f64, peak: f64| {
        let f = GreyFigures {
            r_in: double(v),
            g_in: double(v),
            b_in: double(v),
            luminance: double(y),
        };
        fits_gamma(name, &f, double(peak))
    };
    assert!(fits("grey_150", 0.15, 1.0, 1.0));
    assert!(fits("grey_950", 0.95, 1.0, 1.0));
    assert!(!fits("grey_149", 0.1499, 1.0, 1.0));
    assert!(!fits("grey_951", 0.9501, 1.0, 1.0));
    assert!(!fits("red_500", 0.5, 1.0, 1.0));
    assert!(!fits("grey_500", f64::NAN, 1.0, 1.0));
    assert!(!fits("grey_500", 0.5, -0.0, 1.0));
    assert!(!fits("grey_500", 0.5, 1.0, 0.0));
    let f = GreyFigures {
        r_in: double(0.5),
        g_in: double(0.5),
        b_in: double(0.6),
        luminance: double(1.0),
    };
    assert!(!fits_gamma("grey_500", &f, double(1.0)));
}

#[test]
fn lines_end_in_line_feeds() {
    for text in ["", "a", "a\n", "a\r\nb", "\n\n", "a\r", "a\r\r\n", "\r\n"] {
        let want: Vec<&str> = text.lines().collect();
        assert_eq!(lines(text), want, "{text:?}");
    }
}
