use tristim::display::color_mgmt::DescriptionState;
use tristim::display::surface::{
    await_configure, await_description, check_manager, configured_side, describe_output, fill_window,
    pick_output, pool_size, window_fraction, window_rect, Error, Mode, Rect, Wait,
};
use tristim::number::Double;

fn double(v: f64) -> Double {
    Double { bits: v.to_bits() }
}

fn window(w: i32, h: i32, fraction: f64) -> Rect {
    window_rect(w, h, double(fraction), double(fraction.sqrt()))
}

#[test]
fn windows_are_centred_and_scaled() {
    assert_eq!(window(100, 50, 1.0), Rect { x: 0, y: 0, w: 100, h: 50 });
    assert_eq!(window(100, 50, 0.25), Rect { x: 25, y: 12, w: 50, h: 25 });
    assert_eq!(window(3840, 2160, 0.1), {
        let w = (3840.0 * 0.1f64.sqrt()).round() as i32;
        let h = (2160.0 * 0.1f64.sqrt()).round() as i32;
        Rect { x: (3840 - w) / 2, y: (2160 - h) / 2, w, h }
    });
    // Never empty, and never larger than the surface.
    assert_eq!(window(10, 10, 1e-9), Rect { x: 4, y: 4, w: 1, h: 1 });
    for bad in [0.0, -1.0, 2.0, f64::NAN, f64::INFINITY] {
        assert_eq!(window(10, 20, bad), Rect { x: 0, y: 0, w: 10, h: 20 });
        assert_eq!(window(0, -5, bad), Rect { x: 0, y: 0, w: 0, h: -5 });
    }
}

#[test]
fn improper_fractions_mean_fullscreen() {
    assert_eq!(window_fraction(double(0.3)), double(0.3));
    for bad in [0.0, -0.5, 1.0, 7.0, f64::NAN] {
        assert_eq!(window_fraction(double(bad)), double(1.0));
    }
}

#[test]
fn the_window_is_painted_over_the_surround() {
    let mut canvas = vec![9u8; 4 * 3 * 2 + 1];
    let win = Rect { x: 1, y: 1, w: 2, h: 1 };
    fill_window(&mut canvas, 4, &[1, 2], &[7, 8], &win);
    let row = [1u8, 2, 1, 2, 1, 2, 1, 2];
    assert_eq!(&canvas[0..8], &row);
    assert_eq!(&canvas[8..16], &[1, 2, 7, 8, 7, 8, 1, 2]);
    assert_eq!(&canvas[16..24], &row);
    assert_eq!(canvas[24], 9);
}

#[test]
fn outputs_are_described_and_picked() {
    let modes = vec![
        Mode { current: false, width: 1, height: 2 },
        Mode { current: true, width: 1920, height: 1080 },
    ];
    let o = describe_output(Some("DP-4".into()), None, "ACME".into(), "X".into(), &modes);
    assert_eq!(o.name, "DP-4");
    assert_eq!(o.description, "");
    assert_eq!(o.size, Some((1920, 1080)));
    let o = describe_output(None, Some("d".into()), "m".into(), "x".into(), &vec![]);
    assert_eq!(o.name, "");
    assert_eq!(o.size, None);

    let names = vec![Some("A".to_string()), None, Some("B".to_string())];
    assert_eq!(pick_output(&names, "B").unwrap(), 2);
    match pick_output(&names, "C") {
        Err(have) => assert_eq!(have, ["A", "B"]),
        Ok(i) => panic!("found {i}"),
    }
}

#[test]
fn waiting_ends_with_an_event_or_a_deadline() {
    assert!(check_manager(true, true).is_ok());
    assert!(check_manager(false, false).is_ok());
    assert!(matches!(check_manager(true, false), Err(Error::NoColorManager)));
    assert!(matches!(await_configure(true, true), Ok(Wait::Over)));
    assert!(matches!(await_configure(false, false), Ok(Wait::Dispatch)));
    assert!(matches!(await_configure(false, true), Err(Error::NoInitialConfigure)));
    let pending = DescriptionState::Pending;
    assert!(matches!(await_description(&pending, false), Ok(Wait::Dispatch)));
    assert!(matches!(await_description(&pending, true), Err(Error::NoDescriptionReady)));
    let ready = DescriptionState::Ready { identity: 3 };
    assert!(matches!(await_description(&ready, true), Ok(Wait::Over)));
    let failed = DescriptionState::Failed { cause: "c".into(), message: "m".into() };
    assert!(matches!(await_description(&failed, false), Err(Error::DescriptionFailed { .. })));
    assert_eq!(configured_side(512, 0), 512);
    assert_eq!(configured_side(512, 800), 800);
    assert_eq!(pool_size(4), 512 * 512 * 8);
}
