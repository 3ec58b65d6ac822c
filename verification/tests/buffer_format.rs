use tristim::display::format::{BufferFormat, ChannelCodes, EncodedPixel, HALF_ONE};
use tristim::number::{Double, Triple};
use wayland_client::protocol::wl_shm::Format;

fn double(v: f64) -> Double {
    Double { bits: v.to_bits() }
}

fn half(v: f64) -> u16 {
    half::f16::from_f64(v).to_bits()
}

fn encode(f: BufferFormat, rgb: [f64; 3]) -> EncodedPixel {
    let codes = if f.is_float() {
        ChannelCodes { r: half(rgb[0]), g: half(rgb[1]), b: half(rgb[2]) }
    } else {
        f.quantized(Triple { a: double(rgb[0]), b: double(rgb[1]), c: double(rgb[2]) })
    };
    f.encode(codes)
}

#[test]
fn xrgb8888_layout_matches_legacy_packing() {
    // 0xFF_RR_GG_BB as a little-endian word.
    let px = encode(BufferFormat::Xrgb8888, [1.0, 0.5, 0.0]);
    let legacy = 0xFF_FF_80_00u32.to_le_bytes();
    assert_eq!(px.as_slice(), &legacy);
}

#[test]
fn xbgr16161616f_layout_matches_legacy_fp16_pixel() {
    // [R, G, B, X=1.0] as little-endian binary16.
    let rgb = [0.5081, 1.25, -0.25]; // incl. extended-range values
    let px = encode(BufferFormat::Xbgr16161616f, rgb);
    let mut legacy = Vec::new();
    for v in [rgb[0], rgb[1], rgb[2], 1.0] {
        legacy.extend_from_slice(&half::f16::from_f64(v).to_le_bytes());
    }
    assert_eq!(px.as_slice(), &legacy[..]);
}

#[test]
fn float_channels_do_not_clamp() {
    let px = encode(BufferFormat::Xbgr16161616f, [2.0, -1.0, 0.0]);
    let px = px.as_slice();
    let r = half::f16::from_le_bytes([px[0], px[1]]);
    let g = half::f16::from_le_bytes([px[2], px[3]]);
    assert_eq!(r.to_f64(), 2.0);
    assert_eq!(g.to_f64(), -1.0);
}

#[test]
fn unorm_channels_clamp_and_quantize() {
    let px = encode(BufferFormat::Xrgb2101010, [1.5, 0.5, -0.2]);
    let px = px.as_slice();
    let word = u32::from_le_bytes([px[0], px[1], px[2], px[3]]);
    assert_eq!((word >> 20) & 0x3FF, 1023); // R clamped to max
    assert_eq!((word >> 10) & 0x3FF, 512); // G = round(0.5 * 1023)
    assert_eq!(word & 0x3FF, 0); // B clamped to 0
    assert_eq!(word >> 30, 0b11); // X written opaque
}

#[test]
fn rgb565_packs_to_spec() {
    // White = all channels at max: 0xFFFF.
    assert_eq!(encode(BufferFormat::Rgb565, [1.0; 3]).as_slice(), &[0xFF, 0xFF]);
    // Pure green fills only the middle 6 bits.
    let px = encode(BufferFormat::Rgb565, [0.0, 1.0, 0.0]);
    let px = px.as_slice();
    let word = u16::from_le_bytes([px[0], px[1]]);
    assert_eq!(word, 0b0000_0111_1110_0000);
}

#[test]
fn rgb888_is_bgr_in_memory() {
    // [23:0] R:G:B little endian, so the bytes in memory are B, G, R.
    let px = encode(BufferFormat::Rgb888, [1.0, 0.0, 0.0]);
    assert_eq!(px.as_slice(), &[0x00, 0x00, 0xFF]);
}

#[test]
fn alpha_is_always_opaque() {
    let px = encode(BufferFormat::Argb8888, [0.0, 0.0, 0.0]);
    assert_eq!(px.as_slice(), &0xFF_00_00_00u32.to_le_bytes());
    let px = encode(BufferFormat::Rgba8888, [0.0, 0.0, 0.0]);
    assert_eq!(px.as_slice(), &0x00_00_00_FFu32.to_le_bytes());
}

#[test]
fn every_format_roundtrips_names_and_wl() {
    let all = BufferFormat::all();
    assert_eq!(all.len(), 48);
    for f in all {
        assert_eq!(BufferFormat::from_name(f.name()), Some(f), "{}", f.name());
        assert_eq!(BufferFormat::from_wl(f.wl_format()), Some(f), "{}", f.name());
        // bpp is consistent with the encoded pixel length.
        assert_eq!(encode(f, [0.5; 3]).as_slice().len(), f.bytes_per_pixel(), "{}", f.name());
        // every format names a sane depth
        assert!(f.color_depth() >= 2, "{}", f.name());
    }
}

#[test]
fn depth_reports_narrowest_color_channel() {
    assert_eq!(BufferFormat::Rgb565.color_depth(), 5);
    assert_eq!(BufferFormat::Rgb332.color_depth(), 2);
    assert_eq!(BufferFormat::Xrgb8888.color_depth(), 8);
    assert_eq!(BufferFormat::Xrgb2101010.color_depth(), 10);
    assert_eq!(BufferFormat::Xbgr16161616f.color_depth(), 16);
}

#[test]
fn wayland_codes_are_the_protocols() {
    assert_eq!(BufferFormat::Xrgb8888.wl_format(), u32::from(Format::Xrgb8888));
    assert_eq!(BufferFormat::Argb8888.wl_format(), u32::from(Format::Argb8888));
    assert_eq!(BufferFormat::Rgb565.wl_format(), u32::from(Format::Rgb565));
    assert_eq!(BufferFormat::Rgb332.wl_format(), u32::from(Format::Rgb332));
    assert_eq!(BufferFormat::Xrgb2101010.wl_format(), u32::from(Format::Xrgb2101010));
    assert_eq!(BufferFormat::Xbgr16161616f.wl_format(), u32::from(Format::Xbgr16161616f));
    assert_eq!(BufferFormat::Abgr16161616.wl_format(), u32::from(Format::Abgr16161616));
    assert_eq!(BufferFormat::from_wl(u32::from(Format::Nv12)), None);
}

#[test]
fn alpha_formats_are_told_apart() {
    assert!(BufferFormat::Argb8888.has_alpha());
    assert!(!BufferFormat::Xrgb8888.has_alpha());
    assert_eq!(BufferFormat::from_name("yuv420"), None);
    assert_eq!(HALF_ONE, half::f16::from_f64(1.0).to_bits());
}

/// Quantising agrees with multiplying, rounding and clamping in floating point.
#[test]
fn quantizing_follows_floating_point() {
    let mut state = 0x1234_5678_9abc_def0u64;
    for i in 0..20_000u64 {
        state = state.wrapping_mul(6364136223846793005).wrapping_add(1442695040888963407);
        let mut v = (state >> 11) as f64 / (1u64 << 53) as f64 * 1.25 - 0.125;
        if i % 3 == 0 {
            // Close to the ties.
            v = ((i % 255) as f64 + 0.5) / 255.0;
        }
        for (f, max) in [
            (BufferFormat::Xrgb8888, 255.0),
            (BufferFormat::Xrgb2101010, 1023.0),
            (BufferFormat::Xbgr16161616, 65535.0),
        ] {
            let want = (v.clamp(0.0, 1.0) * max).round() as u16;
            let got = f.quantized(Triple { a: double(v), b: double(v), c: double(v) });
            assert_eq!((got.r, got.g, got.b), (want, want, want), "{v} in {}", f.name());
        }
    }
    for v in [f64::NAN, -0.0, f64::INFINITY, f64::NEG_INFINITY, 5e-324, 1.0] {
        let want = (v.clamp(0.0, 1.0) * 255.0).round() as u16;
        let got = BufferFormat::Xrgb8888.quantized(Triple { a: double(v), b: double(v), c: double(v) });
        assert_eq!(got.r, want, "{v}");
    }
}
