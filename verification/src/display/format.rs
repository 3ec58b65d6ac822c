//! Buffer pixel formats: every RGB-family `wl_shm` format, with one
//! table-driven encoder.
//!
//! Each format is described by its channel fields read from the most to the
//! least significant end of a little-endian word, and by whether the channels
//! are unsigned-normalised integers or binary16 floats.
//! [`BufferFormat::encode`] packs one channel triple into that word.
//!
//! Alpha and padding channels are always written fully opaque, so a compositor
//! that samples them sees a sane value. Formats that are not RGB (luma-chroma
//! and planar ones, single- and dual-channel ones) are left out, and so is
//! `abgr32323232f`, whose documented layout contradicts its name.
use vstd::arithmetic::power2::{lemma2_to64, lemma2_to64_rest, lemma_pow2_adds, lemma_pow2_pos, lemma_pow2_strictly_increases, pow2};
use vstd::prelude::*;
use vstd::slice::slice_subrange;

use crate::driver::bytes::le_value;
use crate::number::{power_of_two, Double, Triple};
use crate::scale::{channel_code, quantize, zero_scales_to_zero};
use crate::text::{decimal_text, digit_char, same_text, text_key};

verus! {

/// One channel of a pixel word.
#[derive(Clone, Copy, Debug, PartialEq, Eq, Structural)]
pub enum Chan {
    R,
    G,
    B,
    /// Alpha, written fully opaque.
    A,
    /// Padding, written like alpha.
    X,
}

/// One field of a pixel word: a channel and its width in bits.
#[derive(Clone, Copy, Debug, PartialEq, Eq, Structural)]
pub struct Field {
    pub chan: Chan,
    pub width: u8,
}

/// The colour channels of a pixel as they are stored: integers for
/// unsigned-normalised channels, binary16 patterns for float channels.
#[derive(Clone, Copy, Debug, PartialEq, Eq, Structural)]
pub struct ChannelCodes {
    pub r: u16,
    pub g: u16,
    pub b: u16,
}

/// The binary16 pattern of 1.0.
pub const HALF_ONE: u16 = 0x3c00;

/// Buffer pixel format of the patch surface. A name lists the channels from the
/// most to the least significant end of a little-endian word, so `Xrgb8888` has
/// blue in the lowest byte.
///
/// Only `Xrgb8888` and `Argb8888` are mandatory for a compositor; everything
/// else must be advertised.
#[derive(Clone, Copy, Debug, PartialEq, Eq, Structural, Hash)]
pub enum BufferFormat {
    Rgb332,
    Bgr233,
    Xrgb4444,
    Xbgr4444,
    Rgbx4444,
    Bgrx4444,
    Argb4444,
    Abgr4444,
    Rgba4444,
    Bgra4444,
    Xrgb1555,
    Xbgr1555,
    Rgbx5551,
    Bgrx5551,
    Argb1555,
    Abgr1555,
    Rgba5551,
    Bgra5551,
    Rgb565,
    Bgr565,
    Rgb888,
    Bgr888,
    Xrgb8888,
    Xbgr8888,
    Rgbx8888,
    Bgrx8888,
    Argb8888,
    Abgr8888,
    Rgba8888,
    Bgra8888,
    Xrgb2101010,
    Xbgr2101010,
    Rgbx1010102,
    Bgrx1010102,
    Argb2101010,
    Abgr2101010,
    Rgba1010102,
    Bgra1010102,
    Rgb161616,
    Bgr161616,
    Xrgb16161616,
    Xbgr16161616,
    Argb16161616,
    Abgr16161616,
    Xrgb16161616f,
    Xbgr16161616f,
    Argb16161616f,
    Abgr16161616f,
}

/// Every format, in table order.
pub open spec fn all_formats() -> Seq<BufferFormat> {
    seq![
        BufferFormat::Rgb332,
        BufferFormat::Bgr233,
        BufferFormat::Xrgb4444,
        BufferFormat::Xbgr4444,
        BufferFormat::Rgbx4444,
        BufferFormat::Bgrx4444,
        BufferFormat::Argb4444,
        BufferFormat::Abgr4444,
        BufferFormat::Rgba4444,
        BufferFormat::Bgra4444,
        BufferFormat::Xrgb1555,
        BufferFormat::Xbgr1555,
        BufferFormat::Rgbx5551,
        BufferFormat::Bgrx5551,
        BufferFormat::Argb1555,
        BufferFormat::Abgr1555,
        BufferFormat::Rgba5551,
        BufferFormat::Bgra5551,
        BufferFormat::Rgb565,
        BufferFormat::Bgr565,
        BufferFormat::Rgb888,
        BufferFormat::Bgr888,
        BufferFormat::Xrgb8888,
        BufferFormat::Xbgr8888,
        BufferFormat::Rgbx8888,
        BufferFormat::Bgrx8888,
        BufferFormat::Argb8888,
        BufferFormat::Abgr8888,
        BufferFormat::Rgba8888,
        BufferFormat::Bgra8888,
        BufferFormat::Xrgb2101010,
        BufferFormat::Xbgr2101010,
        BufferFormat::Rgbx1010102,
        BufferFormat::Bgrx1010102,
        BufferFormat::Argb2101010,
        BufferFormat::Abgr2101010,
        BufferFormat::Rgba1010102,
        BufferFormat::Bgra1010102,
        BufferFormat::Rgb161616,
        BufferFormat::Bgr161616,
        BufferFormat::Xrgb16161616,
        BufferFormat::Xbgr16161616,
        BufferFormat::Argb16161616,
        BufferFormat::Abgr16161616,
        BufferFormat::Xrgb16161616f,
        BufferFormat::Xbgr16161616f,
        BufferFormat::Argb16161616f,
        BufferFormat::Abgr16161616f,
    ]
}

impl BufferFormat {
    /// The format's place in the table.
    pub open spec fn position(self) -> int {
        match self {
            BufferFormat::Rgb332 => 0,
            BufferFormat::Bgr233 => 1,
            BufferFormat::Xrgb4444 => 2,
            BufferFormat::Xbgr4444 => 3,
            BufferFormat::Rgbx4444 => 4,
            BufferFormat::Bgrx4444 => 5,
            BufferFormat::Argb4444 => 6,
            BufferFormat::Abgr4444 => 7,
            BufferFormat::Rgba4444 => 8,
            BufferFormat::Bgra4444 => 9,
            BufferFormat::Xrgb1555 => 10,
            BufferFormat::Xbgr1555 => 11,
            BufferFormat::Rgbx5551 => 12,
            BufferFormat::Bgrx5551 => 13,
            BufferFormat::Argb1555 => 14,
            BufferFormat::Abgr1555 => 15,
            BufferFormat::Rgba5551 => 16,
            BufferFormat::Bgra5551 => 17,
            BufferFormat::Rgb565 => 18,
            BufferFormat::Bgr565 => 19,
            BufferFormat::Rgb888 => 20,
            BufferFormat::Bgr888 => 21,
            BufferFormat::Xrgb8888 => 22,
            BufferFormat::Xbgr8888 => 23,
            BufferFormat::Rgbx8888 => 24,
            BufferFormat::Bgrx8888 => 25,
            BufferFormat::Argb8888 => 26,
            BufferFormat::Abgr8888 => 27,
            BufferFormat::Rgba8888 => 28,
            BufferFormat::Bgra8888 => 29,
            BufferFormat::Xrgb2101010 => 30,
            BufferFormat::Xbgr2101010 => 31,
            BufferFormat::Rgbx1010102 => 32,
            BufferFormat::Bgrx1010102 => 33,
            BufferFormat::Argb2101010 => 34,
            BufferFormat::Abgr2101010 => 35,
            BufferFormat::Rgba1010102 => 36,
            BufferFormat::Bgra1010102 => 37,
            BufferFormat::Rgb161616 => 38,
            BufferFormat::Bgr161616 => 39,
            BufferFormat::Xrgb16161616 => 40,
            BufferFormat::Xbgr16161616 => 41,
            BufferFormat::Argb16161616 => 42,
            BufferFormat::Abgr16161616 => 43,
            BufferFormat::Xrgb16161616f => 44,
            BufferFormat::Xbgr16161616f => 45,
            BufferFormat::Argb16161616f => 46,
            BufferFormat::Abgr16161616f => 47,
        }
    }

    /// Every format of the table, in order.
    pub fn all() -> (res: Vec<BufferFormat>)
        ensures
            res@ == all_formats(),
    {
        let mut v: Vec<BufferFormat> = Vec::new();
        v.push(BufferFormat::Rgb332);
        v.push(BufferFormat::Bgr233);
        v.push(BufferFormat::Xrgb4444);
        v.push(BufferFormat::Xbgr4444);
        v.push(BufferFormat::Rgbx4444);
        v.push(BufferFormat::Bgrx4444);
        v.push(BufferFormat::Argb4444);
        v.push(BufferFormat::Abgr4444);
        v.push(BufferFormat::Rgba4444);
        v.push(BufferFormat::Bgra4444);
        v.push(BufferFormat::Xrgb1555);
        v.push(BufferFormat::Xbgr1555);
        assert(v@ == all_formats().take(12));
        v.push(BufferFormat::Rgbx5551);
        v.push(BufferFormat::Bgrx5551);
        v.push(BufferFormat::Argb1555);
        v.push(BufferFormat::Abgr1555);
        v.push(BufferFormat::Rgba5551);
        v.push(BufferFormat::Bgra5551);
        v.push(BufferFormat::Rgb565);
        v.push(BufferFormat::Bgr565);
        v.push(BufferFormat::Rgb888);
        v.push(BufferFormat::Bgr888);
        v.push(BufferFormat::Xrgb8888);
        v.push(BufferFormat::Xbgr8888);
        assert(v@ == all_formats().take(24));
        v.push(BufferFormat::Rgbx8888);
        v.push(BufferFormat::Bgrx8888);
        v.push(BufferFormat::Argb8888);
        v.push(BufferFormat::Abgr8888);
        v.push(BufferFormat::Rgba8888);
        v.push(BufferFormat::Bgra8888);
        v.push(BufferFormat::Xrgb2101010);
        v.push(BufferFormat::Xbgr2101010);
        v.push(BufferFormat::Rgbx1010102);
        v.push(BufferFormat::Bgrx1010102);
        v.push(BufferFormat::Argb2101010);
        v.push(BufferFormat::Abgr2101010);
        assert(v@ == all_formats().take(36));
        v.push(BufferFormat::Rgba1010102);
        v.push(BufferFormat::Bgra1010102);
        v.push(BufferFormat::Rgb161616);
        v.push(BufferFormat::Bgr161616);
        v.push(BufferFormat::Xrgb16161616);
        v.push(BufferFormat::Xbgr16161616);
        v.push(BufferFormat::Argb16161616);
        v.push(BufferFormat::Abgr16161616);
        v.push(BufferFormat::Xrgb16161616f);
        v.push(BufferFormat::Xbgr16161616f);
        v.push(BufferFormat::Argb16161616f);
        v.push(BufferFormat::Abgr16161616f);
        assert(v@ == all_formats());
        v
    }

    /// The `wl_shm` code of the format.
    pub open spec fn wl_code(self) -> u32 {
        match self {
            BufferFormat::Rgb332 => 0x38424752,
            BufferFormat::Bgr233 => 0x38524742,
            BufferFormat::Xrgb4444 => 0x32315258,
            BufferFormat::Xbgr4444 => 0x32314258,
            BufferFormat::Rgbx4444 => 0x32315852,
            BufferFormat::Bgrx4444 => 0x32315842,
            BufferFormat::Argb4444 => 0x32315241,
            BufferFormat::Abgr4444 => 0x32314241,
            BufferFormat::Rgba4444 => 0x32314152,
            BufferFormat::Bgra4444 => 0x32314142,
            BufferFormat::Xrgb1555 => 0x35315258,
            BufferFormat::Xbgr1555 => 0x35314258,
            BufferFormat::Rgbx5551 => 0x35315852,
            BufferFormat::Bgrx5551 => 0x35315842,
            BufferFormat::Argb1555 => 0x35315241,
            BufferFormat::Abgr1555 => 0x35314241,
            BufferFormat::Rgba5551 => 0x35314152,
            BufferFormat::Bgra5551 => 0x35314142,
            BufferFormat::Rgb565 => 0x36314752,
            BufferFormat::Bgr565 => 0x36314742,
            BufferFormat::Rgb888 => 0x34324752,
            BufferFormat::Bgr888 => 0x34324742,
            BufferFormat::Xrgb8888 => 1,
            BufferFormat::Xbgr8888 => 0x34324258,
            BufferFormat::Rgbx8888 => 0x34325852,
            BufferFormat::Bgrx8888 => 0x34325842,
            BufferFormat::Argb8888 => 0,
            BufferFormat::Abgr8888 => 0x34324241,
            BufferFormat::Rgba8888 => 0x34324152,
            BufferFormat::Bgra8888 => 0x34324142,
            BufferFormat::Xrgb2101010 => 0x30335258,
            BufferFormat::Xbgr2101010 => 0x30334258,
            BufferFormat::Rgbx1010102 => 0x30335852,
            BufferFormat::Bgrx1010102 => 0x30335842,
            BufferFormat::Argb2101010 => 0x30335241,
            BufferFormat::Abgr2101010 => 0x30334241,
            BufferFormat::Rgba1010102 => 0x30334152,
            BufferFormat::Bgra1010102 => 0x30334142,
            BufferFormat::Rgb161616 => 0x38344752,
            BufferFormat::Bgr161616 => 0x38344742,
            BufferFormat::Xrgb16161616 => 0x38345258,
            BufferFormat::Xbgr16161616 => 0x38344258,
            BufferFormat::Argb16161616 => 0x38345241,
            BufferFormat::Abgr16161616 => 0x38344241,
            BufferFormat::Xrgb16161616f => 0x48345258,
            BufferFormat::Xbgr16161616f => 0x48344258,
            BufferFormat::Argb16161616f => 0x48345241,
            BufferFormat::Abgr16161616f => 0x48344241,
        }
    }

    /// The `wl_shm` code of the format.
    pub fn wl_format(self) -> (res: u32)
        ensures
            res == self.wl_code(),
    {
        match self {
            BufferFormat::Rgb332 => 0x38424752,
            BufferFormat::Bgr233 => 0x38524742,
            BufferFormat::Xrgb4444 => 0x32315258,
            BufferFormat::Xbgr4444 => 0x32314258,
            BufferFormat::Rgbx4444 => 0x32315852,
            BufferFormat::Bgrx4444 => 0x32315842,
            BufferFormat::Argb4444 => 0x32315241,
            BufferFormat::Abgr4444 => 0x32314241,
            BufferFormat::Rgba4444 => 0x32314152,
            BufferFormat::Bgra4444 => 0x32314142,
            BufferFormat::Xrgb1555 => 0x35315258,
            BufferFormat::Xbgr1555 => 0x35314258,
            BufferFormat::Rgbx5551 => 0x35315852,
            BufferFormat::Bgrx5551 => 0x35315842,
            BufferFormat::Argb1555 => 0x35315241,
            BufferFormat::Abgr1555 => 0x35314241,
            BufferFormat::Rgba5551 => 0x35314152,
            BufferFormat::Bgra5551 => 0x35314142,
            BufferFormat::Rgb565 => 0x36314752,
            BufferFormat::Bgr565 => 0x36314742,
            BufferFormat::Rgb888 => 0x34324752,
            BufferFormat::Bgr888 => 0x34324742,
            BufferFormat::Xrgb8888 => 1,
            BufferFormat::Xbgr8888 => 0x34324258,
            BufferFormat::Rgbx8888 => 0x34325852,
            BufferFormat::Bgrx8888 => 0x34325842,
            BufferFormat::Argb8888 => 0,
            BufferFormat::Abgr8888 => 0x34324241,
            BufferFormat::Rgba8888 => 0x34324152,
            BufferFormat::Bgra8888 => 0x34324142,
            BufferFormat::Xrgb2101010 => 0x30335258,
            BufferFormat::Xbgr2101010 => 0x30334258,
            BufferFormat::Rgbx1010102 => 0x30335852,
            BufferFormat::Bgrx1010102 => 0x30335842,
            BufferFormat::Argb2101010 => 0x30335241,
            BufferFormat::Abgr2101010 => 0x30334241,
            BufferFormat::Rgba1010102 => 0x30334152,
            BufferFormat::Bgra1010102 => 0x30334142,
            BufferFormat::Rgb161616 => 0x38344752,
            BufferFormat::Bgr161616 => 0x38344742,
            BufferFormat::Xrgb16161616 => 0x38345258,
            BufferFormat::Xbgr16161616 => 0x38344258,
            BufferFormat::Argb16161616 => 0x38345241,
            BufferFormat::Abgr16161616 => 0x38344241,
            BufferFormat::Xrgb16161616f => 0x48345258,
            BufferFormat::Xbgr16161616f => 0x48344258,
            BufferFormat::Argb16161616f => 0x48345241,
            BufferFormat::Abgr16161616f => 0x48344241,
        }
    }

    /// The lowercase name of the format.
    pub open spec fn name_text(self) -> Seq<char> {
        match self {
            BufferFormat::Rgb332 => "rgb332"@,
            BufferFormat::Bgr233 => "bgr233"@,
            BufferFormat::Xrgb4444 => "xrgb4444"@,
            BufferFormat::Xbgr4444 => "xbgr4444"@,
            BufferFormat::Rgbx4444 => "rgbx4444"@,
            BufferFormat::Bgrx4444 => "bgrx4444"@,
            BufferFormat::Argb4444 => "argb4444"@,
            BufferFormat::Abgr4444 => "abgr4444"@,
            BufferFormat::Rgba4444 => "rgba4444"@,
            BufferFormat::Bgra4444 => "bgra4444"@,
            BufferFormat::Xrgb1555 => "xrgb1555"@,
            BufferFormat::Xbgr1555 => "xbgr1555"@,
            BufferFormat::Rgbx5551 => "rgbx5551"@,
            BufferFormat::Bgrx5551 => "bgrx5551"@,
            BufferFormat::Argb1555 => "argb1555"@,
            BufferFormat::Abgr1555 => "abgr1555"@,
            BufferFormat::Rgba5551 => "rgba5551"@,
            BufferFormat::Bgra5551 => "bgra5551"@,
            BufferFormat::Rgb565 => "rgb565"@,
            BufferFormat::Bgr565 => "bgr565"@,
            BufferFormat::Rgb888 => "rgb888"@,
            BufferFormat::Bgr888 => "bgr888"@,
            BufferFormat::Xrgb8888 => "xrgb8888"@,
            BufferFormat::Xbgr8888 => "xbgr8888"@,
            BufferFormat::Rgbx8888 => "rgbx8888"@,
            BufferFormat::Bgrx8888 => "bgrx8888"@,
            BufferFormat::Argb8888 => "argb8888"@,
            BufferFormat::Abgr8888 => "abgr8888"@,
            BufferFormat::Rgba8888 => "rgba8888"@,
            BufferFormat::Bgra8888 => "bgra8888"@,
            BufferFormat::Xrgb2101010 => "xrgb2101010"@,
            BufferFormat::Xbgr2101010 => "xbgr2101010"@,
            BufferFormat::Rgbx1010102 => "rgbx1010102"@,
            BufferFormat::Bgrx1010102 => "bgrx1010102"@,
            BufferFormat::Argb2101010 => "argb2101010"@,
            BufferFormat::Abgr2101010 => "abgr2101010"@,
            BufferFormat::Rgba1010102 => "rgba1010102"@,
            BufferFormat::Bgra1010102 => "bgra1010102"@,
            BufferFormat::Rgb161616 => "rgb161616"@,
            BufferFormat::Bgr161616 => "bgr161616"@,
            BufferFormat::Xrgb16161616 => "xrgb16161616"@,
            BufferFormat::Xbgr16161616 => "xbgr16161616"@,
            BufferFormat::Argb16161616 => "argb16161616"@,
            BufferFormat::Abgr16161616 => "abgr16161616"@,
            BufferFormat::Xrgb16161616f => "xrgb16161616f"@,
            BufferFormat::Xbgr16161616f => "xbgr16161616f"@,
            BufferFormat::Argb16161616f => "argb16161616f"@,
            BufferFormat::Abgr16161616f => "abgr16161616f"@,
        }
    }

    /// The lowercase name of the format, for display and for captures.
    pub fn name(self) -> (res: &'static str)
        ensures
            res@ == self.name_text(),
    {
        match self {
            BufferFormat::Rgb332 => "rgb332",
            BufferFormat::Bgr233 => "bgr233",
            BufferFormat::Xrgb4444 => "xrgb4444",
            BufferFormat::Xbgr4444 => "xbgr4444",
            BufferFormat::Rgbx4444 => "rgbx4444",
            BufferFormat::Bgrx4444 => "bgrx4444",
            BufferFormat::Argb4444 => "argb4444",
            BufferFormat::Abgr4444 => "abgr4444",
            BufferFormat::Rgba4444 => "rgba4444",
            BufferFormat::Bgra4444 => "bgra4444",
            BufferFormat::Xrgb1555 => "xrgb1555",
            BufferFormat::Xbgr1555 => "xbgr1555",
            BufferFormat::Rgbx5551 => "rgbx5551",
            BufferFormat::Bgrx5551 => "bgrx5551",
            BufferFormat::Argb1555 => "argb1555",
            BufferFormat::Abgr1555 => "abgr1555",
            BufferFormat::Rgba5551 => "rgba5551",
            BufferFormat::Bgra5551 => "bgra5551",
            BufferFormat::Rgb565 => "rgb565",
            BufferFormat::Bgr565 => "bgr565",
            BufferFormat::Rgb888 => "rgb888",
            BufferFormat::Bgr888 => "bgr888",
            BufferFormat::Xrgb8888 => "xrgb8888",
            BufferFormat::Xbgr8888 => "xbgr8888",
            BufferFormat::Rgbx8888 => "rgbx8888",
            BufferFormat::Bgrx8888 => "bgrx8888",
            BufferFormat::Argb8888 => "argb8888",
            BufferFormat::Abgr8888 => "abgr8888",
            BufferFormat::Rgba8888 => "rgba8888",
            BufferFormat::Bgra8888 => "bgra8888",
            BufferFormat::Xrgb2101010 => "xrgb2101010",
            BufferFormat::Xbgr2101010 => "xbgr2101010",
            BufferFormat::Rgbx1010102 => "rgbx1010102",
            BufferFormat::Bgrx1010102 => "bgrx1010102",
            BufferFormat::Argb2101010 => "argb2101010",
            BufferFormat::Abgr2101010 => "abgr2101010",
            BufferFormat::Rgba1010102 => "rgba1010102",
            BufferFormat::Bgra1010102 => "bgra1010102",
            BufferFormat::Rgb161616 => "rgb161616",
            BufferFormat::Bgr161616 => "bgr161616",
            BufferFormat::Xrgb16161616 => "xrgb16161616",
            BufferFormat::Xbgr16161616 => "xbgr16161616",
            BufferFormat::Argb16161616 => "argb16161616",
            BufferFormat::Abgr16161616 => "abgr16161616",
            BufferFormat::Xrgb16161616f => "xrgb16161616f",
            BufferFormat::Xbgr16161616f => "xbgr16161616f",
            BufferFormat::Argb16161616f => "argb16161616f",
            BufferFormat::Abgr16161616f => "abgr16161616f",
        }
    }

    /// The channel fields, from the most to the least significant end of the
    /// pixel word.
    pub open spec fn fields(self) -> Seq<Field> {
        match self {
            BufferFormat::Rgb332 => seq![
                Field { chan: Chan::R, width: 3 },
                Field { chan: Chan::G, width: 3 },
                Field { chan: Chan::B, width: 2 },
            ],
            BufferFormat::Bgr233 => seq![
                Field { chan: Chan::B, width: 2 },
                Field { chan: Chan::G, width: 3 },
                Field { chan: Chan::R, width: 3 },
            ],
            BufferFormat::Xrgb4444 => seq![
                Field { chan: Chan::X, width: 4 },
                Field { chan: Chan::R, width: 4 },
                Field { chan: Chan::G, width: 4 },
                Field { chan: Chan::B, width: 4 },
            ],
            BufferFormat::Xbgr4444 => seq![
                Field { chan: Chan::X, width: 4 },
                Field { chan: Chan::B, width: 4 },
                Field { chan: Chan::G, width: 4 },
                Field { chan: Chan::R, width: 4 },
            ],
            BufferFormat::Rgbx4444 => seq![
                Field { chan: Chan::R, width: 4 },
                Field { chan: Chan::G, width: 4 },
                Field { chan: Chan::B, width: 4 },
                Field { chan: Chan::X, width: 4 },
            ],
            BufferFormat::Bgrx4444 => seq![
                Field { chan: Chan::B, width: 4 },
                Field { chan: Chan::G, width: 4 },
                Field { chan: Chan::R, width: 4 },
                Field { chan: Chan::X, width: 4 },
            ],
            BufferFormat::Argb4444 => seq![
                Field { chan: Chan::A, width: 4 },
                Field { chan: Chan::R, width: 4 },
                Field { chan: Chan::G, width: 4 },
                Field { chan: Chan::B, width: 4 },
            ],
            BufferFormat::Abgr4444 => seq![
                Field { chan: Chan::A, width: 4 },
                Field { chan: Chan::B, width: 4 },
                Field { chan: Chan::G, width: 4 },
                Field { chan: Chan::R, width: 4 },
            ],
            BufferFormat::Rgba4444 => seq![
                Field { chan: Chan::R, width: 4 },
                Field { chan: Chan::G, width: 4 },
                Field { chan: Chan::B, width: 4 },
                Field { chan: Chan::A, width: 4 },
            ],
            BufferFormat::Bgra4444 => seq![
                Field { chan: Chan::B, width: 4 },
                Field { chan: Chan::G, width: 4 },
                Field { chan: Chan::R, width: 4 },
                Field { chan: Chan::A, width: 4 },
            ],
            BufferFormat::Xrgb1555 => seq![
                Field { chan: Chan::X, width: 1 },
                Field { chan: Chan::R, width: 5 },
                Field { chan: Chan::G, width: 5 },
                Field { chan: Chan::B, width: 5 },
            ],
            BufferFormat::Xbgr1555 => seq![
                Field { chan: Chan::X, width: 1 },
                Field { chan: Chan::B, width: 5 },
                Field { chan: Chan::G, width: 5 },
                Field { chan: Chan::R, width: 5 },
            ],
            BufferFormat::Rgbx5551 => seq![
                Field { chan: Chan::R, width: 5 },
                Field { chan: Chan::G, width: 5 },
                Field { chan: Chan::B, width: 5 },
                Field { chan: Chan::X, width: 1 },
            ],
            BufferFormat::Bgrx5551 => seq![
                Field { chan: Chan::B, width: 5 },
                Field { chan: Chan::G, width: 5 },
                Field { chan: Chan::R, width: 5 },
                Field { chan: Chan::X, width: 1 },
            ],
            BufferFormat::Argb1555 => seq![
                Field { chan: Chan::A, width: 1 },
                Field { chan: Chan::R, width: 5 },
                Field { chan: Chan::G, width: 5 },
                Field { chan: Chan::B, width: 5 },
            ],
            BufferFormat::Abgr1555 => seq![
                Field { chan: Chan::A, width: 1 },
                Field { chan: Chan::B, width: 5 },
                Field { chan: Chan::G, width: 5 },
                Field { chan: Chan::R, width: 5 },
            ],
            BufferFormat::Rgba5551 => seq![
                Field { chan: Chan::R, width: 5 },
                Field { chan: Chan::G, width: 5 },
                Field { chan: Chan::B, width: 5 },
                Field { chan: Chan::A, width: 1 },
            ],
            BufferFormat::Bgra5551 => seq![
                Field { chan: Chan::B, width: 5 },
                Field { chan: Chan::G, width: 5 },
                Field { chan: Chan::R, width: 5 },
                Field { chan: Chan::A, width: 1 },
            ],
            BufferFormat::Rgb565 => seq![
                Field { chan: Chan::R, width: 5 },
                Field { chan: Chan::G, width: 6 },
                Field { chan: Chan::B, width: 5 },
            ],
            BufferFormat::Bgr565 => seq![
                Field { chan: Chan::B, width: 5 },
                Field { chan: Chan::G, width: 6 },
                Field { chan: Chan::R, width: 5 },
            ],
            BufferFormat::Rgb888 => seq![
                Field { chan: Chan::R, width: 8 },
                Field { chan: Chan::G, width: 8 },
                Field { chan: Chan::B, width: 8 },
            ],
            BufferFormat::Bgr888 => seq![
                Field { chan: Chan::B, width: 8 },
                Field { chan: Chan::G, width: 8 },
                Field { chan: Chan::R, width: 8 },
            ],
            BufferFormat::Xrgb8888 => seq![
                Field { chan: Chan::X, width: 8 },
                Field { chan: Chan::R, width: 8 },
                Field { chan: Chan::G, width: 8 },
                Field { chan: Chan::B, width: 8 },
            ],
            BufferFormat::Xbgr8888 => seq![
                Field { chan: Chan::X, width: 8 },
                Field { chan: Chan::B, width: 8 },
                Field { chan: Chan::G, width: 8 },
                Field { chan: Chan::R, width: 8 },
            ],
            BufferFormat::Rgbx8888 => seq![
                Field { chan: Chan::R, width: 8 },
                Field { chan: Chan::G, width: 8 },
                Field { chan: Chan::B, width: 8 },
                Field { chan: Chan::X, width: 8 },
            ],
            BufferFormat::Bgrx8888 => seq![
                Field { chan: Chan::B, width: 8 },
                Field { chan: Chan::G, width: 8 },
                Field { chan: Chan::R, width: 8 },
                Field { chan: Chan::X, width: 8 },
            ],
            BufferFormat::Argb8888 => seq![
                Field { chan: Chan::A, width: 8 },
                Field { chan: Chan::R, width: 8 },
                Field { chan: Chan::G, width: 8 },
                Field { chan: Chan::B, width: 8 },
            ],
            BufferFormat::Abgr8888 => seq![
                Field { chan: Chan::A, width: 8 },
                Field { chan: Chan::B, width: 8 },
                Field { chan: Chan::G, width: 8 },
                Field { chan: Chan::R, width: 8 },
            ],
            BufferFormat::Rgba8888 => seq![
                Field { chan: Chan::R, width: 8 },
                Field { chan: Chan::G, width: 8 },
                Field { chan: Chan::B, width: 8 },
                Field { chan: Chan::A, width: 8 },
            ],
            BufferFormat::Bgra8888 => seq![
                Field { chan: Chan::B, width: 8 },
                Field { chan: Chan::G, width: 8 },
                Field { chan: Chan::R, width: 8 },
                Field { chan: Chan::A, width: 8 },
            ],
            BufferFormat::Xrgb2101010 => seq![
                Field { chan: Chan::X, width: 2 },
                Field { chan: Chan::R, width: 10 },
                Field { chan: Chan::G, width: 10 },
                Field { chan: Chan::B, width: 10 },
            ],
            BufferFormat::Xbgr2101010 => seq![
                Field { chan: Chan::X, width: 2 },
                Field { chan: Chan::B, width: 10 },
                Field { chan: Chan::G, width: 10 },
                Field { chan: Chan::R, width: 10 },
            ],
            BufferFormat::Rgbx1010102 => seq![
                Field { chan: Chan::R, width: 10 },
                Field { chan: Chan::G, width: 10 },
                Field { chan: Chan::B, width: 10 },
                Field { chan: Chan::X, width: 2 },
            ],
            BufferFormat::Bgrx1010102 => seq![
                Field { chan: Chan::B, width: 10 },
                Field { chan: Chan::G, width: 10 },
                Field { chan: Chan::R, width: 10 },
                Field { chan: Chan::X, width: 2 },
            ],
            BufferFormat::Argb2101010 => seq![
                Field { chan: Chan::A, width: 2 },
                Field { chan: Chan::R, width: 10 },
                Field { chan: Chan::G, width: 10 },
                Field { chan: Chan::B, width: 10 },
            ],
            BufferFormat::Abgr2101010 => seq![
                Field { chan: Chan::A, width: 2 },
                Field { chan: Chan::B, width: 10 },
                Field { chan: Chan::G, width: 10 },
                Field { chan: Chan::R, width: 10 },
            ],
            BufferFormat::Rgba1010102 => seq![
                Field { chan: Chan::R, width: 10 },
                Field { chan: Chan::G, width: 10 },
                Field { chan: Chan::B, width: 10 },
                Field { chan: Chan::A, width: 2 },
            ],
            BufferFormat::Bgra1010102 => seq![
                Field { chan: Chan::B, width: 10 },
                Field { chan: Chan::G, width: 10 },
                Field { chan: Chan::R, width: 10 },
                Field { chan: Chan::A, width: 2 },
            ],
            BufferFormat::Rgb161616 => seq![
                Field { chan: Chan::R, width: 16 },
                Field { chan: Chan::G, width: 16 },
                Field { chan: Chan::B, width: 16 },
            ],
            BufferFormat::Bgr161616 => seq![
                Field { chan: Chan::B, width: 16 },
                Field { chan: Chan::G, width: 16 },
                Field { chan: Chan::R, width: 16 },
            ],
            BufferFormat::Xrgb16161616 => seq![
                Field { chan: Chan::X, width: 16 },
                Field { chan: Chan::R, width: 16 },
                Field { chan: Chan::G, width: 16 },
                Field { chan: Chan::B, width: 16 },
            ],
            BufferFormat::Xbgr16161616 => seq![
                Field { chan: Chan::X, width: 16 },
                Field { chan: Chan::B, width: 16 },
                Field { chan: Chan::G, width: 16 },
                Field { chan: Chan::R, width: 16 },
            ],
            BufferFormat::Argb16161616 => seq![
                Field { chan: Chan::A, width: 16 },
                Field { chan: Chan::R, width: 16 },
                Field { chan: Chan::G, width: 16 },
                Field { chan: Chan::B, width: 16 },
            ],
            BufferFormat::Abgr16161616 => seq![
                Field { chan: Chan::A, width: 16 },
                Field { chan: Chan::B, width: 16 },
                Field { chan: Chan::G, width: 16 },
                Field { chan: Chan::R, width: 16 },
            ],
            BufferFormat::Xrgb16161616f => seq![
                Field { chan: Chan::X, width: 16 },
                Field { chan: Chan::R, width: 16 },
                Field { chan: Chan::G, width: 16 },
                Field { chan: Chan::B, width: 16 },
            ],
            BufferFormat::Xbgr16161616f => seq![
                Field { chan: Chan::X, width: 16 },
                Field { chan: Chan::B, width: 16 },
                Field { chan: Chan::G, width: 16 },
                Field { chan: Chan::R, width: 16 },
            ],
            BufferFormat::Argb16161616f => seq![
                Field { chan: Chan::A, width: 16 },
                Field { chan: Chan::R, width: 16 },
                Field { chan: Chan::G, width: 16 },
                Field { chan: Chan::B, width: 16 },
            ],
            BufferFormat::Abgr16161616f => seq![
                Field { chan: Chan::A, width: 16 },
                Field { chan: Chan::B, width: 16 },
                Field { chan: Chan::G, width: 16 },
                Field { chan: Chan::R, width: 16 },
            ],
        }
    }

    /// Whether the channels are floats.
    pub open spec fn float(self) -> bool {
        match self {
            BufferFormat::Xrgb16161616f => true,
            BufferFormat::Xbgr16161616f => true,
            BufferFormat::Argb16161616f => true,
            BufferFormat::Abgr16161616f => true,
            _ => false,
        }
    }

    /// The width of the narrowest colour channel in bits.
    pub open spec fn depth(self) -> u8 {
        narrowest(self.fields())
    }

    fn spec(self) -> (res: Vec<Field>)
        ensures
            res@ == self.fields(),
    {
        let mut v: Vec<Field> = Vec::new();
        match self {
            BufferFormat::Rgb332 => {
                v.push(Field { chan: Chan::R, width: 3 });
                v.push(Field { chan: Chan::G, width: 3 });
                v.push(Field { chan: Chan::B, width: 2 });
            },
            BufferFormat::Bgr233 => {
                v.push(Field { chan: Chan::B, width: 2 });
                v.push(Field { chan: Chan::G, width: 3 });
                v.push(Field { chan: Chan::R, width: 3 });
            },
            BufferFormat::Xrgb4444 => {
                v.push(Field { chan: Chan::X, width: 4 });
                v.push(Field { chan: Chan::R, width: 4 });
                v.push(Field { chan: Chan::G, width: 4 });
                v.push(Field { chan: Chan::B, width: 4 });
            },
            BufferFormat::Xbgr4444 => {
                v.push(Field { chan: Chan::X, width: 4 });
                v.push(Field { chan: Chan::B, width: 4 });
                v.push(Field { chan: Chan::G, width: 4 });
                v.push(Field { chan: Chan::R, width: 4 });
            },
            BufferFormat::Rgbx4444 => {
                v.push(Field { chan: Chan::R, width: 4 });
                v.push(Field { chan: Chan::G, width: 4 });
                v.push(Field { chan: Chan::B, width: 4 });
                v.push(Field { chan: Chan::X, width: 4 });
            },
            BufferFormat::Bgrx4444 => {
                v.push(Field { chan: Chan::B, width: 4 });
                v.push(Field { chan: Chan::G, width: 4 });
                v.push(Field { chan: Chan::R, width: 4 });
                v.push(Field { chan: Chan::X, width: 4 });
            },
            BufferFormat::Argb4444 => {
                v.push(Field { chan: Chan::A, width: 4 });
                v.push(Field { chan: Chan::R, width: 4 });
                v.push(Field { chan: Chan::G, width: 4 });
                v.push(Field { chan: Chan::B, width: 4 });
            },
            BufferFormat::Abgr4444 => {
                v.push(Field { chan: Chan::A, width: 4 });
                v.push(Field { chan: Chan::B, width: 4 });
                v.push(Field { chan: Chan::G, width: 4 });
                v.push(Field { chan: Chan::R, width: 4 });
            },
            BufferFormat::Rgba4444 => {
                v.push(Field { chan: Chan::R, width: 4 });
                v.push(Field { chan: Chan::G, width: 4 });
                v.push(Field { chan: Chan::B, width: 4 });
                v.push(Field { chan: Chan::A, width: 4 });
            },
            BufferFormat::Bgra4444 => {
                v.push(Field { chan: Chan::B, width: 4 });
                v.push(Field { chan: Chan::G, width: 4 });
                v.push(Field { chan: Chan::R, width: 4 });
                v.push(Field { chan: Chan::A, width: 4 });
            },
            BufferFormat::Xrgb1555 => {
                v.push(Field { chan: Chan::X, width: 1 });
                v.push(Field { chan: Chan::R, width: 5 });
                v.push(Field { chan: Chan::G, width: 5 });
                v.push(Field { chan: Chan::B, width: 5 });
            },
            BufferFormat::Xbgr1555 => {
                v.push(Field { chan: Chan::X, width: 1 });
                v.push(Field { chan: Chan::B, width: 5 });
                v.push(Field { chan: Chan::G, width: 5 });
                v.push(Field { chan: Chan::R, width: 5 });
            },
            BufferFormat::Rgbx5551 => {
                v.push(Field { chan: Chan::R, width: 5 });
                v.push(Field { chan: Chan::G, width: 5 });
                v.push(Field { chan: Chan::B, width: 5 });
                v.push(Field { chan: Chan::X, width: 1 });
            },
            BufferFormat::Bgrx5551 => {
                v.push(Field { chan: Chan::B, width: 5 });
                v.push(Field { chan: Chan::G, width: 5 });
                v.push(Field { chan: Chan::R, width: 5 });
                v.push(Field { chan: Chan::X, width: 1 });
            },
            BufferFormat::Argb1555 => {
                v.push(Field { chan: Chan::A, width: 1 });
                v.push(Field { chan: Chan::R, width: 5 });
                v.push(Field { chan: Chan::G, width: 5 });
                v.push(Field { chan: Chan::B, width: 5 });
            },
            BufferFormat::Abgr1555 => {
                v.push(Field { chan: Chan::A, width: 1 });
                v.push(Field { chan: Chan::B, width: 5 });
                v.push(Field { chan: Chan::G, width: 5 });
                v.push(Field { chan: Chan::R, width: 5 });
            },
            BufferFormat::Rgba5551 => {
                v.push(Field { chan: Chan::R, width: 5 });
                v.push(Field { chan: Chan::G, width: 5 });
                v.push(Field { chan: Chan::B, width: 5 });
                v.push(Field { chan: Chan::A, width: 1 });
            },
            BufferFormat::Bgra5551 => {
                v.push(Field { chan: Chan::B, width: 5 });
                v.push(Field { chan: Chan::G, width: 5 });
                v.push(Field { chan: Chan::R, width: 5 });
                v.push(Field { chan: Chan::A, width: 1 });
            },
            BufferFormat::Rgb565 => {
                v.push(Field { chan: Chan::R, width: 5 });
                v.push(Field { chan: Chan::G, width: 6 });
                v.push(Field { chan: Chan::B, width: 5 });
            },
            BufferFormat::Bgr565 => {
                v.push(Field { chan: Chan::B, width: 5 });
                v.push(Field { chan: Chan::G, width: 6 });
                v.push(Field { chan: Chan::R, width: 5 });
            },
            BufferFormat::Rgb888 => {
                v.push(Field { chan: Chan::R, width: 8 });
                v.push(Field { chan: Chan::G, width: 8 });
                v.push(Field { chan: Chan::B, width: 8 });
            },
            BufferFormat::Bgr888 => {
                v.push(Field { chan: Chan::B, width: 8 });
                v.push(Field { chan: Chan::G, width: 8 });
                v.push(Field { chan: Chan::R, width: 8 });
            },
            BufferFormat::Xrgb8888 => {
                v.push(Field { chan: Chan::X, width: 8 });
                v.push(Field { chan: Chan::R, width: 8 });
                v.push(Field { chan: Chan::G, width: 8 });
                v.push(Field { chan: Chan::B, width: 8 });
            },
            BufferFormat::Xbgr8888 => {
                v.push(Field { chan: Chan::X, width: 8 });
                v.push(Field { chan: Chan::B, width: 8 });
                v.push(Field { chan: Chan::G, width: 8 });
                v.push(Field { chan: Chan::R, width: 8 });
            },
            BufferFormat::Rgbx8888 => {
                v.push(Field { chan: Chan::R, width: 8 });
                v.push(Field { chan: Chan::G, width: 8 });
                v.push(Field { chan: Chan::B, width: 8 });
                v.push(Field { chan: Chan::X, width: 8 });
            },
            BufferFormat::Bgrx8888 => {
                v.push(Field { chan: Chan::B, width: 8 });
                v.push(Field { chan: Chan::G, width: 8 });
                v.push(Field { chan: Chan::R, width: 8 });
                v.push(Field { chan: Chan::X, width: 8 });
            },
            BufferFormat::Argb8888 => {
                v.push(Field { chan: Chan::A, width: 8 });
                v.push(Field { chan: Chan::R, width: 8 });
                v.push(Field { chan: Chan::G, width: 8 });
                v.push(Field { chan: Chan::B, width: 8 });
            },
            BufferFormat::Abgr8888 => {
                v.push(Field { chan: Chan::A, width: 8 });
                v.push(Field { chan: Chan::B, width: 8 });
                v.push(Field { chan: Chan::G, width: 8 });
                v.push(Field { chan: Chan::R, width: 8 });
            },
            BufferFormat::Rgba8888 => {
                v.push(Field { chan: Chan::R, width: 8 });
                v.push(Field { chan: Chan::G, width: 8 });
                v.push(Field { chan: Chan::B, width: 8 });
                v.push(Field { chan: Chan::A, width: 8 });
            },
            BufferFormat::Bgra8888 => {
                v.push(Field { chan: Chan::B, width: 8 });
                v.push(Field { chan: Chan::G, width: 8 });
                v.push(Field { chan: Chan::R, width: 8 });
                v.push(Field { chan: Chan::A, width: 8 });
            },
            BufferFormat::Xrgb2101010 => {
                v.push(Field { chan: Chan::X, width: 2 });
                v.push(Field { chan: Chan::R, width: 10 });
                v.push(Field { chan: Chan::G, width: 10 });
                v.push(Field { chan: Chan::B, width: 10 });
            },
            BufferFormat::Xbgr2101010 => {
                v.push(Field { chan: Chan::X, width: 2 });
                v.push(Field { chan: Chan::B, width: 10 });
                v.push(Field { chan: Chan::G, width: 10 });
                v.push(Field { chan: Chan::R, width: 10 });
            },
            BufferFormat::Rgbx1010102 => {
                v.push(Field { chan: Chan::R, width: 10 });
                v.push(Field { chan: Chan::G, width: 10 });
                v.push(Field { chan: Chan::B, width: 10 });
                v.push(Field { chan: Chan::X, width: 2 });
            },
            BufferFormat::Bgrx1010102 => {
                v.push(Field { chan: Chan::B, width: 10 });
                v.push(Field { chan: Chan::G, width: 10 });
                v.push(Field { chan: Chan::R, width: 10 });
                v.push(Field { chan: Chan::X, width: 2 });
            },
            BufferFormat::Argb2101010 => {
                v.push(Field { chan: Chan::A, width: 2 });
                v.push(Field { chan: Chan::R, width: 10 });
                v.push(Field { chan: Chan::G, width: 10 });
                v.push(Field { chan: Chan::B, width: 10 });
            },
            BufferFormat::Abgr2101010 => {
                v.push(Field { chan: Chan::A, width: 2 });
                v.push(Field { chan: Chan::B, width: 10 });
                v.push(Field { chan: Chan::G, width: 10 });
                v.push(Field { chan: Chan::R, width: 10 });
            },
            BufferFormat::Rgba1010102 => {
                v.push(Field { chan: Chan::R, width: 10 });
                v.push(Field { chan: Chan::G, width: 10 });
                v.push(Field { chan: Chan::B, width: 10 });
                v.push(Field { chan: Chan::A, width: 2 });
            },
            BufferFormat::Bgra1010102 => {
                v.push(Field { chan: Chan::B, width: 10 });
                v.push(Field { chan: Chan::G, width: 10 });
                v.push(Field { chan: Chan::R, width: 10 });
                v.push(Field { chan: Chan::A, width: 2 });
            },
            BufferFormat::Rgb161616 => {
                v.push(Field { chan: Chan::R, width: 16 });
                v.push(Field { chan: Chan::G, width: 16 });
                v.push(Field { chan: Chan::B, width: 16 });
            },
            BufferFormat::Bgr161616 => {
                v.push(Field { chan: Chan::B, width: 16 });
                v.push(Field { chan: Chan::G, width: 16 });
                v.push(Field { chan: Chan::R, width: 16 });
            },
            BufferFormat::Xrgb16161616 => {
                v.push(Field { chan: Chan::X, width: 16 });
                v.push(Field { chan: Chan::R, width: 16 });
                v.push(Field { chan: Chan::G, width: 16 });
                v.push(Field { chan: Chan::B, width: 16 });
            },
            BufferFormat::Xbgr16161616 => {
                v.push(Field { chan: Chan::X, width: 16 });
                v.push(Field { chan: Chan::B, width: 16 });
                v.push(Field { chan: Chan::G, width: 16 });
                v.push(Field { chan: Chan::R, width: 16 });
            },
            BufferFormat::Argb16161616 => {
                v.push(Field { chan: Chan::A, width: 16 });
                v.push(Field { chan: Chan::R, width: 16 });
                v.push(Field { chan: Chan::G, width: 16 });
                v.push(Field { chan: Chan::B, width: 16 });
            },
            BufferFormat::Abgr16161616 => {
                v.push(Field { chan: Chan::A, width: 16 });
                v.push(Field { chan: Chan::B, width: 16 });
                v.push(Field { chan: Chan::G, width: 16 });
                v.push(Field { chan: Chan::R, width: 16 });
            },
            BufferFormat::Xrgb16161616f => {
                v.push(Field { chan: Chan::X, width: 16 });
                v.push(Field { chan: Chan::R, width: 16 });
                v.push(Field { chan: Chan::G, width: 16 });
                v.push(Field { chan: Chan::B, width: 16 });
            },
            BufferFormat::Xbgr16161616f => {
                v.push(Field { chan: Chan::X, width: 16 });
                v.push(Field { chan: Chan::B, width: 16 });
                v.push(Field { chan: Chan::G, width: 16 });
                v.push(Field { chan: Chan::R, width: 16 });
            },
            BufferFormat::Argb16161616f => {
                v.push(Field { chan: Chan::A, width: 16 });
                v.push(Field { chan: Chan::R, width: 16 });
                v.push(Field { chan: Chan::G, width: 16 });
                v.push(Field { chan: Chan::B, width: 16 });
            },
            BufferFormat::Abgr16161616f => {
                v.push(Field { chan: Chan::A, width: 16 });
                v.push(Field { chan: Chan::B, width: 16 });
                v.push(Field { chan: Chan::G, width: 16 });
                v.push(Field { chan: Chan::R, width: 16 });
            },
        }
        assert(v@ == self.fields());
        v
    }
}

/// A number that tells the names of the formats apart.
spec fn name_key(f: BufferFormat) -> int {
    match f {
        BufferFormat::Rgb332 => 221668569643270int,
        BufferFormat::Bgr233 => 226066381271302int,
        BufferFormat::Xrgb4444 => 3776498799199697928int,
        BufferFormat::Xbgr4444 => 3776498803494403080int,
        BufferFormat::Rgbx4444 => 3776498805094611208int,
        BufferFormat::Bgrx4444 => 3776498805128163592int,
        BufferFormat::Argb4444 => 3776498799199694984int,
        BufferFormat::Abgr4444 => 3776498803494400136int,
        BufferFormat::Rgba4444 => 3776498798920595720int,
        BufferFormat::Bgra4444 => 3776498798954148104int,
        BufferFormat::Xrgb1555 => 3849123638158343176int,
        BufferFormat::Xbgr1555 => 3849123642453048328int,
        BufferFormat::Rgbx5551 => 3560893405340498184int,
        BufferFormat::Bgrx5551 => 3560893405374050568int,
        BufferFormat::Argb1555 => 3849123638158340232int,
        BufferFormat::Abgr1555 => 3849123642453045384int,
        BufferFormat::Rgba5551 => 3560893399166482696int,
        BufferFormat::Bgra5551 => 3560893399200035080int,
        BufferFormat::Rgb565 => 234966325262598int,
        BufferFormat::Bgr565 => 234966358814982int,
        BufferFormat::Rgb888 => 248229989579014int,
        BufferFormat::Bgr888 => 248230023131398int,
        BufferFormat::Xrgb8888 => 4066998704790092808int,
        BufferFormat::Xbgr8888 => 4066998709084797960int,
        BufferFormat::Rgbx8888 => 4066998710685006088int,
        BufferFormat::Bgrx8888 => 4066998710718558472int,
        BufferFormat::Argb8888 => 4066998704790089864int,
        BufferFormat::Abgr8888 => 4066998709084795016int,
        BufferFormat::Rgba8888 => 4066998704510990600int,
        BufferFormat::Bgra8888 => 4066998704544542984int,
        BufferFormat::Xrgb2101010 => 3558060954413218827int,
        BufferFormat::Xbgr2101010 => 3558060958707923979int,
        BufferFormat::Rgbx1010102 => 3486561883817376011int,
        BufferFormat::Bgrx1010102 => 3486561883850928395int,
        BufferFormat::Argb2101010 => 3558060954413215883int,
        BufferFormat::Abgr2101010 => 3558060958707921035int,
        BufferFormat::Rgba1010102 => 3486561877643360523int,
        BufferFormat::Bgra1010102 => 3486561877676912907int,
        BufferFormat::Rgb161616 => 3561438778408696073int,
        BufferFormat::Bgr161616 => 3561438778442248457int,
        BufferFormat::Xrgb16161616 => 3918933830429096972int,
        BufferFormat::Xbgr16161616 => 3918933834723802124int,
        BufferFormat::Argb16161616 => 3918933830429094028int,
        BufferFormat::Abgr16161616 => 3918933834723799180int,
        BufferFormat::Xrgb16161616f => 3918933830429096973int,
        BufferFormat::Xbgr16161616f => 3918933834723802125int,
        BufferFormat::Argb16161616f => 3918933830429094029int,
        BufferFormat::Abgr16161616f => 3918933834723799181int,
    }
}

proof fn lemma_name_keys_0()
    ensures
        text_key("rgb332"@) == 221668569643270int,
        text_key("bgr233"@) == 226066381271302int,
        text_key("xrgb4444"@) == 3776498799199697928int,
        text_key("xbgr4444"@) == 3776498803494403080int,
        text_key("rgbx4444"@) == 3776498805094611208int,
        text_key("bgrx4444"@) == 3776498805128163592int,
        text_key("argb4444"@) == 3776498799199694984int,
        text_key("abgr4444"@) == 3776498803494400136int,
{
    assert(text_key("rgb332"@) == 221668569643270int) by {
        reveal_strlit("rgb332");
    }
    assert(text_key("bgr233"@) == 226066381271302int) by {
        reveal_strlit("bgr233");
    }
    assert(text_key("xrgb4444"@) == 3776498799199697928int) by {
        reveal_strlit("xrgb4444");
    }
    assert(text_key("xbgr4444"@) == 3776498803494403080int) by {
        reveal_strlit("xbgr4444");
    }
    assert(text_key("rgbx4444"@) == 3776498805094611208int) by {
        reveal_strlit("rgbx4444");
    }
    assert(text_key("bgrx4444"@) == 3776498805128163592int) by {
        reveal_strlit("bgrx4444");
    }
    assert(text_key("argb4444"@) == 3776498799199694984int) by {
        reveal_strlit("argb4444");
    }
    assert(text_key("abgr4444"@) == 3776498803494400136int) by {
        reveal_strlit("abgr4444");
    }
}

proof fn lemma_name_keys_1()
    ensures
        text_key("rgba4444"@) == 3776498798920595720int,
        text_key("bgra4444"@) == 3776498798954148104int,
        text_key("xrgb1555"@) == 3849123638158343176int,
        text_key("xbgr1555"@) == 3849123642453048328int,
        text_key("rgbx5551"@) == 3560893405340498184int,
        text_key("bgrx5551"@) == 3560893405374050568int,
        text_key("argb1555"@) == 3849123638158340232int,
        text_key("abgr1555"@) == 3849123642453045384int,
{
    assert(text_key("rgba4444"@) == 3776498798920595720int) by {
        reveal_strlit("rgba4444");
    }
    assert(text_key("bgra4444"@) == 3776498798954148104int) by {
        reveal_strlit("bgra4444");
    }
    assert(text_key("xrgb1555"@) == 3849123638158343176int) by {
        reveal_strlit("xrgb1555");
    }
    assert(text_key("xbgr1555"@) == 3849123642453048328int) by {
        reveal_strlit("xbgr1555");
    }
    assert(text_key("rgbx5551"@) == 3560893405340498184int) by {
        reveal_strlit("rgbx5551");
    }
    assert(text_key("bgrx5551"@) == 3560893405374050568int) by {
        reveal_strlit("bgrx5551");
    }
    assert(text_key("argb1555"@) == 3849123638158340232int) by {
        reveal_strlit("argb1555");
    }
    assert(text_key("abgr1555"@) == 3849123642453045384int) by {
        reveal_strlit("abgr1555");
    }
}

proof fn lemma_name_keys_2()
    ensures
        text_key("rgba5551"@) == 3560893399166482696int,
        text_key("bgra5551"@) == 3560893399200035080int,
        text_key("rgb565"@) == 234966325262598int,
        text_key("bgr565"@) == 234966358814982int,
        text_key("rgb888"@) == 248229989579014int,
        text_key("bgr888"@) == 248230023131398int,
        text_key("xrgb8888"@) == 4066998704790092808int,
        text_key("xbgr8888"@) == 4066998709084797960int,
{
    assert(text_key("rgba5551"@) == 3560893399166482696int) by {
        reveal_strlit("rgba5551");
    }
    assert(text_key("bgra5551"@) == 3560893399200035080int) by {
        reveal_strlit("bgra5551");
    }
    assert(text_key("rgb565"@) == 234966325262598int) by {
        reveal_strlit("rgb565");
    }
    assert(text_key("bgr565"@) == 234966358814982int) by {
        reveal_strlit("bgr565");
    }
    assert(text_key("rgb888"@) == 248229989579014int) by {
        reveal_strlit("rgb888");
    }
    assert(text_key("bgr888"@) == 248230023131398int) by {
        reveal_strlit("bgr888");
    }
    assert(text_key("xrgb8888"@) == 4066998704790092808int) by {
        reveal_strlit("xrgb8888");
    }
    assert(text_key("xbgr8888"@) == 4066998709084797960int) by {
        reveal_strlit("xbgr8888");
    }
}

proof fn lemma_name_keys_3()
    ensures
        text_key("rgbx8888"@) == 4066998710685006088int,
        text_key("bgrx8888"@) == 4066998710718558472int,
        text_key("argb8888"@) == 4066998704790089864int,
        text_key("abgr8888"@) == 4066998709084795016int,
        text_key("rgba8888"@) == 4066998704510990600int,
        text_key("bgra8888"@) == 4066998704544542984int,
        text_key("xrgb2101010"@) == 3558060954413218827int,
        text_key("xbgr2101010"@) == 3558060958707923979int,
{
    assert(text_key("rgbx8888"@) == 4066998710685006088int) by {
        reveal_strlit("rgbx8888");
    }
    assert(text_key("bgrx8888"@) == 4066998710718558472int) by {
        reveal_strlit("bgrx8888");
    }
    assert(text_key("argb8888"@) == 4066998704790089864int) by {
        reveal_strlit("argb8888");
    }
    assert(text_key("abgr8888"@) == 4066998709084795016int) by {
        reveal_strlit("abgr8888");
    }
    assert(text_key("rgba8888"@) == 4066998704510990600int) by {
        reveal_strlit("rgba8888");
    }
    assert(text_key("bgra8888"@) == 4066998704544542984int) by {
        reveal_strlit("bgra8888");
    }
    assert(text_key("xrgb2101010"@) == 3558060954413218827int) by {
        reveal_strlit("xrgb2101010");
    }
    assert(text_key("xbgr2101010"@) == 3558060958707923979int) by {
        reveal_strlit("xbgr2101010");
    }
}

proof fn lemma_name_keys_4()
    ensures
        text_key("rgbx1010102"@) == 3486561883817376011int,
        text_key("bgrx1010102"@) == 3486561883850928395int,
        text_key("argb2101010"@) == 3558060954413215883int,
        text_key("abgr2101010"@) == 3558060958707921035int,
        text_key("rgba1010102"@) == 3486561877643360523int,
        text_key("bgra1010102"@) == 3486561877676912907int,
        text_key("rgb161616"@) == 3561438778408696073int,
        text_key("bgr161616"@) == 3561438778442248457int,
{
    assert(text_key("rgbx1010102"@) == 3486561883817376011int) by {
        reveal_strlit("rgbx1010102");
    }
    assert(text_key("bgrx1010102"@) == 3486561883850928395int) by {
        reveal_strlit("bgrx1010102");
    }
    assert(text_key("argb2101010"@) == 3558060954413215883int) by {
        reveal_strlit("argb2101010");
    }
    assert(text_key("abgr2101010"@) == 3558060958707921035int) by {
        reveal_strlit("abgr2101010");
    }
    assert(text_key("rgba1010102"@) == 3486561877643360523int) by {
        reveal_strlit("rgba1010102");
    }
    assert(text_key("bgra1010102"@) == 3486561877676912907int) by {
        reveal_strlit("bgra1010102");
    }
    assert(text_key("rgb161616"@) == 3561438778408696073int) by {
        reveal_strlit("rgb161616");
    }
    assert(text_key("bgr161616"@) == 3561438778442248457int) by {
        reveal_strlit("bgr161616");
    }
}

proof fn lemma_name_keys_5()
    ensures
        text_key("xrgb16161616"@) == 3918933830429096972int,
        text_key("xbgr16161616"@) == 3918933834723802124int,
        text_key("argb16161616"@) == 3918933830429094028int,
        text_key("abgr16161616"@) == 3918933834723799180int,
        text_key("xrgb16161616f"@) == 3918933830429096973int,
        text_key("xbgr16161616f"@) == 3918933834723802125int,
        text_key("argb16161616f"@) == 3918933830429094029int,
        text_key("abgr16161616f"@) == 3918933834723799181int,
{
    assert(text_key("xrgb16161616"@) == 3918933830429096972int) by {
        reveal_strlit("xrgb16161616");
    }
    assert(text_key("xbgr16161616"@) == 3918933834723802124int) by {
        reveal_strlit("xbgr16161616");
    }
    assert(text_key("argb16161616"@) == 3918933830429094028int) by {
        reveal_strlit("argb16161616");
    }
    assert(text_key("abgr16161616"@) == 3918933834723799180int) by {
        reveal_strlit("abgr16161616");
    }
    assert(text_key("xrgb16161616f"@) == 3918933830429096973int) by {
        reveal_strlit("xrgb16161616f");
    }
    assert(text_key("xbgr16161616f"@) == 3918933834723802125int) by {
        reveal_strlit("xbgr16161616f");
    }
    assert(text_key("argb16161616f"@) == 3918933830429094029int) by {
        reveal_strlit("argb16161616f");
    }
    assert(text_key("abgr16161616f"@) == 3918933834723799181int) by {
        reveal_strlit("abgr16161616f");
    }
}

proof fn lemma_name_key(f: BufferFormat)
    ensures
        text_key(f.name_text()) == name_key(f),
{
    lemma_name_keys_0();
    lemma_name_keys_1();
    lemma_name_keys_2();
    lemma_name_keys_3();
    lemma_name_keys_4();
    lemma_name_keys_5();
}

/// No two formats have the same name.
pub proof fn names_are_distinct(f: BufferFormat, g: BufferFormat)
    requires
        f.name_text() == g.name_text(),
    ensures
        f == g,
{
    lemma_name_key(f);
    lemma_name_key(g);
}

/// No two formats have the same `wl_shm` code.
pub proof fn wl_codes_are_distinct(f: BufferFormat, g: BufferFormat)
    requires
        f.wl_code() == g.wl_code(),
    ensures
        f == g,
{
}

/// Every format is in the table, at its place.
pub proof fn every_format_is_in_the_table(f: BufferFormat)
    ensures
        0 <= f.position() < all_formats().len(),
        all_formats()[f.position()] == f,
{
}

// ---------------------------------------------------------------------------
// What a layout says
// ---------------------------------------------------------------------------

/// The width of a pixel word in bits.
pub open spec fn total_width(fields: Seq<Field>) -> nat
    decreases fields.len(),
{
    if fields.len() == 0 {
        0
    } else {
        total_width(fields.drop_last()) + fields.last().width as nat
    }
}

/// Whether a field holds a colour.
pub open spec fn is_color(f: Field) -> bool {
    f.chan is R || f.chan is G || f.chan is B
}

/// The width of the narrowest colour field; 255 if no field holds a colour.
pub open spec fn narrowest(fields: Seq<Field>) -> u8
    decreases fields.len(),
{
    if fields.len() == 0 {
        255
    } else if is_color(fields.last()) && fields.last().width < narrowest(fields.drop_last()) {
        fields.last().width
    } else {
        narrowest(fields.drop_last())
    }
}

/// The width of a channel's field, the last one of that channel; zero if there
/// is none.
pub open spec fn width_of(fields: Seq<Field>, c: Chan) -> u8
    decreases fields.len(),
{
    if fields.len() == 0 {
        0
    } else if fields.last().chan == c {
        fields.last().width
    } else {
        width_of(fields.drop_last(), c)
    }
}

/// The greatest code of a channel.
pub open spec fn greatest_code(width: u8) -> u16 {
    (pow2(width as nat) - 1) as u16
}

/// The stored bits of a field: a colour channel's code, at most what the field
/// can hold, or full opacity.
pub open spec fn field_bits(f: Field, codes: ChannelCodes, float: bool) -> nat {
    let code = match f.chan {
        Chan::R => codes.r,
        Chan::G => codes.g,
        Chan::B => codes.b,
        _ => if float {
            HALF_ONE
        } else {
            u16::MAX
        },
    };
    if float || code < pow2(f.width as nat) {
        code as nat
    } else {
        (pow2(f.width as nat) - 1) as nat
    }
}

/// The pixel word: the fields' bits one after the other, the first one at the
/// most significant end.
pub open spec fn pixel_word(fields: Seq<Field>, codes: ChannelCodes, float: bool) -> nat
    decreases fields.len(),
{
    if fields.len() == 0 {
        0
    } else {
        pixel_word(fields.drop_last(), codes, float) * pow2(fields.last().width as nat)
            + field_bits(fields.last(), codes, float)
    }
}

/// The low `n` bytes of a word, the least significant one first.
pub open spec fn le_bytes(word: nat, n: nat) -> Seq<u8>
    decreases n,
{
    if n == 0 {
        seq![]
    } else {
        seq![(word % 256) as u8] + le_bytes(word / 256, (n - 1) as nat)
    }
}

/// What every layout of the table has in common.
proof fn lemma_layout(f: BufferFormat)
    ensures
        3 <= f.fields().len() <= 4,
        forall|i: int|
            0 <= i < f.fields().len() ==> 1 <= (#[trigger] f.fields()[i]).width <= 16,
        f.float() ==> forall|i: int|
            0 <= i < f.fields().len() ==> (#[trigger] f.fields()[i]).width == 16,
        total_width(f.fields()) <= 64,
        total_width(f.fields()) % 8 == 0,
{
    let s = f.fields();
    reveal_with_fuel(total_width, 5);
    let s1 = s.drop_last();
    let s2 = s1.drop_last();
    let s3 = s2.drop_last();
    assert(s1.len() == s.len() - 1 && s2.len() == s.len() - 2 && s3.len() == s.len() - 3);
    if s.len() == 4 {
        assert(s3.drop_last().len() == 0);
        assert(s.last() == s[3] && s1.last() == s[2] && s2.last() == s[1] && s3.last() == s[0]);
    } else {
        assert(s.last() == s[2] && s1.last() == s[1] && s2.last() == s[0]);
    }
}

/// The table goes from shallow formats to deep ones, and ends with the floats.
pub proof fn table_is_ordered_by_depth(f: BufferFormat)
    ensures
        f.position() < 30 ==> f.depth() <= 8,
        30 <= f.position() < 38 ==> f.depth() == 10,
        38 <= f.position() ==> f.depth() == 16,
        f.float() <==> 44 <= f.position(),
{
    let s = f.fields();
    reveal_with_fuel(narrowest, 5);
    let s1 = s.drop_last();
    let s2 = s1.drop_last();
    let s3 = s2.drop_last();
    assert(s1.len() == s.len() - 1 && s2.len() == s.len() - 2 && s3.len() == s.len() - 3);
    if s.len() == 4 {
        assert(s3.drop_last().len() == 0);
        assert(s.last() == s[3] && s1.last() == s[2] && s2.last() == s[1] && s3.last() == s[0]);
    } else {
        assert(s.last() == s[2] && s1.last() == s[1] && s2.last() == s[0]);
    }
}

proof fn lemma_total_width_of(fields: Seq<Field>, i: int)
    requires
        0 <= i < fields.len(),
    ensures
        total_width(fields.take(i + 1)) == total_width(fields.take(i)) + fields[i].width,
{
    assert(fields.take(i + 1).drop_last() == fields.take(i));
}

proof fn lemma_total_width_grows(fields: Seq<Field>, i: int)
    requires
        0 <= i <= fields.len(),
    ensures
        total_width(fields.take(i)) <= total_width(fields),
    decreases fields.len() - i,
{
    if i < fields.len() {
        lemma_total_width_grows(fields, i + 1);
        lemma_total_width_of(fields, i);
    } else {
        assert(fields.take(i) == fields);
    }
}

proof fn lemma_pow2_monotone(a: nat, b: nat)
    requires
        a <= b,
    ensures
        pow2(a) <= pow2(b),
{
    if a < b {
        lemma_pow2_strictly_increases(a, b);
    }
}

/// One encoded pixel: up to 16 bytes, of which the first `len` are valid.
#[derive(Clone, Copy, Debug)]
pub struct EncodedPixel {
    bytes: [u8; 16],
    len: usize,
}

impl View for EncodedPixel {
    type V = Seq<u8>;

    closed spec fn view(&self) -> Seq<u8> {
        self.bytes@.take(self.len as int)
    }
}

impl EncodedPixel {
    #[verifier::type_invariant]
    spec fn fits(self) -> bool {
        self.len <= 16
    }

    /// The bytes of the pixel.
    pub fn as_slice(&self) -> (res: &[u8])
        ensures
            res@ == self@,
    {
        proof {
            use_type_invariant(self);
        }
        let all: &[u8] = self.bytes.as_slice();
        slice_subrange(all, 0, self.len)
    }
}

impl BufferFormat {
    /// Bytes per pixel in the buffer.
    pub fn bytes_per_pixel(self) -> (res: usize)
        ensures
            8 * res == total_width(self.fields()),
    {
        proof {
            lemma_layout(self);
        }
        let fields = self.spec();
        let mut bits: usize = 0;
        let mut i: usize = 0;
        while i < fields.len()
            invariant
                i <= fields@.len(),
                bits == total_width(fields@.take(i as int)),
                total_width(fields@) <= 64,
            decreases fields@.len() - i,
        {
            proof {
                lemma_total_width_of(fields@, i as int);
                lemma_total_width_grows(fields@, i + 1);
            }
            bits += fields[i].width as usize;
            i += 1;
        }
        assert(fields@.take(i as int) == fields@);
        bits / 8
    }

    /// Whether channels are binary16 floats rather than unsigned-normalised
    /// integers.
    pub fn is_float(self) -> (res: bool)
        ensures
            res == self.float(),
    {
        matches!(
            self,
            BufferFormat::Xrgb16161616f | BufferFormat::Xbgr16161616f | BufferFormat::Argb16161616f
                | BufferFormat::Abgr16161616f
        )
    }

    /// Whether the format carries an alpha channel.
    pub fn has_alpha(self) -> (res: bool)
        ensures
            res == exists|i: int| 0 <= i < self.fields().len() && (#[trigger] self.fields()[i]).chan is A,
    {
        let fields = self.spec();
        let mut i: usize = 0;
        while i < fields.len()
            invariant
                i <= fields@.len(),
                fields@ == self.fields(),
                forall|j: int| 0 <= j < i ==> !((#[trigger] fields@[j]).chan is A),
            decreases fields@.len() - i,
        {
            if fields[i].chan == Chan::A {
                assert(self.fields()[i as int].chan is A);
                return true;
            }
            i += 1;
        }
        false
    }

    /// The narrowest colour channel's width in bits, the format's effective
    /// depth for a grey ramp.
    pub fn color_depth(self) -> (res: u8)
        ensures
            res == self.depth(),
            forall|i: int|
                0 <= i < self.fields().len() && is_color(#[trigger] self.fields()[i]) ==> res
                    <= self.fields()[i].width,
            exists|i: int|
                0 <= i < self.fields().len() && is_color(#[trigger] self.fields()[i]) && res
                    == self.fields()[i].width,
    {
        let fields = self.spec();
        let mut depth: u8 = 255;
        let mut i: usize = 0;
        proof {
            lemma_layout(self);
        }
        while i < fields.len()
            invariant
                i <= fields@.len(),
                forall|j: int|
                    0 <= j < fields@.len() ==> 1 <= (#[trigger] fields@[j]).width <= 16,
                forall|j: int|
                    0 <= j < i && is_color(#[trigger] fields@[j]) ==> depth <= fields@[j].width,
                depth == narrowest(fields@.take(i as int)),
                depth == 255 ==> forall|j: int| 0 <= j < i ==> !is_color(#[trigger] fields@[j]),
                depth != 255 ==> exists|j: int|
                    0 <= j < i && is_color(#[trigger] fields@[j]) && depth == fields@[j].width,
            decreases fields@.len() - i,
        {
            let f = fields[i];
            assert(fields@.take(i + 1).drop_last() == fields@.take(i as int));
            let color: bool = f.chan == Chan::R || f.chan == Chan::G || f.chan == Chan::B;
            if color && f.width < depth {
                depth = f.width;
                assert(is_color(fields@[i as int]) && depth == fields@[i as int].width);
            }
            i += 1;
        }
        proof {
            assert(is_color(self.fields()[0]) || is_color(self.fields()[1]));
            assert(fields@.take(i as int) == fields@);
        }
        depth
    }

    /// Quantises colours for a format with unsigned-normalised channels: each
    /// channel is clamped to the range from zero to one and scaled to its
    /// greatest code.
    pub fn quantized(self, rgb: Triple) -> (res: ChannelCodes)
        ensures
            res.r == channel_code(rgb.a, greatest_code(width_of(self.fields(), Chan::R))),
            res.g == channel_code(rgb.b, greatest_code(width_of(self.fields(), Chan::G))),
            res.b == channel_code(rgb.c, greatest_code(width_of(self.fields(), Chan::B))),
    {
        ChannelCodes {
            r: quantize(rgb.a, self.channel_max(Chan::R)),
            g: quantize(rgb.b, self.channel_max(Chan::G)),
            b: quantize(rgb.c, self.channel_max(Chan::B)),
        }
    }

    fn channel_max(self, c: Chan) -> (res: u16)
        ensures
            res == greatest_code(width_of(self.fields(), c)),
    {
        proof {
            lemma_layout(self);
        }
        let fields = self.spec();
        let mut width: u8 = 0;
        let mut i: usize = 0;
        assert(fields@.take(0).len() == 0);
        while i < fields.len()
            invariant
                i <= fields@.len(),
                forall|j: int|
                    0 <= j < fields@.len() ==> 1 <= (#[trigger] fields@[j]).width <= 16,
                width == width_of(fields@.take(i as int), c),
                width <= 16,
            decreases fields@.len() - i,
        {
            assert(fields@.take(i + 1).drop_last() == fields@.take(i as int));
            if fields[i].chan == c {
                width = fields[i].width;
            }
            i += 1;
        }
        assert(fields@.take(i as int) == fields@);
        proof {
            lemma2_to64();
            lemma_pow2_monotone(width as nat, 16);
            lemma_pow2_pos(width as nat);
        }
        (power_of_two(width as u32) - 1) as u16
    }

    /// Packs one channel triple into a pixel. Codes that a channel cannot hold
    /// become its greatest one; alpha and padding are written fully opaque.
    pub fn encode(self, codes: ChannelCodes) -> (res: EncodedPixel)
        ensures
            res@ == le_bytes(
                pixel_word(self.fields(), codes, self.float()),
                total_width(self.fields()) / 8,
            ),
    {
        proof {
            lemma_layout(self);
            lemma2_to64();
            lemma2_to64_rest();
        }
        let fields = self.spec();
        let float: bool = self.is_float();
        let mut word: u64 = 0;
        let mut bits: usize = 0;
        let mut i: usize = 0;
        while i < fields.len()
            invariant
                i <= fields@.len(),
                forall|j: int|
                    0 <= j < fields@.len() ==> 1 <= (#[trigger] fields@[j]).width <= 16,
                float ==> forall|j: int|
                    0 <= j < fields@.len() ==> (#[trigger] fields@[j]).width == 16,
                total_width(fields@) <= 64,
                bits == total_width(fields@.take(i as int)),
                word == pixel_word(fields@.take(i as int), codes, float),
                word < pow2(bits as nat),
                pow2(64) == 0x1_0000_0000_0000_0000,
                pow2(16) == 0x1_0000,
            decreases fields@.len() - i,
        {
            let f = fields[i];
            let ghost before = fields@.take(i as int);
            proof {
                lemma_total_width_of(fields@, i as int);
                lemma_total_width_grows(fields@, i + 1);
                assert(fields@.take(i + 1).drop_last() == before);
                lemma_pow2_pos(f.width as nat);
                lemma_pow2_monotone(f.width as nat, 16);
                lemma_pow2_adds(bits as nat, f.width as nat);
                lemma_pow2_monotone((bits + f.width) as nat, 64);
            }
            let scale: u64 = power_of_two(f.width as u32);
            let code: u16 = match f.chan {
                Chan::R => codes.r,
                Chan::G => codes.g,
                Chan::B => codes.b,
                _ => if float {
                    HALF_ONE
                } else {
                    u16::MAX
                },
            };
            let stored: u64 = if float || (code as u64) < scale {
                code as u64
            } else {
                scale - 1
            };
            assert(stored == field_bits(f, codes, float));
            assert(stored < scale);
            assert(word * scale + stored < pow2((bits + f.width) as nat)) by (nonlinear_arith)
                requires
                    word < pow2(bits as nat),
                    scale == pow2(f.width as nat),
                    stored < scale,
                    pow2((bits + f.width) as nat) == pow2(bits as nat) * pow2(f.width as nat),
            ;
            assert(0 <= word * scale) by (nonlinear_arith);
            word = word * scale + stored;
            bits += f.width as usize;
            i += 1;
        }
        assert(fields@.take(i as int) == fields@);
        let len: usize = bits / 8;
        let ghost whole = word as nat;
        let mut bytes: [u8; 16] = [0u8;16];
        let mut k: usize = 0;
        assert(bytes@.take(0) + le_bytes(whole, len as nat) == le_bytes(whole, len as nat));
        while k < len
            invariant
                k <= len <= 8,
                bytes@.take(k as int) + le_bytes(word as nat, (len - k) as nat) == le_bytes(
                    whole,
                    len as nat,
                ),
            decreases len - k,
        {
            let ghost before = bytes@;
            bytes[k] = (word % 256) as u8;
            assert(bytes@.take(k + 1) == before.take(k as int).push((word % 256) as u8));
            assert(before.take(k as int) + (seq![(word % 256) as u8] + le_bytes(
                (word / 256) as nat,
                (len - k - 1) as nat,
            )) == bytes@.take(k + 1) + le_bytes((word / 256) as nat, (len - k - 1) as nat));
            word = word / 256;
            k += 1;
        }
        assert(bytes@.take(len as int) + le_bytes(word as nat, 0) == bytes@.take(len as int));
        EncodedPixel { bytes, len }
    }

    /// The format with a `wl_shm` code; none for a code that is not in the table.
    pub fn from_wl(code: u32) -> (res: Option<BufferFormat>)
        ensures
            match res {
                Some(f) => f.wl_code() == code,
                None => forall|f: BufferFormat| #[trigger] f.wl_code() != code,
            },
    {
        let all = Self::all();
        let mut i: usize = 0;
        while i < all.len()
            invariant
                i <= all@.len(),
                all@ == all_formats(),
                forall|j: int| 0 <= j < i ==> (#[trigger] all@[j]).wl_code() != code,
            decreases all@.len() - i,
        {
            if all[i].wl_format() == code {
                return Some(all[i]);
            }
            i += 1;
        }
        proof {
            assert forall|f: BufferFormat| #[trigger] f.wl_code() != code by {
                every_format_is_in_the_table(f);
            }
        }
        None
    }

    /// The format of a name; none for a name that is not in the table.
    pub fn from_name(name: &str) -> (res: Option<BufferFormat>)
        ensures
            match res {
                Some(f) => f.name_text() == name@,
                None => forall|f: BufferFormat| #[trigger] f.name_text() != name@,
            },
    {
        let all = Self::all();
        let mut i: usize = 0;
        while i < all.len()
            invariant
                i <= all@.len(),
                all@ == all_formats(),
                forall|j: int| 0 <= j < i ==> (#[trigger] all@[j]).name_text() != name@,
            decreases all@.len() - i,
        {
            if same_text(all[i].name(), name) {
                return Some(all[i]);
            }
            i += 1;
        }
        proof {
            assert forall|f: BufferFormat| #[trigger] f.name_text() != name@ by {
                every_format_is_in_the_table(f);
            }
        }
        None
    }
}

proof fn lemma_le_bytes_len(word: nat, n: nat)
    ensures
        le_bytes(word, n).len() == n,
    decreases n,
{
    if n > 0 {
        lemma_le_bytes_len(word / 256, (n - 1) as nat);
    }
}

/// An encoded pixel has as many bytes as the format says.
pub proof fn pixel_length_is_bytes_per_pixel(f: BufferFormat, codes: ChannelCodes)
    ensures
        8 * le_bytes(pixel_word(f.fields(), codes, f.float()), total_width(f.fields()) / 8).len()
            == total_width(f.fields()),
{
    lemma_layout(f);
    lemma_le_bytes_len(
        pixel_word(f.fields(), codes, f.float()),
        total_width(f.fields()) / 8,
    );
}

/// Alpha and padding are opaque in every pixel: their bits are the same for all
/// colours, all ones in an integer format and 1.0 in a float format.
pub proof fn alpha_is_always_opaque(f: BufferFormat, i: int, codes: ChannelCodes)
    requires
        0 <= i < f.fields().len(),
        !is_color(f.fields()[i]),
    ensures
        f.float() ==> field_bits(f.fields()[i], codes, true) == HALF_ONE,
        !f.float() ==> field_bits(f.fields()[i], codes, false) == pow2(
            f.fields()[i].width as nat,
        ) - 1,
{
    lemma_layout(f);
    lemma2_to64();
    lemma_pow2_monotone(f.fields()[i].width as nat, 16);
}

// ---------------------------------------------------------------------------
// Names and codes spell the layout
// ---------------------------------------------------------------------------

/// The letter of a channel.
pub open spec fn letter(c: Chan) -> char {
    match c {
        Chan::R => 'r',
        Chan::G => 'g',
        Chan::B => 'b',
        Chan::A => 'a',
        Chan::X => 'x',
    }
}

/// The widths of some fields, one after the other.
pub open spec fn width_digits(fields: Seq<Field>) -> Seq<char>
    decreases fields.len(),
{
    if fields.len() == 0 {
        seq![]
    } else {
        width_digits(fields.drop_last()) + decimal_text(fields.last().width as nat)
    }
}

/// The name that a layout has: the letters of its channels from the most to the least
/// significant end, then their widths, then `f` for floats.
pub open spec fn spelled(fields: Seq<Field>, float: bool) -> Seq<char> {
    Seq::new(fields.len(), |i: int| letter(fields[i].chan)) + width_digits(fields) + if float {
        seq!['f']
    } else {
        seq![]
    }
}

proof fn lemma_width_texts()
    ensures
        decimal_text(1) == seq!['1'],
        decimal_text(2) == seq!['2'],
        decimal_text(3) == seq!['3'],
        decimal_text(4) == seq!['4'],
        decimal_text(5) == seq!['5'],
        decimal_text(6) == seq!['6'],
        decimal_text(8) == seq!['8'],
        decimal_text(10) == seq!['1', '0'],
        decimal_text(12) == seq!['1', '2'],
        decimal_text(15) == seq!['1', '5'],
        decimal_text(16) == seq!['1', '6'],
        decimal_text(24) == seq!['2', '4'],
        decimal_text(30) == seq!['3', '0'],
        decimal_text(48) == seq!['4', '8'],
{
    reveal_with_fuel(decimal_text, 3);
    assert(digit_char(0) == '0' && digit_char(1) == '1' && digit_char(2) == '2' && digit_char(3)
        == '3' && digit_char(4) == '4' && digit_char(5) == '5' && digit_char(6) == '6'
        && digit_char(8) == '8');
}

proof fn lemma_width_digits(s: Seq<Field>)
    ensures
        s.len() == 3 ==> width_digits(s) == decimal_text(s[0].width as nat) + decimal_text(
            s[1].width as nat,
        ) + decimal_text(s[2].width as nat),
        s.len() == 4 ==> width_digits(s) == decimal_text(s[0].width as nat) + decimal_text(
            s[1].width as nat,
        ) + decimal_text(s[2].width as nat) + decimal_text(s[3].width as nat),
{
    reveal_with_fuel(width_digits, 5);
    if s.len() == 3 || s.len() == 4 {
        let s1 = s.drop_last();
        let s2 = s1.drop_last();
        let s3 = s2.drop_last();
        if s.len() == 4 {
            assert(s3.drop_last().len() == 0);
            assert(s.last() == s[3] && s1.last() == s[2] && s2.last() == s[1] && s3.last() == s[0]);
            assert(width_digits(s3) == decimal_text(s[0].width as nat));
        } else {
            assert(s3.len() == 0);
            assert(s.last() == s[2] && s1.last() == s[1] && s2.last() == s[0]);
            assert(width_digits(s2) == decimal_text(s[0].width as nat));
        }
    }
}

proof fn lemma_spelled_0(f: BufferFormat)
    requires
        0 <= f.position() < 8,
    ensures
        f.name_text() == spelled(f.fields(), f.float()),
{
    lemma_width_texts();
    lemma_width_digits(f.fields());
    let s = spelled(f.fields(), f.float());
    if f == BufferFormat::Rgb332 {
        assert(f.name_text() == s) by {
            reveal_strlit("rgb332");
        }
    }
    if f == BufferFormat::Bgr233 {
        assert(f.name_text() == s) by {
            reveal_strlit("bgr233");
        }
    }
    if f == BufferFormat::Xrgb4444 {
        assert(f.name_text() == s) by {
            reveal_strlit("xrgb4444");
        }
    }
    if f == BufferFormat::Xbgr4444 {
        assert(f.name_text() == s) by {
            reveal_strlit("xbgr4444");
        }
    }
    if f == BufferFormat::Rgbx4444 {
        assert(f.name_text() == s) by {
            reveal_strlit("rgbx4444");
        }
    }
    if f == BufferFormat::Bgrx4444 {
        assert(f.name_text() == s) by {
            reveal_strlit("bgrx4444");
        }
    }
    if f == BufferFormat::Argb4444 {
        assert(f.name_text() == s) by {
            reveal_strlit("argb4444");
        }
    }
    if f == BufferFormat::Abgr4444 {
        assert(f.name_text() == s) by {
            reveal_strlit("abgr4444");
        }
    }
}

proof fn lemma_spelled_1(f: BufferFormat)
    requires
        8 <= f.position() < 16,
    ensures
        f.name_text() == spelled(f.fields(), f.float()),
{
    lemma_width_texts();
    lemma_width_digits(f.fields());
    let s = spelled(f.fields(), f.float());
    if f == BufferFormat::Rgba4444 {
        assert(f.name_text() == s) by {
            reveal_strlit("rgba4444");
        }
    }
    if f == BufferFormat::Bgra4444 {
        assert(f.name_text() == s) by {
            reveal_strlit("bgra4444");
        }
    }
    if f == BufferFormat::Xrgb1555 {
        assert(f.name_text() == s) by {
            reveal_strlit("xrgb1555");
        }
    }
    if f == BufferFormat::Xbgr1555 {
        assert(f.name_text() == s) by {
            reveal_strlit("xbgr1555");
        }
    }
    if f == BufferFormat::Rgbx5551 {
        assert(f.name_text() == s) by {
            reveal_strlit("rgbx5551");
        }
    }
    if f == BufferFormat::Bgrx5551 {
        assert(f.name_text() == s) by {
            reveal_strlit("bgrx5551");
        }
    }
    if f == BufferFormat::Argb1555 {
        assert(f.name_text() == s) by {
            reveal_strlit("argb1555");
        }
    }
    if f == BufferFormat::Abgr1555 {
        assert(f.name_text() == s) by {
            reveal_strlit("abgr1555");
        }
    }
}

proof fn lemma_spelled_2(f: BufferFormat)
    requires
        16 <= f.position() < 24,
    ensures
        f.name_text() == spelled(f.fields(), f.float()),
{
    lemma_width_texts();
    lemma_width_digits(f.fields());
    let s = spelled(f.fields(), f.float());
    if f == BufferFormat::Rgba5551 {
        assert(f.name_text() == s) by {
            reveal_strlit("rgba5551");
        }
    }
    if f == BufferFormat::Bgra5551 {
        assert(f.name_text() == s) by {
            reveal_strlit("bgra5551");
        }
    }
    if f == BufferFormat::Rgb565 {
        assert(f.name_text() == s) by {
            reveal_strlit("rgb565");
        }
    }
    if f == BufferFormat::Bgr565 {
        assert(f.name_text() == s) by {
            reveal_strlit("bgr565");
        }
    }
    if f == BufferFormat::Rgb888 {
        assert(f.name_text() == s) by {
            reveal_strlit("rgb888");
        }
    }
    if f == BufferFormat::Bgr888 {
        assert(f.name_text() == s) by {
            reveal_strlit("bgr888");
        }
    }
    if f == BufferFormat::Xrgb8888 {
        assert(f.name_text() == s) by {
            reveal_strlit("xrgb8888");
        }
    }
    if f == BufferFormat::Xbgr8888 {
        assert(f.name_text() == s) by {
            reveal_strlit("xbgr8888");
        }
    }
}

proof fn lemma_spelled_3(f: BufferFormat)
    requires
        24 <= f.position() < 32,
    ensures
        f.name_text() == spelled(f.fields(), f.float()),
{
    lemma_width_texts();
    lemma_width_digits(f.fields());
    let s = spelled(f.fields(), f.float());
    if f == BufferFormat::Rgbx8888 {
        assert(f.name_text() == s) by {
            reveal_strlit("rgbx8888");
        }
    }
    if f == BufferFormat::Bgrx8888 {
        assert(f.name_text() == s) by {
            reveal_strlit("bgrx8888");
        }
    }
    if f == BufferFormat::Argb8888 {
        assert(f.name_text() == s) by {
            reveal_strlit("argb8888");
        }
    }
    if f == BufferFormat::Abgr8888 {
        assert(f.name_text() == s) by {
            reveal_strlit("abgr8888");
        }
    }
    if f == BufferFormat::Rgba8888 {
        assert(f.name_text() == s) by {
            reveal_strlit("rgba8888");
        }
    }
    if f == BufferFormat::Bgra8888 {
        assert(f.name_text() == s) by {
            reveal_strlit("bgra8888");
        }
    }
    if f == BufferFormat::Xrgb2101010 {
        assert(f.name_text() == s) by {
            reveal_strlit("xrgb2101010");
        }
    }
    if f == BufferFormat::Xbgr2101010 {
        assert(f.name_text() == s) by {
            reveal_strlit("xbgr2101010");
        }
    }
}

proof fn lemma_spelled_4(f: BufferFormat)
    requires
        32 <= f.position() < 40,
    ensures
        f.name_text() == spelled(f.fields(), f.float()),
{
    lemma_width_texts();
    lemma_width_digits(f.fields());
    let s = spelled(f.fields(), f.float());
    if f == BufferFormat::Rgbx1010102 {
        assert(f.name_text() == s) by {
            reveal_strlit("rgbx1010102");
        }
    }
    if f == BufferFormat::Bgrx1010102 {
        assert(f.name_text() == s) by {
            reveal_strlit("bgrx1010102");
        }
    }
    if f == BufferFormat::Argb2101010 {
        assert(f.name_text() == s) by {
            reveal_strlit("argb2101010");
        }
    }
    if f == BufferFormat::Abgr2101010 {
        assert(f.name_text() == s) by {
            reveal_strlit("abgr2101010");
        }
    }
    if f == BufferFormat::Rgba1010102 {
        assert(f.name_text() == s) by {
            reveal_strlit("rgba1010102");
        }
    }
    if f == BufferFormat::Bgra1010102 {
        assert(f.name_text() == s) by {
            reveal_strlit("bgra1010102");
        }
    }
    if f == BufferFormat::Rgb161616 {
        assert(f.name_text() == s) by {
            reveal_strlit("rgb161616");
        }
    }
    if f == BufferFormat::Bgr161616 {
        assert(f.name_text() == s) by {
            reveal_strlit("bgr161616");
        }
    }
}

proof fn lemma_spelled_5(f: BufferFormat)
    requires
        40 <= f.position() < 48,
    ensures
        f.name_text() == spelled(f.fields(), f.float()),
{
    lemma_width_texts();
    lemma_width_digits(f.fields());
    let s = spelled(f.fields(), f.float());
    if f == BufferFormat::Xrgb16161616 {
        assert(f.name_text() == s) by {
            reveal_strlit("xrgb16161616");
        }
    }
    if f == BufferFormat::Xbgr16161616 {
        assert(f.name_text() == s) by {
            reveal_strlit("xbgr16161616");
        }
    }
    if f == BufferFormat::Argb16161616 {
        assert(f.name_text() == s) by {
            reveal_strlit("argb16161616");
        }
    }
    if f == BufferFormat::Abgr16161616 {
        assert(f.name_text() == s) by {
            reveal_strlit("abgr16161616");
        }
    }
    if f == BufferFormat::Xrgb16161616f {
        assert(f.name_text() == s) by {
            reveal_strlit("xrgb16161616f");
        }
    }
    if f == BufferFormat::Xbgr16161616f {
        assert(f.name_text() == s) by {
            reveal_strlit("xbgr16161616f");
        }
    }
    if f == BufferFormat::Argb16161616f {
        assert(f.name_text() == s) by {
            reveal_strlit("argb16161616f");
        }
    }
    if f == BufferFormat::Abgr16161616f {
        assert(f.name_text() == s) by {
            reveal_strlit("abgr16161616f");
        }
    }
}

/// The name of a format spells its layout: its channels from the most to the least
/// significant end of the word, their widths, and whether they are floats.
pub proof fn names_spell_the_layout(f: BufferFormat, name: &'static str)
    requires
        call_ensures(BufferFormat::name, (f,), name),
    ensures
        name@ == spelled(f.fields(), f.float()),
{
    every_format_is_in_the_table(f);
    if f.position() < 8 {
        lemma_spelled_0(f);
    } else if f.position() < 16 {
        lemma_spelled_1(f);
    } else if f.position() < 24 {
        lemma_spelled_2(f);
    } else if f.position() < 32 {
        lemma_spelled_3(f);
    } else if f.position() < 40 {
        lemma_spelled_4(f);
    } else {
        lemma_spelled_5(f);
    }
}

/// Four characters as a code, the first one in the lowest byte.
pub open spec fn fourcc(a: char, b: char, c: char, d: char) -> int {
    a as int + 0x100 * (b as int) + 0x1_0000 * (c as int) + 0x100_0000 * (d as int)
}

/// The capital letter of a channel.
pub open spec fn capital(c: Chan) -> char {
    match c {
        Chan::R => 'R',
        Chan::G => 'G',
        Chan::B => 'B',
        Chan::A => 'A',
        Chan::X => 'X',
    }
}

/// How many bits of a pixel hold colour.
pub open spec fn color_bits(fields: Seq<Field>) -> nat
    decreases fields.len(),
{
    if fields.len() == 0 {
        0
    } else {
        color_bits(fields.drop_last()) + if is_color(fields.last()) {
            fields.last().width as nat
        } else {
            0
        }
    }
}

/// The code of a format spells its layout too: the letters of its first two channels,
/// or of its first and last where the alpha or padding comes last, and the number of
/// its colour bits, or `4H` for floats. Only the two formats that every compositor
/// has are numbered 0 and 1 instead, and the formats of one byte have three letters.
pub proof fn codes_spell_the_layout(f: BufferFormat, code: u32)
    requires
        call_ensures(BufferFormat::wl_format, (f,), code),
    ensures
        ({
            let s = f.fields();
            let first = capital(s[0].chan);
            let second = if s.len() == 4 && is_color(s[0]) {
                capital(s[3].chan)
            } else {
                capital(s[1].chan)
            };
            let n = color_bits(s);
            let digits = decimal_text(n);
            &&& code == 0 <==> f == BufferFormat::Argb8888
            &&& code == 1 <==> f == BufferFormat::Xrgb8888
            &&& code > 1 && n == 8 ==> code == fourcc(first, second, capital(s[2].chan), '8')
            &&& code > 1 && n > 8 && !f.float() ==> digits.len() == 2 && code == fourcc(
                first,
                second,
                digits[0],
                digits[1],
            )
            &&& f.float() ==> code == fourcc(first, second, '4', 'H')
        }),
{
    lemma_width_texts();
    lemma_color_bits(f);
    if f.position() < 10 {
        lemma_code_letters_0(f);
    } else if f.position() < 20 {
        lemma_code_letters_1(f);
    } else if f.position() < 30 {
        lemma_code_letters_2(f);
    } else if f.position() < 40 {
        lemma_code_letters_3(f);
    } else {
        lemma_code_letters_4(f);
    }
}

proof fn lemma_color_bits(f: BufferFormat)
    ensures
        color_bits(f.fields()) == if f.position() < 2 {
            8nat
        } else if f.position() < 10 {
            12
        } else if f.position() < 18 {
            15
        } else if f.position() < 20 {
            16
        } else if f.position() < 30 {
            24
        } else if f.position() < 38 {
            30
        } else {
            48
        },
{
    let s = f.fields();
    reveal_with_fuel(color_bits, 5);
    let s1 = s.drop_last();
    let s2 = s1.drop_last();
    let s3 = s2.drop_last();
    assert(s1.len() == s.len() - 1 && s2.len() == s.len() - 2 && s3.len() == s.len() - 3);
    if s.len() == 4 {
        assert(s3.drop_last().len() == 0);
        assert(s.last() == s[3] && s1.last() == s[2] && s2.last() == s[1] && s3.last() == s[0]);
    } else {
        assert(s.last() == s[2] && s1.last() == s[1] && s2.last() == s[0]);
    }
}

/// The letters of a code, and the two characters behind them.
spec fn code_is(f: BufferFormat, c: char, d: char) -> bool {
    let s = f.fields();
    f.wl_code() == fourcc(
        capital(s[0].chan),
        if s.len() == 4 && is_color(s[0]) {
            capital(s[3].chan)
        } else {
            capital(s[1].chan)
        },
        c,
        d,
    )
}

proof fn lemma_code_letters_0(f: BufferFormat)
    requires
        f.position() < 10,
    ensures
        f.wl_code() > 1,
        f.position() < 2 ==> code_is(f, capital(f.fields()[2].chan), '8'),
        f.position() >= 2 ==> code_is(f, '1', '2'),
{
}

proof fn lemma_code_letters_1(f: BufferFormat)
    requires
        10 <= f.position() < 20,
    ensures
        f.wl_code() > 1,
        f.position() < 18 ==> code_is(f, '1', '5'),
        f.position() >= 18 ==> code_is(f, '1', '6'),
{
}

proof fn lemma_code_letters_2(f: BufferFormat)
    requires
        20 <= f.position() < 30,
    ensures
        f == BufferFormat::Argb8888 <==> f.wl_code() == 0,
        f == BufferFormat::Xrgb8888 <==> f.wl_code() == 1,
        f.wl_code() > 1 ==> code_is(f, '2', '4'),
{
}

proof fn lemma_code_letters_3(f: BufferFormat)
    requires
        30 <= f.position() < 40,
    ensures
        f.wl_code() > 1,
        f.position() < 38 ==> code_is(f, '3', '0'),
        f.position() >= 38 ==> code_is(f, '4', '8'),
{
}

proof fn lemma_code_letters_4(f: BufferFormat)
    requires
        40 <= f.position(),
    ensures
        f.wl_code() > 1,
        !f.float() ==> code_is(f, '4', '8'),
        f.float() ==> code_is(f, '4', 'H'),
{
}

// ---------------------------------------------------------------------------
// Pixels can be taken apart
// ---------------------------------------------------------------------------

proof fn lemma_le_bytes_value(word: nat, n: nat)
    requires
        word < pow2(8 * n),
    ensures
        le_value(le_bytes(word, n)) == word,
    decreases n,
{
    lemma2_to64();
    if n > 0 {
        lemma_pow2_adds(8, (8 * (n - 1)) as nat);
        assert(pow2(8) == 256);
        let rest = le_bytes(word / 256, (n - 1) as nat);
        lemma_le_bytes_value(word / 256, (n - 1) as nat);
        let all = le_bytes(word, n);
        assert(all.skip(1) == rest);
        assert(all.first() == (word % 256) as u8);
    }
}

proof fn lemma_field_fits(f: BufferFormat, i: int, codes: ChannelCodes)
    requires
        0 <= i < f.fields().len(),
    ensures
        field_bits(f.fields()[i], codes, f.float()) < pow2(f.fields()[i].width as nat),
{
    lemma_layout(f);
    lemma2_to64();
    lemma_pow2_pos(f.fields()[i].width as nat);
}

proof fn lemma_word_fits(fields: Seq<Field>, codes: ChannelCodes, float: bool)
    requires
        forall|k: int|
            0 <= k < fields.len() ==> field_bits(#[trigger] fields[k], codes, float) < pow2(
                fields[k].width as nat,
            ),
    ensures
        pixel_word(fields, codes, float) < pow2(total_width(fields)),
    decreases fields.len(),
{
    lemma2_to64();
    if fields.len() > 0 {
        let front = fields.drop_last();
        assert forall|k: int| 0 <= k < front.len() implies field_bits(
            #[trigger] front[k],
            codes,
            float,
        ) < pow2(front[k].width as nat) by {
            assert(front[k] == fields[k]);
        }
        lemma_word_fits(front, codes, float);
        let w = fields.last().width as nat;
        assert(fields[fields.len() - 1] == fields.last());
        lemma_pow2_adds(total_width(front), w);
        let p = pixel_word(front, codes, float);
        let b = field_bits(fields.last(), codes, float);
        assert(p * pow2(w) + b < pow2(total_width(front)) * pow2(w)) by (nonlinear_arith)
            requires
                p < pow2(total_width(front)),
                b < pow2(w),
        ;
    }
}

proof fn lemma_word_parts(fields: Seq<Field>, codes: ChannelCodes, float: bool, i: int)
    requires
        0 <= i < fields.len(),
        forall|k: int|
            0 <= k < fields.len() ==> field_bits(#[trigger] fields[k], codes, float) < pow2(
                fields[k].width as nat,
            ),
    ensures
        pixel_word(fields, codes, float) / pow2(total_width(fields.skip(i + 1))) % pow2(
            fields[i].width as nat,
        ) == field_bits(fields[i], codes, float),
    decreases fields.len(),
{
    lemma2_to64();
    let front = fields.drop_last();
    let last = fields.last();
    let w = pow2(last.width as nat);
    lemma_pow2_pos(last.width as nat);
    let p = pixel_word(front, codes, float);
    let b = field_bits(last, codes, float);
    let word = pixel_word(fields, codes, float);
    assert(fields[fields.len() - 1] == last);
    assert(word / w == p && word % w == b) by {
        vstd::arithmetic::div_mod::lemma_fundamental_div_mod_converse(
            word as int,
            w as int,
            p as int,
            b as int,
        );
    }
    if i == fields.len() - 1 {
        assert(fields.skip(i + 1).len() == 0);
        assert(word / 1 == word);
    } else {
        let rest = fields.skip(i + 1);
        assert(rest.drop_last() == front.skip(i + 1));
        assert(rest.last() == last);
        let t = total_width(front.skip(i + 1));
        lemma_pow2_adds(last.width as nat, t);
        lemma_pow2_pos(t);
        assert(total_width(rest) == last.width as nat + t);
        vstd::arithmetic::div_mod::lemma_div_denominator(word as int, w as int, pow2(t) as int);
        assert forall|k: int| 0 <= k < front.len() implies field_bits(
            #[trigger] front[k],
            codes,
            float,
        ) < pow2(front[k].width as nat) by {
            assert(front[k] == fields[k]);
        }
        lemma_word_parts(front, codes, float, i);
        assert(front[i] == fields[i]);
    }
}

/// A pixel can be taken apart again: read as a number with its first byte lowest, its
/// bits from where a field lies are that channel's code, or the greatest one that the
/// field can hold. Alpha and padding are full.
pub proof fn pixels_can_be_taken_apart(
    f: BufferFormat,
    codes: ChannelCodes,
    res: EncodedPixel,
    i: int,
)
    requires
        call_ensures(BufferFormat::encode, (f, codes), res),
        0 <= i < f.fields().len(),
    ensures
        ({
            let field = f.fields()[i];
            let size = pow2(field.width as nat);
            let at = total_width(f.fields().skip(i + 1));
            let bits = le_value(res@) / pow2(at) % size;
            let stored = |c: u16|
                if c < size {
                    c as int
                } else {
                    size - 1
                };
            &&& 8 * res@.len() == total_width(f.fields())
            &&& field.chan is R ==> bits == stored(codes.r)
            &&& field.chan is G ==> bits == stored(codes.g)
            &&& field.chan is B ==> bits == stored(codes.b)
            &&& !is_color(field) && !f.float() ==> bits == size - 1
            &&& !is_color(field) && f.float() ==> bits == 0x3c00
        }),
{
    let s = f.fields();
    lemma_layout(f);
    lemma2_to64();
    assert forall|k: int| 0 <= k < s.len() implies field_bits(#[trigger] s[k], codes, f.float())
        < pow2(s[k].width as nat) by {
        lemma_field_fits(f, k, codes);
    }
    lemma_word_fits(s, codes, f.float());
    lemma_word_parts(s, codes, f.float(), i);
    let n = total_width(s) / 8;
    assert(8 * n == total_width(s));
    lemma_le_bytes_value(pixel_word(s, codes, f.float()), n);
    lemma_le_bytes_len(pixel_word(s, codes, f.float()), n);
    assert(pow2(16) == 0x1_0000);
    lemma_pow2_monotone(s[i].width as nat, 16);
}

proof fn lemma_width_of(fields: Seq<Field>, c: Chan, i: int)
    requires
        0 <= i < fields.len(),
        fields[i].chan == c,
        forall|k: int| i < k < fields.len() ==> (#[trigger] fields[k]).chan != c,
    ensures
        width_of(fields, c) == fields[i].width,
    decreases fields.len(),
{
    if i < fields.len() - 1 {
        assert(fields[fields.len() - 1].chan != c);
        lemma_width_of(fields.drop_last(), c, i);
    }
}

/// Quantising treats each channel by itself: red goes by the first number and the
/// width of the red field alone, and so on. Full scale and all above it is the
/// greatest code, and nothing or less is zero.
pub proof fn channels_are_quantized_apart(
    f: BufferFormat,
    rgb: Triple,
    res: ChannelCodes,
    other: Triple,
    changed: ChannelCodes,
    i: int,
)
    requires
        call_ensures(BufferFormat::quantized, (f, rgb), res),
        call_ensures(BufferFormat::quantized, (f, other), changed),
        0 <= i < f.fields().len(),
    ensures
        rgb.a == other.a ==> res.r == changed.r,
        rgb.b == other.b ==> res.g == changed.g,
        rgb.c == other.c ==> res.b == changed.b,
        ({
            let one = Double { bits: 0x3ff0_0000_0000_0000 };
            let zero = Double { bits: 0 };
            let full = pow2(f.fields()[i].width as nat) - 1;
            let at_ends = |v: Double, code: u16|
                (!v.nan() && !v.less(one) ==> code == full) && (!zero.less(v) ==> code == 0) && code
                    <= full;
            &&& f.fields()[i].chan is R ==> at_ends(rgb.a, res.r)
            &&& f.fields()[i].chan is G ==> at_ends(rgb.b, res.g)
            &&& f.fields()[i].chan is B ==> at_ends(rgb.c, res.b)
        }),
{
    let s = f.fields();
    lemma_layout(f);
    lemma2_to64();
    lemma_pow2_monotone(s[i].width as nat, 16);
    lemma_pow2_pos(s[i].width as nat);
    lemma_unique_channels(f, i);
    lemma_width_of(s, s[i].chan, i);
    let max = greatest_code(s[i].width);
    assert(max == pow2(s[i].width as nat) - 1);
    lemma_code_ends(rgb.a, max);
    lemma_code_ends(rgb.b, max);
    lemma_code_ends(rgb.c, max);
}

proof fn lemma_unique_channels(f: BufferFormat, i: int)
    requires
        0 <= i < f.fields().len(),
    ensures
        forall|k: int|
            i < k < f.fields().len() ==> (#[trigger] f.fields()[k]).chan != f.fields()[i].chan,
{
}

proof fn lemma_code_ends(v: Double, max: u16)
    ensures
        ({
            let one = Double { bits: 0x3ff0_0000_0000_0000 };
            let zero = Double { bits: 0 };
            &&& !v.nan() && !v.less(one) ==> channel_code(v, max) == max
            &&& !zero.less(v) ==> channel_code(v, max) == 0
            &&& channel_code(v, max) <= max
        }),
{
    if !(Double { bits: 0 }).less(v) && !v.nan() && !v.negative() {
        assert(v.bits == 0);
        zero_scales_to_zero(max as u32, max as u64);
    }
}

/// The depth of a format is at most the width of any colour field, and its size is
/// that of all its fields.
pub proof fn formats_say_what_their_fields_are(
    f: BufferFormat,
    depth: u8,
    bytes: usize,
    i: int,
)
    requires
        call_ensures(BufferFormat::color_depth, (f,), depth),
        call_ensures(BufferFormat::bytes_per_pixel, (f,), bytes),
        0 <= i < f.fields().len(),
    ensures
        is_color(f.fields()[i]) ==> depth <= f.fields()[i].width,
        depth == f.depth(),
        f.fields().len() == 3 ==> 8 * bytes == f.fields()[0].width + f.fields()[1].width
            + f.fields()[2].width,
        f.fields().len() == 4 ==> 8 * bytes == f.fields()[0].width + f.fields()[1].width
            + f.fields()[2].width + f.fields()[3].width,
{
    let s = f.fields();
    if is_color(s[i]) {
        lemma_narrowest(s, i);
    }
    reveal_with_fuel(total_width, 5);
    let s1 = s.drop_last();
    let s2 = s1.drop_last();
    let s3 = s2.drop_last();
    if s.len() == 4 {
        assert(s3.drop_last().len() == 0);
        assert(s.last() == s[3] && s1.last() == s[2] && s2.last() == s[1] && s3.last() == s[0]);
    } else if s.len() == 3 {
        assert(s3.len() == 0);
        assert(s.last() == s[2] && s1.last() == s[1] && s2.last() == s[0]);
    }
}

proof fn lemma_narrowest(s: Seq<Field>, i: int)
    requires
        0 <= i < s.len(),
        is_color(s[i]),
    ensures
        narrowest(s) <= s[i].width,
    decreases s.len(),
{
    if i < s.len() - 1 {
        lemma_narrowest(s.drop_last(), i);
    }
}

} // verus!
