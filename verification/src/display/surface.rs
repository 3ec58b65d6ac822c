//! The patch surface: where the window is, how its pixels are painted, which
//! output it goes to, and what to wait for while it opens.
use vstd::arithmetic::div_mod::lemma_fundamental_div_mod_converse;
use vstd::arithmetic::power2::pow2;
use vstd::prelude::*;

use crate::display::color_mgmt::{AttachError, DescriptionState};
use crate::number::{Double, ONE_BITS};
use crate::scale::{
    is_binary_fraction, lemma_near, to_unsigned, unsigned, whole_numbers_scale_exactly,
    zero_scales_to_zero,
};
use crate::text::{same_text, views};

verus! {

/// Width of the surface before the compositor says otherwise.
pub const PATCH_WIDTH: u32 = 512;

/// Height of the surface before the compositor says otherwise.
pub const PATCH_HEIGHT: u32 = 512;

/// A rectangle of pixels on the surface.
#[derive(Clone, Copy, Debug, PartialEq, Eq, Structural)]
pub struct Rect {
    pub x: i32,
    pub y: i32,
    pub w: i32,
    pub h: i32,
}

// ---------------------------------------------------------------------------
// The centred window
// ---------------------------------------------------------------------------

/// Strictly between 0 and 1.
pub open spec fn proper_fraction(f: Double) -> bool {
    0 < f.bits < ONE_BITS
}

/// The window fraction that a request stands for: a proper fraction is taken as
/// it is, and everything else means fullscreen.
pub fn window_fraction(fraction: Double) -> (res: Double)
    ensures
        res == if proper_fraction(fraction) {
            fraction
        } else {
            Double { bits: ONE_BITS }
        },
{
    if 0 < fraction.bits && fraction.bits < ONE_BITS {
        fraction
    } else {
        Double { bits: ONE_BITS }
    }
}

/// `v`, or the nearest value from 1 to `max`.
pub open spec fn at_least_one(v: int, max: int) -> int {
    if v < 1 {
        1
    } else if v > max {
        max
    } else {
        v
    }
}

/// The side of a window: a side of the surface times the scale, in whole pixels,
/// at least one and at most all of it.
pub open spec fn window_side(side: i32, scale: Double) -> int {
    at_least_one(to_unsigned(scale, side as u32, i32::MAX as u64) as int, side as int)
}

fn scaled_side(side: i32, scale: Double) -> (res: i32)
    requires
        side >= 1,
    ensures
        res == window_side(side, scale),
        1 <= res <= side,
{
    let v: u64 = unsigned(scale, side as u32, 0x7fff_ffff);
    if v < 1 {
        1
    } else if v > side as u64 {
        side
    } else {
        v as i32
    }
}

/// The window of a surface: all of it, or for a proper fraction the centred
/// rectangle whose sides are scaled. `scale` is the square root of the fraction.
pub fn window_rect(width: i32, height: i32, fraction: Double, scale: Double) -> (res: Rect)
    requires
        proper_fraction(fraction) ==> width >= 1 && height >= 1,
    ensures
        !proper_fraction(fraction) ==> res == (Rect { x: 0, y: 0, w: width, h: height }),
        proper_fraction(fraction) ==> {
            &&& res.w == window_side(width, scale)
            &&& res.h == window_side(height, scale)
            &&& res.x == (width - res.w) / 2
            &&& res.y == (height - res.h) / 2
        },
{
    if !(0 < fraction.bits && fraction.bits < ONE_BITS) {
        return Rect { x: 0, y: 0, w: width, h: height };
    }
    let w: i32 = scaled_side(width, scale);
    let h: i32 = scaled_side(height, scale);
    Rect { x: (width - w) / 2, y: (height - h) / 2, w, h }
}

/// A window always lies inside its surface, and is centred to within a pixel.
pub proof fn window_is_inside_and_centred(side: i32, scale: Double)
    requires
        side >= 1,
    ensures
        ({
            let w = window_side(side, scale);
            let x = (side - w) / 2;
            &&& 1 <= w <= side
            &&& 0 <= x
            &&& x + w <= side
            &&& 0 <= (side - w - x) - x <= 1
        }),
{
}

// ---------------------------------------------------------------------------
// Painting
// ---------------------------------------------------------------------------

/// Whether pixel number `p`, counted along the rows, is in the window.
pub open spec fn in_window(win: Rect, width: int, p: int) -> bool {
    &&& width > 0
    &&& win.y <= p / width < win.y + win.h
    &&& win.x <= p % width < win.x + win.w
}

/// The byte at position `k` of a painted canvas of whole pixels.
pub open spec fn painted(win: Rect, width: int, bg: Seq<u8>, fg: Seq<u8>, k: int) -> u8 {
    let bpp = bg.len() as int;
    if in_window(win, width, k / bpp) {
        fg[k % bpp]
    } else {
        bg[k % bpp]
    }
}

/// Paints the canvas in `bg` everywhere except the window, which gets `fg`. The
/// size of a pixel is that of `bg` and `fg`. Bytes after the last whole pixel
/// stay as they are.
pub fn fill_window(canvas: &mut [u8], width: i32, bg: &[u8], fg: &[u8], win: &Rect)
    requires
        bg@.len() > 0,
        fg@.len() == bg@.len(),
        0 <= width,
        0 <= win.x,
        0 <= win.y,
        0 <= win.w,
        0 <= win.h,
        win.x + win.w <= width,
        (win.y + win.h) * width * bg@.len() <= old(canvas)@.len(),
    ensures
        final(canvas)@.len() == old(canvas)@.len(),
        forall|k: int|
            0 <= k < final(canvas)@.len() ==> #[trigger] final(canvas)@[k] == if k / (
            bg@.len() as int) < old(canvas)@.len() / bg@.len() {
                painted(*win, width as int, bg@, fg@, k)
            } else {
                old(canvas)@[k]
            },
{
    let bpp: usize = bg.len();
    let len: usize = canvas.len();
    let n: usize = len / bpp;
    let mut k: usize = 0;
    let mut p: usize = 0;
    let mut b: usize = 0;
    let mut row: u64 = 0;
    let mut col: u64 = 0;
    while p < n
        invariant
            bpp == bg@.len(),
            bpp == fg@.len(),
            bpp > 0,
            len == canvas@.len(),
            len == old(canvas)@.len(),
            n == len / bpp,
            0 <= width,
            0 <= win.x,
            0 <= win.y,
            0 <= win.w,
            0 <= win.h,
            p <= n,
            b < bpp,
            p == n ==> b == 0,
            k == p * bpp + b,
            width > 0 ==> p == row * width + col && col < width,
            row <= p,
            col <= width,
            forall|j: int|
                0 <= j < k ==> #[trigger] canvas@[j] == painted(*win, width as int, bg@, fg@, j),
            forall|j: int| k <= j < len ==> #[trigger] canvas@[j] == old(canvas)@[j],
        decreases n - p, bpp - b,
    {
        proof {
            assert(p * bpp + bpp <= n * bpp) by (nonlinear_arith)
                requires
                    p < n,
            ;
            assert(n * bpp <= len) by (nonlinear_arith)
                requires
                    n == len / bpp,
                    bpp > 0,
            ;
            lemma_fundamental_div_mod_converse(k as int, bpp as int, p as int, b as int);
            if width > 0 {
                lemma_fundamental_div_mod_converse(
                    p as int,
                    width as int,
                    row as int,
                    col as int,
                );
            }
        }
        let inside: bool = width > 0 && win.y as u64 <= row && row < win.y as u64 + win.h as u64
            && win.x as u64 <= col && col < win.x as u64 + win.w as u64;
        assert(inside == in_window(*win, width as int, p as int));
        canvas[k] = if inside {
            fg[b]
        } else {
            bg[b]
        };
        let ghost p0 = p as int;
        let ghost b0 = b as int;
        k += 1;
        b += 1;
        if b == bpp {
            assert((p0 + 1) * bpp == p0 * bpp + bpp) by (nonlinear_arith);
            b = 0;
            p += 1;
            let ghost row0 = row as int;
            col += 1;
            if col >= width as u64 {
                assert((row0 + 1) * width == row0 * width + width) by (nonlinear_arith);
                col = 0;
                row += 1;
            }
        }
    }
    proof {
        assert forall|j: int| 0 <= j < canvas@.len() implies #[trigger] canvas@[j] == if j / (
        bg@.len() as int) < old(canvas)@.len() / bg@.len() {
            painted(*win, width as int, bg@, fg@, j)
        } else {
            old(canvas)@[j]
        } by {
            assert(j < n * bpp <==> j / (bpp as int) < n) by (nonlinear_arith)
                requires
                    bpp > 0,
                    j >= 0,
            ;
        }
    }
}

// ---------------------------------------------------------------------------
// Outputs
// ---------------------------------------------------------------------------

/// What is known of a connected output.
#[derive(Debug)]
pub struct OutputDescription {
    pub name: String,
    pub description: String,
    pub make: String,
    pub model: String,
    /// Size of the current mode, if there is one.
    pub size: Option<(i32, i32)>,
}

/// A video mode of an output.
#[derive(Clone, Copy, Debug, PartialEq, Eq, Structural)]
pub struct Mode {
    pub current: bool,
    pub width: i32,
    pub height: i32,
}

/// An optional text, empty where there is none.
pub open spec fn text_or_empty(t: Option<String>) -> Seq<char> {
    match t {
        Some(s) => s@,
        None => seq![],
    }
}

/// The size of the first current mode.
pub open spec fn current_size(modes: Seq<Mode>) -> Option<(i32, i32)>
    decreases modes.len(),
{
    if modes.len() == 0 {
        None
    } else if modes.first().current {
        Some((modes.first().width, modes.first().height))
    } else {
        current_size(modes.skip(1))
    }
}

/// Describes an output by what the compositor told of it.
pub fn describe_output(
    name: Option<String>,
    description: Option<String>,
    make: String,
    model: String,
    modes: &Vec<Mode>,
) -> (res: OutputDescription)
    ensures
        res.name@ == text_or_empty(name),
        res.description@ == text_or_empty(description),
        res.make@ == make@,
        res.model@ == model@,
        res.size == current_size(modes@),
{
    let mut size: Option<(i32, i32)> = None;
    let mut i: usize = 0;
    assert(modes@.skip(0) == modes@);
    while i < modes.len()
        invariant_except_break
            i <= modes@.len(),
            size is None,
            current_size(modes@) == current_size(modes@.skip(i as int)),
        ensures
            size == current_size(modes@),
        decreases modes@.len() - i,
    {
        assert(modes@.skip(i as int).skip(1) == modes@.skip(i + 1));
        if modes[i].current {
            size = Some((modes[i].width, modes[i].height));
            break;
        }
        i += 1;
    }
    let name: String = match name {
        Some(s) => s,
        None => String::new(),
    };
    let description: String = match description {
        Some(s) => s,
        None => String::new(),
    };
    OutputDescription { name, description, make, model, size }
}

/// The names of the outputs that have one.
pub open spec fn given_names(outputs: Seq<Option<String>>) -> Seq<Seq<char>>
    decreases outputs.len(),
{
    if outputs.len() == 0 {
        seq![]
    } else {
        match outputs.last() {
            Some(n) => given_names(outputs.drop_last()).push(n@),
            None => given_names(outputs.drop_last()),
        }
    }
}

/// An output has this name.
pub open spec fn is_named(output: Option<String>, name: Seq<char>) -> bool {
    output matches Some(n) && n@ == name
}

/// The place of the first output with a name, or the names that there are.
pub fn pick_output(outputs: &Vec<Option<String>>, name: &str) -> (res: Result<usize, Vec<String>>)
    ensures
        match res {
            Ok(i) => {
                &&& i < outputs@.len()
                &&& is_named(outputs@[i as int], name@)
                &&& forall|j: int| 0 <= j < i ==> !is_named(#[trigger] outputs@[j], name@)
            },
            Err(found) => {
                &&& forall|j: int| 0 <= j < outputs@.len() ==> !is_named(#[trigger] outputs@[j], name@)
                &&& views(found@) == given_names(outputs@)
            },
        },
{
    let mut found: Vec<String> = Vec::new();
    let mut i: usize = 0;
    assert(views(found@) == Seq::<Seq<char>>::empty());
    while i < outputs.len()
        invariant
            i <= outputs@.len(),
            forall|j: int| 0 <= j < i ==> !is_named(#[trigger] outputs@[j], name@),
            views(found@) == given_names(outputs@.take(i as int)),
        decreases outputs@.len() - i,
    {
        assert(outputs@.take(i + 1).drop_last() == outputs@.take(i as int));
        if let Some(n) = &outputs[i] {
            if same_text(n.as_str(), name) {
                return Ok(i);
            }
            let ghost before = found@;
            found.push(n.clone());
            assert(views(found@) == views(before).push(n@));
        }
        i += 1;
    }
    assert(outputs@.take(i as int) == outputs@);
    Err(found)
}

// ---------------------------------------------------------------------------
// Opening
// ---------------------------------------------------------------------------

/// Why a patch surface cannot be opened.
#[derive(Debug)]
pub enum Error {
    /// The compositor has no layer shell.
    NoLayerShell,
    /// There is no output of this name; the names that there are.
    OutputNotFound(String, Vec<String>),
    /// The compositor never configured the surface.
    NoInitialConfigure,
    /// A description was asked for and there is no colour manager.
    NoColorManager,
    /// The compositor rejected the description.
    DescriptionFailed { cause: String, message: String },
    /// The description was neither accepted nor rejected in time.
    NoDescriptionReady,
    /// The description cannot be requested.
    BadDescription(AttachError),
}

/// What to do while something is awaited.
#[derive(Debug)]
pub enum Wait {
    /// It is there.
    Over,
    /// Handle further events and look again.
    Dispatch,
}

/// Seconds that the first configure event may take.
pub const CONFIGURE_SECONDS: u64 = 2;

/// Seconds that the answer on a description may take.
pub const DESCRIPTION_SECONDS: u64 = 1;

/// Checks that a description that was asked for can be negotiated.
pub fn check_manager(described: bool, manager: bool) -> (res: Result<(), Error>)
    ensures
        described && !manager ==> res == Err::<(), Error>(Error::NoColorManager),
        !described || manager ==> res is Ok,
{
    if described && !manager {
        Err(Error::NoColorManager)
    } else {
        Ok(())
    }
}

/// Waits for the first configure event: `configured` says whether it came, and
/// `expired` whether the deadline has passed.
pub fn await_configure(configured: bool, expired: bool) -> (res: Result<Wait, Error>)
    ensures
        configured ==> res == Ok::<Wait, Error>(Wait::Over),
        !configured && expired ==> res == Err::<Wait, Error>(Error::NoInitialConfigure),
        !configured && !expired ==> res == Ok::<Wait, Error>(Wait::Dispatch),
{
    if configured {
        Ok(Wait::Over)
    } else if expired {
        Err(Error::NoInitialConfigure)
    } else {
        Ok(Wait::Dispatch)
    }
}

/// Waits for the answer on a description.
pub fn await_description(state: &DescriptionState, expired: bool) -> (res: Result<Wait, Error>)
    ensures
        match *state {
            DescriptionState::Ready { .. } => res matches Ok(w) && w is Over,
            DescriptionState::Failed { cause, message } => res matches Err(
                Error::DescriptionFailed { cause: c, message: m },
            ) && c@ == cause@ && m@ == message@,
            DescriptionState::Pending => if expired {
                res matches Err(e) && e is NoDescriptionReady
            } else {
                res matches Ok(w) && w is Dispatch
            },
        },
{
    match state {
        DescriptionState::Ready { .. } => Ok(Wait::Over),
        DescriptionState::Failed { cause, message } => Err(
            Error::DescriptionFailed { cause: cause.clone(), message: message.clone() },
        ),
        DescriptionState::Pending => {
            if expired {
                Err(Error::NoDescriptionReady)
            } else {
                Ok(Wait::Dispatch)
            }
        },
    }
}

/// The length of a side after a configure event: what the compositor says,
/// unless it leaves it open.
pub fn configured_side(current: u32, new: u32) -> (res: u32)
    ensures
        res == if new > 0 {
            new
        } else {
            current
        },
{
    if new > 0 {
        new
    } else {
        current
    }
}

/// Bytes of a pool that holds two buffers of the initial size.
pub fn pool_size(bytes_per_pixel: usize) -> (res: usize)
    requires
        bytes_per_pixel <= 16,
    ensures
        res == PATCH_WIDTH * PATCH_HEIGHT * bytes_per_pixel * 2,
{
    (PATCH_WIDTH * PATCH_HEIGHT) as usize * bytes_per_pixel * 2
}

// ---------------------------------------------------------------------------
// Where the window is
// ---------------------------------------------------------------------------

/// The two sides of a window are found alike and apart: turning the surface turns the
/// window, and a side goes by its own side of the surface alone. A proper fraction
/// leaves a border of the same width on both sides, to within a pixel; anything else
/// fills the surface.
pub proof fn windows_turn_with_their_surface(
    width: i32,
    height: i32,
    other: i32,
    fraction: Double,
    scale: Double,
    win: Rect,
    turned: Rect,
    taller: Rect,
)
    requires
        width >= 1,
        height >= 1,
        other >= 1,
        call_ensures(window_rect, (width, height, fraction, scale), win),
        call_ensures(window_rect, (height, width, fraction, scale), turned),
        call_ensures(window_rect, (width, other, fraction, scale), taller),
    ensures
        turned.w == win.h && turned.h == win.w && turned.x == win.y && turned.y == win.x,
        taller.w == win.w && taller.x == win.x,
        1 <= win.w <= width && 1 <= win.h <= height,
        win.x >= 0 && 0 <= width - win.w - 2 * win.x <= 1,
        win.y >= 0 && 0 <= height - win.h - 2 * win.y <= 1,
        fraction.bits == 0 || fraction.bits >= 0x3ff0_0000_0000_0000 ==> win == (Rect {
            x: 0,
            y: 0,
            w: width,
            h: height,
        }),
{
}

/// A window whose sides are scaled by one is the whole surface, and one whose sides
/// are scaled by zero is a single pixel.
pub proof fn windows_follow_the_scale(
    width: i32,
    height: i32,
    fraction: Double,
    whole: Rect,
    least: Rect,
)
    requires
        width >= 1,
        height >= 1,
        proper_fraction(fraction),
        call_ensures(window_rect, (width, height, fraction, Double { bits: ONE_BITS }), whole),
        call_ensures(window_rect, (width, height, fraction, Double { bits: 0 }), least),
    ensures
        whole == (Rect { x: 0, y: 0, w: width, h: height }),
        least.w == 1 && least.h == 1,
{
    whole_numbers_scale_exactly(width as u32, i32::MAX as u64);
    whole_numbers_scale_exactly(height as u32, i32::MAX as u64);
    zero_scales_to_zero(width as u32, i32::MAX as u64);
    zero_scales_to_zero(height as u32, i32::MAX as u64);
}

/// The fraction that a request stands for is its own between zero and one, and one
/// otherwise.
pub proof fn only_proper_fractions_are_taken(fraction: Double, res: Double)
    requires
        call_ensures(window_fraction, (fraction,), res),
    ensures
        ({
            let zero = Double { bits: 0 };
            let one = Double { bits: 0x3ff0_0000_0000_0000 };
            &&& zero.less(fraction) && fraction.less(one) ==> res == fraction
            &&& !(zero.less(fraction) && fraction.less(one)) ==> res == one
        }),
{
}

/// A painted canvas by row, column and byte: the window's rows and columns have the
/// foreground's bytes in their order, and all others the background's.
pub proof fn canvases_are_painted_by_row_and_column(
    win: Rect,
    width: int,
    bg: Seq<u8>,
    fg: Seq<u8>,
    x: int,
    y: int,
    b: int,
)
    requires
        0 <= x < width,
        0 <= y,
        0 <= b < bg.len(),
        fg.len() == bg.len(),
    ensures
        ({
            let k = (y * width + x) * bg.len() + b;
            let inside = win.x <= x < win.x + win.w && win.y <= y < win.y + win.h;
            &&& inside ==> painted(win, width, bg, fg, k) == fg[b]
            &&& !inside ==> painted(win, width, bg, fg, k) == bg[b]
        }),
{
    let p = y * width + x;
    let n = bg.len() as int;
    lemma_fundamental_div_mod_converse(p * n + b, n, p, b);
    lemma_fundamental_div_mod_converse(p, width, y, x);
}

/// The size of an output is that of its first current mode, and its texts are those
/// that the compositor gave, empty where it gave none.
pub proof fn outputs_are_described_as_told(
    name: Option<String>,
    description: Option<String>,
    make: String,
    model: String,
    modes: Vec<Mode>,
    res: OutputDescription,
    i: int,
)
    requires
        call_ensures(describe_output, (name, description, make, model, &modes), res),
        0 <= i <= modes@.len(),
        forall|j: int| 0 <= j < i ==> !(#[trigger] modes@[j]).current,
        i < modes@.len() ==> modes@[i].current,
    ensures
        i < modes@.len() ==> res.size == Some((modes@[i].width, modes@[i].height)),
        i == modes@.len() ==> res.size is None,
        name matches Some(n) ==> res.name@ == n@,
        name is None ==> res.name@.len() == 0,
        description matches Some(d) ==> res.description@ == d@,
        description is None ==> res.description@.len() == 0,
        res.make@ == make@,
        res.model@ == model@,
{
    lemma_current_size(modes@, i);
}

proof fn lemma_current_size(modes: Seq<Mode>, i: int)
    requires
        0 <= i <= modes.len(),
        forall|j: int| 0 <= j < i ==> !(#[trigger] modes[j]).current,
        i < modes.len() ==> modes[i].current,
    ensures
        current_size(modes) == if i < modes.len() {
            Some((modes[i].width, modes[i].height))
        } else {
            None
        },
    decreases i,
{
    if i > 0 {
        assert(!modes[0].current);
        let rest = modes.skip(1);
        assert forall|j: int| 0 <= j < i - 1 implies !(#[trigger] rest[j]).current by {
            assert(rest[j] == modes[j + 1]);
        }
        lemma_current_size(rest, i - 1);
    }
}

/// A description that was asked for needs a manager, and what is awaited is over when
/// it comes, goes on until its time is up, and then fails with its own error.
pub proof fn waiting_ends_in_time(
    described: bool,
    manager: bool,
    done: bool,
    expired: bool,
    managed: Result<(), Error>,
    configured: Result<Wait, Error>,
    pending: Result<Wait, Error>,
)
    requires
        call_ensures(check_manager, (described, manager), managed),
        call_ensures(await_configure, (done, expired), configured),
        call_ensures(await_description, (&DescriptionState::Pending, expired), pending),
    ensures
        managed is Err <==> described && !manager,
        managed matches Err(e) ==> e is NoColorManager,
        configured is Err <==> !done && expired,
        configured matches Err(e) ==> e is NoInitialConfigure,
        configured matches Ok(w) ==> (w is Over <==> done),
        pending is Err <==> expired,
        pending matches Err(e) ==> e is NoDescriptionReady,
        pending matches Ok(w) ==> w is Dispatch,
{
}

/// The side of a window is the nearest to its share of the surface, but for what
/// rounding the product to 53 bits may move it by, and at least a pixel.
pub proof fn sides_are_near_their_share(
    width: i32,
    height: i32,
    fraction: Double,
    scale: Double,
    s: nat,
    k: nat,
    win: Rect,
)
    requires
        width >= 1,
        height >= 1,
        proper_fraction(fraction),
        is_binary_fraction(scale, s, k),
        k >= 53,
        call_ensures(window_rect, (width, height, fraction, scale), win),
    ensures
        ({
            let w = pow2(k);
            let p = s * width as nat;
            let slack = p / 0x10_0000_0000_0000;
            &&& 1 < win.w ==> 2 * (win.w * w) <= 2 * p + w + slack
            &&& win.w < width ==> 2 * p <= 2 * (win.w * w) + w + slack
        }),
{
    lemma_near(scale, s, k, width as u32, i32::MAX as u64);
    let n = to_unsigned(scale, width as u32, i32::MAX as u64);
    let w = pow2(k);
    if n < 1 {
        assert(n * w <= win.w * w) by (nonlinear_arith)
            requires
                n <= win.w,
        ;
    }
    if win.w < n {
        assert(win.w * w <= n * w) by (nonlinear_arith)
            requires
                win.w <= n,
        ;
    }
}

/// An output that is not found is answered with the names of those that have one, in
/// their order; one that is found is the first of its name.
pub proof fn outputs_are_picked_by_name(
    outputs: Vec<Option<String>>,
    name: &str,
    res: Result<usize, Vec<String>>,
    i: int,
)
    requires
        call_ensures(pick_output, (&outputs, name), res),
        0 <= i < outputs@.len(),
    ensures
        res matches Ok(k) ==> {
            &&& k < outputs@.len()
            &&& outputs@[k as int] is Some
            &&& outputs@[k as int]->0@ == name@
            &&& outputs@[i] is Some && outputs@[i]->0@ == name@ ==> k <= i
        },
        res matches Err(found) ==> {
            &&& outputs@[i] is Some ==> outputs@[i]->0@ != name@
            &&& outputs@[i] is Some ==> {
                let at = named_before(outputs@, i);
                at < found@.len() && found@[at as int]@ == outputs@[i]->0@
            }
            &&& found@.len() == named_before(outputs@, outputs@.len() as int)
        },
{
    if let Err(found) = res {
        assert(!is_named(outputs@[i], name@));
        assert(views(found@).len() == found@.len());
        lemma_given_names(outputs@, i);
        if outputs@[i] is Some {
            let at = named_before(outputs@, i);
            assert(views(found@)[at as int] == found@[at as int]@);
        }
    }
    if let Ok(k) = res {
        if i < k {
            assert(!is_named(outputs@[i], name@));
        }
    }
}

/// How many of the first `n` outputs have a name.
pub open spec fn named_before(outputs: Seq<Option<String>>, n: int) -> nat
    decreases n,
{
    if n <= 0 {
        0
    } else if outputs[n - 1] is Some {
        named_before(outputs, n - 1) + 1
    } else {
        named_before(outputs, n - 1)
    }
}

proof fn lemma_named_before(a: Seq<Option<String>>, b: Seq<Option<String>>, n: int)
    requires
        n <= a.len(),
        n <= b.len(),
        forall|i: int| 0 <= i < n ==> a[i] == b[i],
    ensures
        named_before(a, n) == named_before(b, n),
    decreases n,
{
    if n > 0 {
        lemma_named_before(a, b, n - 1);
    }
}

proof fn lemma_given_names(outputs: Seq<Option<String>>, i: int)
    requires
        0 <= i < outputs.len(),
    ensures
        given_names(outputs).len() == named_before(outputs, outputs.len() as int),
        outputs[i] is Some ==> {
            let at = named_before(outputs, i);
            at < given_names(outputs).len() && given_names(outputs)[at as int] == outputs[i]->0@
        },
    decreases outputs.len(),
{
    let front = outputs.drop_last();
    reveal_with_fuel(given_names, 2);
    lemma_named_before(front, outputs, front.len() as int);
    if i < front.len() {
        lemma_given_names(front, i);
        lemma_named_before(front, outputs, i);
    } else if front.len() > 0 {
        lemma_given_names(front, 0);
    }
}

} // verus!
