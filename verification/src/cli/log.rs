//! The lines that report the progress of a session.
use vstd::prelude::*;

use crate::capture::Negotiation;
use crate::cli::report::{flags_text, fmt_flags, fmt_tier, tier_text};
use crate::driver::colorimeter::AdaptiveTier;
use crate::driver::confidence::TrustFlag;
use crate::gather::probe::GamutEvent;
use crate::gather::session::GatherEvent;
use crate::text::{
    decimal, decimal_reads_back, decimal_text, digits_value, lemma_padded_reads, pad, padded, stands_at,
};

verus! {

/// The printed numbers of a sample.
#[derive(Debug)]
pub struct SampleFigures {
    /// The code value, three numbers with commas between them.
    pub code_value: String,
    pub x: String,
    pub y: String,
    pub z: String,
}

/// The line that introduces a colorimeter.
pub open spec fn device_text(product: Seq<char>, serial: Seq<char>, hw: (u32, u32)) -> Seq<char> {
    product + " SN "@ + serial + " HW "@ + decimal_text(hw.0 as nat) + "."@ + padded(
        decimal_text(hw.1 as nat),
        2,
        '0',
    )
}

/// Introduces a colorimeter.
pub fn device_line(product: &str, serial: &str, hw: (u32, u32)) -> (res: String)
    ensures
        res@ == device_text(product@, serial@, hw),
{
    let mut s = product.to_owned();
    s.append(" SN ");
    s.append(serial);
    s.append(" HW ");
    s.append(decimal(hw.0 as u64).as_str());
    s.append(".");
    s.append(pad(decimal(hw.1 as u64).as_str(), 2, '0').as_str());
    s
}

/// The line about an outcome; `refusal` introduces a refused one.
pub open spec fn outcome_text(n: Negotiation, refusal: Seq<char>) -> Seq<char> {
    match n {
        Negotiation::Accepted { identity } => "  accepted (identity "@ + decimal_text(
            identity as nat,
        ) + ")"@,
        Negotiation::Rejected { cause, message } => refusal + cause@ + ": "@ + message@,
        Negotiation::Unmanaged => "  unmanaged buffer (assumed sRGB)"@,
    }
}

/// Reports an outcome.
pub fn outcome_line(n: &Negotiation, refusal: &str) -> (res: String)
    ensures
        res@ == outcome_text(*n, refusal@),
{
    match n {
        Negotiation::Accepted { identity } => {
            let mut s = "  accepted (identity ".to_owned();
            s.append(decimal(*identity).as_str());
            s.append(")");
            s
        },
        Negotiation::Rejected { cause, message } => {
            let mut s = refusal.to_owned();
            s.append(cause.as_str());
            s.append(": ");
            s.append(message.as_str());
            s
        },
        Negotiation::Unmanaged => "  unmanaged buffer (assumed sRGB)".to_owned(),
    }
}

/// The line of a countdown.
pub open spec fn countdown_text(remaining: u64) -> Seq<char> {
    "  starting in "@ + decimal_text(remaining as nat) + "s..."@
}

/// Reports a second of a countdown.
pub fn countdown_line(remaining: u64) -> (res: String)
    ensures
        res@ == countdown_text(remaining),
{
    let mut s = "  starting in ".to_owned();
    s.append(decimal(remaining).as_str());
    s.append("s...");
    s
}

/// The line about an event; none for the end of a format.
pub open spec fn event_text(ev: GatherEvent, f: SampleFigures) -> Option<Seq<char>> {
    match ev {
        GatherEvent::DeviceReady { product, serial, hw_version } => Some(
            device_text(product@, serial@, hw_version),
        ),
        GatherEvent::Countdown { remaining } => Some(countdown_text(remaining)),
        GatherEvent::FormatStart { token, pixel_format, .. } => Some(
            "\u{2500}\u{2500} format "@ + token@ + " ("@ + pixel_format@ + ") \u{2500}\u{2500}"@,
        ),
        GatherEvent::Negotiation(n) => Some(
            outcome_text(n, "  compositor rejected this format: "@),
        ),
        GatherEvent::ProbeSample { sample, .. } => Some(
            "  [probe] cv=("@ + f.code_value@ + ") -> Y="@ + f.y@ + " (\u{d7}"@ + decimal_text(
                sample.repeats as nat,
            ) + ")"@,
        ),
        GatherEvent::GamutProbed { vertices, folds, .. } => Some(
            "  gamut probed: "@ + decimal_text(vertices as nat) + " vertices, "@ + decimal_text(
                folds as nat,
            ) + " folds (clamped)"@,
        ),
        GatherEvent::Sample { index, total, .. } => Some(
            "  ["@ + padded(decimal_text((index + 1) as nat), 3, ' ') + "/"@ + decimal_text(
                total as nat,
            ) + "] cv=("@ + f.code_value@ + ") -> X="@ + f.x@ + " Y="@ + f.y@ + " Z="@ + f.z@,
        ),
        GatherEvent::FormatDone { .. } => None,
    }
}

/// The text of an optional line.
pub open spec fn line_text(line: Option<String>) -> Option<Seq<char>> {
    match line {
        Some(s) => Some(s@),
        None => None,
    }
}

/// Words an event. `figures` are the numbers of its sample, if it has one.
pub fn event_line(ev: &GatherEvent, figures: &SampleFigures) -> (res: Option<String>)
    requires
        ev matches GatherEvent::Sample { index, .. } ==> index < u64::MAX,
    ensures
        line_text(res) == event_text(*ev, *figures),
{
    match ev {
        GatherEvent::DeviceReady { product, serial, hw_version } => Some(
            device_line(product.as_str(), serial.as_str(), *hw_version),
        ),
        GatherEvent::Countdown { remaining } => Some(countdown_line(*remaining)),
        GatherEvent::FormatStart { token, pixel_format, .. } => {
            let mut s = "\u{2500}\u{2500} format ".to_owned();
            s.append(token.as_str());
            s.append(" (");
            s.append(pixel_format.as_str());
            s.append(") \u{2500}\u{2500}");
            Some(s)
        },
        GatherEvent::Negotiation(n) => Some(
            outcome_line(n, "  compositor rejected this format: "),
        ),
        GatherEvent::ProbeSample { sample, .. } => {
            let mut s = "  [probe] cv=(".to_owned();
            s.append(figures.code_value.as_str());
            s.append(") -> Y=");
            s.append(figures.y.as_str());
            s.append(" (\u{d7}");
            s.append(decimal(sample.repeats as u64).as_str());
            s.append(")");
            Some(s)
        },
        GatherEvent::GamutProbed { vertices, folds, .. } => {
            let mut s = "  gamut probed: ".to_owned();
            s.append(decimal(*vertices as u64).as_str());
            s.append(" vertices, ");
            s.append(decimal(*folds as u64).as_str());
            s.append(" folds (clamped)");
            Some(s)
        },
        GatherEvent::Sample { index, total, .. } => {
            let mut s = "  [".to_owned();
            s.append(pad(decimal(*index as u64 + 1).as_str(), 3, ' ').as_str());
            s.append("/");
            s.append(decimal(*total as u64).as_str());
            s.append("] cv=(");
            s.append(figures.code_value.as_str());
            s.append(") -> X=");
            s.append(figures.x.as_str());
            s.append(" Y=");
            s.append(figures.y.as_str());
            s.append(" Z=");
            s.append(figures.z.as_str());
            Some(s)
        },
        GatherEvent::FormatDone { .. } => None,
    }
}

// ---------------------------------------------------------------------------
// Gamut probes
// ---------------------------------------------------------------------------

/// The printed numbers of a point of a gamut probe.
#[derive(Debug)]
pub struct PointFigures {
    /// The code value, three numbers with commas between them.
    pub code_value: String,
    pub y: String,
    /// The chromaticity.
    pub xy: String,
}

/// What is said of every point: its colour, its flags and its tier.
pub open spec fn point_text(f: PointFigures, flags: Seq<TrustFlag>, tier: AdaptiveTier) -> Seq<char> {
    "  Y="@ + f.y@ + "  xy="@ + f.xy@ + "  "@ + flags_text(flags) + tier_text(tier)
}

/// The line about an event of a gamut probe.
pub open spec fn probe_text(ev: GamutEvent, f: PointFigures, tier: AdaptiveTier) -> Seq<char> {
    match ev {
        GamutEvent::DeviceReady { product, serial, hw_version } => device_text(
            product@,
            serial@,
            hw_version,
        ),
        GamutEvent::Negotiation(n) => outcome_text(n, "  rejected: "@),
        GamutEvent::Countdown { remaining } => countdown_text(remaining),
        GamutEvent::Point { index, total, label, flags, .. } => "  ["@ + padded(
            decimal_text((index + 1) as nat),
            2,
            ' ',
        ) + "/"@ + decimal_text(total as nat) + "] "@ + padded(label@, 8, ' ') + point_text(
            f,
            flags@,
            tier,
        ),
        GamutEvent::Measured { index, flags, .. } => "  ["@ + padded(
            decimal_text((index + 1) as nat),
            3,
            ' ',
        ) + "] ("@ + f.code_value@ + ")"@ + point_text(f, flags@, tier),
    }
}

fn point_line(f: &PointFigures, flags: &Vec<TrustFlag>, tier: AdaptiveTier) -> (res: String)
    ensures
        res@ == point_text(*f, flags@, tier),
{
    let mut s = "  Y=".to_owned();
    s.append(f.y.as_str());
    s.append("  xy=");
    s.append(f.xy.as_str());
    s.append("  ");
    s.append(fmt_flags(flags).as_str());
    s.append(fmt_tier(tier));
    s
}

/// Words an event of a gamut probe. `figures` are the numbers of its point, and
/// `tier` is how that was measured, if it has one.
pub fn probe_line(ev: &GamutEvent, figures: &PointFigures, tier: AdaptiveTier) -> (res: String)
    requires
        ev matches GamutEvent::Point { index, .. } ==> index < u64::MAX,
        ev matches GamutEvent::Measured { index, .. } ==> index < u64::MAX,
    ensures
        res@ == probe_text(*ev, *figures, tier),
{
    match ev {
        GamutEvent::DeviceReady { product, serial, hw_version } => device_line(
            product.as_str(),
            serial.as_str(),
            *hw_version,
        ),
        GamutEvent::Negotiation(n) => outcome_line(n, "  rejected: "),
        GamutEvent::Countdown { remaining } => countdown_line(*remaining),
        GamutEvent::Point { index, total, label, flags, .. } => {
            let mut s = "  [".to_owned();
            s.append(pad(decimal(*index as u64 + 1).as_str(), 2, ' ').as_str());
            s.append("/");
            s.append(decimal(*total as u64).as_str());
            s.append("] ");
            s.append(pad(label, 8, ' ').as_str());
            s.append(point_line(figures, flags, tier).as_str());
            s
        },
        GamutEvent::Measured { index, flags, .. } => {
            let mut s = "  [".to_owned();
            s.append(pad(decimal(*index as u64 + 1).as_str(), 3, ' ').as_str());
            s.append("] (");
            s.append(figures.code_value.as_str());
            s.append(")");
            s.append(point_line(figures, flags, tier).as_str());
            s
        },
    }
}

// ---------------------------------------------------------------------------
// What the lines say
// ---------------------------------------------------------------------------

/// A colorimeter is introduced with its product, its serial number and its version, in
/// this order, the version with two digits behind the point.
pub proof fn devices_are_introduced_in_order(
    product: &str,
    serial: &str,
    hw: (u32, u32),
    res: String,
)
    requires
        call_ensures(device_line, (product, serial, hw), res),
    ensures
        ({
            let at = product@.len() + 4;
            let major = decimal_text(hw.0 as nat);
            let version = at + serial@.len() + 4;
            let minor = version + major.len() + 1;
            &&& stands_at(res@, product@, 0)
            &&& stands_at(res@, serial@, at as int)
            &&& stands_at(res@, major, version as int)
            &&& hw.1 < 100 ==> res@.len() == minor + 2 && digits_value(res@.skip(minor as int))
                == hw.1
        }),
{
    reveal_strlit(" SN ");
    reveal_strlit(" HW ");
    reveal_strlit(".");
    let s = res@;
    let at = product@.len() + 4;
    let major = decimal_text(hw.0 as nat);
    let version = at + serial@.len() + 4;
    let minor = version + major.len() + 1;
    let tail = padded(decimal_text(hw.1 as nat), 2, '0');
    assert(s.subrange(0, product@.len() as int) == product@);
    assert(s.subrange(at as int, (at + serial@.len()) as int) == serial@);
    assert(s.subrange(version as int, (version + major.len()) as int) == major);
    assert(s.skip(minor as int) == tail);
    if hw.1 < 100 {
        lemma_padded_reads(hw.1 as nat, 2);
    }
}

/// An outcome is told by its kind: an accepted description with its identity, a
/// refused one with the compositor's cause and message behind what introduces it.
pub proof fn outcomes_are_told_apart(n: Negotiation, refusal: &str, res: String)
    requires
        call_ensures(outcome_line, (&n, refusal), res),
    ensures
        n matches Negotiation::Accepted { identity } ==> res@ == "  accepted (identity "@
            + decimal_text(identity as nat) + ")"@,
        n matches Negotiation::Rejected { cause, message } ==> {
            &&& stands_at(res@, refusal@, 0)
            &&& stands_at(res@, cause@, refusal@.len() as int)
            &&& stands_at(res@, message@, res@.len() - message@.len())
            &&& res@.len() == refusal@.len() + cause@.len() + 2 + message@.len()
        },
        n is Unmanaged ==> res@ == "  unmanaged buffer (assumed sRGB)"@,
{
    reveal_strlit(": ");
    if let Negotiation::Rejected { cause, message } = n {
        let s = res@;
        let a = refusal@.len() as int;
        assert(s.subrange(0, a) == refusal@);
        assert(s.subrange(a, a + cause@.len()) == cause@);
        assert(s.subrange(s.len() - message@.len(), s.len() as int) == message@);
    }
}

/// No two seconds of a countdown read alike.
pub proof fn seconds_are_told_apart(a: u64, b: u64, ta: String, tb: String)
    requires
        call_ensures(countdown_line, (a,), ta),
        call_ensures(countdown_line, (b,), tb),
        ta@ == tb@,
    ensures
        a == b,
        stands_at(ta@, decimal_text(a as nat), 14),
{
    reveal_strlit("  starting in ");
    reveal_strlit("s...");
    decimal_reads_back(a as nat);
    decimal_reads_back(b as nat);
    assert(ta@.subrange(14, ta@.len() - 4) == decimal_text(a as nat));
    assert(tb@.subrange(14, tb@.len() - 4) == decimal_text(b as nat));
}

/// Every event but the end of a format has its line, and events that both kinds of
/// session have are told alike. A point is counted from one, out of all of them.
pub proof fn events_are_told_with_their_facts(
    ev: GatherEvent,
    f: SampleFigures,
    res: Option<String>,
)
    requires
        ev matches GatherEvent::Sample { index, .. } ==> index < u64::MAX,
        call_ensures(event_line, (&ev, &f), res),
    ensures
        res is None <==> ev is FormatDone,
        ev matches GatherEvent::Countdown { remaining } ==> stands_at(
            res->0@,
            decimal_text(remaining as nat),
            14,
        ),
        ev matches GatherEvent::FormatStart { token, pixel_format, .. } ==> {
            &&& stands_at(res->0@, token@, 10)
            &&& stands_at(res->0@, pixel_format@, 12int + token@.len())
        },
        ev matches GatherEvent::GamutProbed { vertices, folds, .. } ==> {
            let n = decimal_text(vertices as nat);
            &&& stands_at(res->0@, n, 16)
            &&& stands_at(res->0@, decimal_text(folds as nat), 27int + n.len())
        },
        ev matches GatherEvent::Sample { index, total, .. } ==> {
            let n = padded(decimal_text((index + 1) as nat), 3, ' ');
            let t = decimal_text(total as nat);
            let cv = 3 + n.len() + 1 + t.len() + 6;
            let x = cv + f.code_value@.len() + 7;
            let y = x + f.x@.len() + 3;
            let z = y + f.y@.len() + 3;
            &&& stands_at(res->0@, n, 3)
            &&& stands_at(res->0@, t, 4int + n.len())
            &&& stands_at(res->0@, f.code_value@, cv as int)
            &&& stands_at(res->0@, f.x@, x as int)
            &&& stands_at(res->0@, f.y@, y as int)
            &&& stands_at(res->0@, f.z@, z as int)
        },
        ev matches GatherEvent::ProbeSample { sample, .. } ==> {
            let y = 14 + f.code_value@.len() + 7;
            let n = y + f.y@.len() + 3;
            &&& stands_at(res->0@, f.code_value@, 14)
            &&& stands_at(res->0@, f.y@, y as int)
            &&& stands_at(res->0@, decimal_text(sample.repeats as nat), n as int)
        },
{
    let s = res->0@;
    match ev {
        GatherEvent::Countdown { remaining } => {
            reveal_strlit("  starting in ");
            let n = decimal_text(remaining as nat);
            assert(s.subrange(14, 14int + n.len()) == n);
        },
        GatherEvent::FormatStart { token, pixel_format, .. } => {
            reveal_strlit("\u{2500}\u{2500} format ");
            reveal_strlit(" (");
            let b = 12int + token@.len();
            assert(s.subrange(10, 10int + token@.len()) == token@);
            assert(s.subrange(b, b + pixel_format@.len()) == pixel_format@);
        },
        GatherEvent::GamutProbed { vertices, folds, .. } => {
            reveal_strlit("  gamut probed: ");
            reveal_strlit(" vertices, ");
            let n = decimal_text(vertices as nat);
            let m = decimal_text(folds as nat);
            assert(s.subrange(16, 16int + n.len()) == n);
            assert(s.subrange(27int + n.len(), 27int + n.len() + m.len()) == m);
        },
        GatherEvent::Sample { index, total, .. } => {
            lemma_sample_line(
                padded(decimal_text((index + 1) as nat), 3, ' '),
                decimal_text(total as nat),
                f,
                s,
            );
        },
        GatherEvent::ProbeSample { sample, .. } => {
            reveal_strlit("  [probe] cv=(");
            reveal_strlit(") -> Y=");
            reveal_strlit(" (\u{d7}");
            let y = 21int + f.code_value@.len();
            let n = y + f.y@.len() + 3;
            let t = decimal_text(sample.repeats as nat);
            assert(s.subrange(14, 14int + f.code_value@.len()) == f.code_value@);
            assert(s.subrange(y, y + f.y@.len()) == f.y@);
            assert(s.subrange(n, n + t.len()) == t);
        },
        _ => {},
    }
}

proof fn lemma_sample_line(n: Seq<char>, t: Seq<char>, f: SampleFigures, s: Seq<char>)
    requires
        s == "  ["@ + n + "/"@ + t + "] cv=("@ + f.code_value@ + ") -> X="@ + f.x@ + " Y="@ + f.y@
            + " Z="@ + f.z@,
    ensures
        ({
            let cv = 3 + n.len() + 1 + t.len() + 6;
            let x = cv + f.code_value@.len() + 7;
            let y = x + f.x@.len() + 3;
            let z = y + f.y@.len() + 3;
            &&& stands_at(s, n, 3)
            &&& stands_at(s, t, 4int + n.len())
            &&& stands_at(s, f.code_value@, cv as int)
            &&& stands_at(s, f.x@, x as int)
            &&& stands_at(s, f.y@, y as int)
            &&& stands_at(s, f.z@, z as int)
        }),
{
    reveal_strlit("  [");
    reveal_strlit("/");
    reveal_strlit("] cv=(");
    reveal_strlit(") -> X=");
    reveal_strlit(" Y=");
    reveal_strlit(" Z=");
    let a = "  ["@ + n;
    let b = a + "/"@ + t;
    let c = b + "] cv=("@ + f.code_value@;
    let d = c + ") -> X="@ + f.x@;
    let e = d + " Y="@ + f.y@;
    lemma_piece_at("  ["@, n, "/"@ + t + "] cv=("@ + f.code_value@ + ") -> X="@ + f.x@ + " Y="@
        + f.y@ + " Z="@ + f.z@, s);
    lemma_piece_at(a + "/"@, t, "] cv=("@ + f.code_value@ + ") -> X="@ + f.x@ + " Y="@ + f.y@
        + " Z="@ + f.z@, s);
    lemma_piece_at(b + "] cv=("@, f.code_value@, ") -> X="@ + f.x@ + " Y="@ + f.y@ + " Z="@ + f.z@,
        s);
    lemma_piece_at(c + ") -> X="@, f.x@, " Y="@ + f.y@ + " Z="@ + f.z@, s);
    lemma_piece_at(d + " Y="@, f.y@, " Z="@ + f.z@, s);
    lemma_piece_at(e + " Z="@, f.z@, seq![], s);
}

proof fn lemma_piece_at(a: Seq<char>, t: Seq<char>, b: Seq<char>, s: Seq<char>)
    requires
        s =~= a + t + b,
    ensures
        stands_at(s, t, a.len() as int),
{
    assert(s.subrange(a.len() as int, (a.len() + t.len()) as int) == t);
}

proof fn lemma_point_line(n: Seq<char>, t: Seq<char>, l: Seq<char>, p: Seq<char>, s: Seq<char>)
    requires
        s == "  ["@ + n + "/"@ + t + "] "@ + l + p,
    ensures
        stands_at(s, n, 3),
        stands_at(s, t, 4int + n.len()),
        stands_at(s, l, 3int + n.len() + 1 + t.len() + 2),
        stands_at(s, p, 3int + n.len() + 1 + t.len() + 2 + l.len()),
{
    reveal_strlit("  [");
    reveal_strlit("/");
    reveal_strlit("] ");
    lemma_piece_at("  ["@, n, "/"@ + t + "] "@ + l + p, s);
    lemma_piece_at("  ["@ + n + "/"@, t, "] "@ + l + p, s);
    lemma_piece_at("  ["@ + n + "/"@ + t + "] "@, l, p, s);
    lemma_piece_at("  ["@ + n + "/"@ + t + "] "@ + l, p, seq![], s);
}

proof fn lemma_measured_line(n: Seq<char>, c: Seq<char>, p: Seq<char>, s: Seq<char>)
    requires
        s == "  ["@ + n + "] ("@ + c + ")"@ + p,
    ensures
        stands_at(s, n, 3),
        stands_at(s, c, 6int + n.len()),
        stands_at(s, p, 7int + n.len() + c.len()),
{
    reveal_strlit("  [");
    reveal_strlit("] (");
    reveal_strlit(")");
    lemma_piece_at("  ["@, n, "] ("@ + c + ")"@ + p, s);
    lemma_piece_at("  ["@ + n + "] ("@, c, ")"@ + p, s);
    lemma_piece_at("  ["@ + n + "] ("@ + c + ")"@, p, seq![], s);
}

/// Where the luminance and the chromaticity of a point stand in a line.
proof fn lemma_point_text(
    f: PointFigures,
    flags: Seq<TrustFlag>,
    tier: AdaptiveTier,
    s: Seq<char>,
    at: int,
)
    requires
        stands_at(s, point_text(f, flags, tier), at),
    ensures
        stands_at(s, f.y@, at + 4),
        stands_at(s, f.xy@, at + 4 + f.y@.len() + 5),
{
    reveal_strlit("  Y=");
    reveal_strlit("  xy=");
    let p = point_text(f, flags, tier);
    let rest = "  "@ + flags_text(flags) + tier_text(tier);
    let k = 4int + f.y@.len() + 5;
    lemma_piece_at("  Y="@, f.y@, "  xy="@ + f.xy@ + rest, p);
    lemma_piece_at("  Y="@ + f.y@ + "  xy="@, f.xy@, rest, p);
    let q = s.subrange(at, at + p.len());
    assert(q == p);
    assert(s.subrange(at + 4, at + 4 + f.y@.len()) == q.subrange(4, 4int + f.y@.len()));
    assert(s.subrange(at + k, at + k + f.xy@.len()) == q.subrange(k, k + f.xy@.len()));
}

/// An event of a gamut probe is told like that of a capture where both have it, and a
/// point with its label, its luminance and its chromaticity.
pub proof fn probes_are_told_with_their_facts(
    ev: GamutEvent,
    f: PointFigures,
    tier: AdaptiveTier,
    res: String,
)
    requires
        ev matches GamutEvent::Point { index, .. } ==> index < u64::MAX,
        ev matches GamutEvent::Measured { index, .. } ==> index < u64::MAX,
        call_ensures(probe_line, (&ev, &f, tier), res),
    ensures
        ev matches GamutEvent::Countdown { remaining } ==> stands_at(
            res@,
            decimal_text(remaining as nat),
            14,
        ),
        ev matches GamutEvent::Point { index, total, label, .. } ==> {
            let n = padded(decimal_text((index + 1) as nat), 2, ' ');
            let t = decimal_text(total as nat);
            let l = padded(label@, 8, ' ');
            let at = 3int + n.len() + 1 + t.len() + 2;
            let y = at + l.len() + 4;
            &&& stands_at(res@, n, 3)
            &&& stands_at(res@, t, 4int + n.len())
            &&& stands_at(res@, l, at)
            &&& stands_at(res@, f.y@, y)
            &&& stands_at(res@, f.xy@, y + f.y@.len() + 5)
        },
        ev matches GamutEvent::Measured { index, .. } ==> {
            let n = padded(decimal_text((index + 1) as nat), 3, ' ');
            let at = 6int + n.len();
            let y = at + f.code_value@.len() + 5;
            &&& stands_at(res@, n, 3)
            &&& stands_at(res@, f.code_value@, at)
            &&& stands_at(res@, f.y@, y)
            &&& stands_at(res@, f.xy@, y + f.y@.len() + 5)
        },
{
    let s = res@;
    match ev {
        GamutEvent::Countdown { remaining } => {
            reveal_strlit("  starting in ");
            let n = decimal_text(remaining as nat);
            assert(s.subrange(14, 14int + n.len()) == n);
        },
        GamutEvent::Point { index, total, label, flags, .. } => {
            lemma_point_line(
                padded(decimal_text((index + 1) as nat), 2, ' '),
                decimal_text(total as nat),
                padded(label@, 8, ' '),
                point_text(f, flags@, tier),
                s,
            );
            let n = padded(decimal_text((index + 1) as nat), 2, ' ');
            let at = 3int + n.len() + 1 + decimal_text(total as nat).len() + 2;
            lemma_point_text(f, flags@, tier, s, at + padded(label@, 8, ' ').len());
        },
        GamutEvent::Measured { index, flags, .. } => {
            let n = padded(decimal_text((index + 1) as nat), 3, ' ');
            lemma_measured_line(n, f.code_value@, point_text(f, flags@, tier), s);
            lemma_point_text(f, flags@, tier, s, 7int + n.len() + f.code_value@.len());
        },
        _ => {},
    }
}

} // verus!
