//! Wording of results.
use vstd::prelude::*;

use crate::analyze::{AnalyzedSample, GroundTruth, GroundTruthSource, Truth};
use crate::capture::{Capabilities, Capture, ColorDescription, FormatTrial, OutputMode};
use crate::driver::colorimeter::AdaptiveTier;
use crate::driver::confidence::TrustFlag;
use crate::number::Double;
use crate::text::{
    between, bracketed, decimal, decimal_reads_back, decimal_text, join, joined, joined_by,
    lemma_decimal_digit, pieces, quoted_list, signed_decimal, signed_text, split_undoes_join,
    stands_at, views,
};

verus! {

// ---------------------------------------------------------------------------
// Worst samples
// ---------------------------------------------------------------------------

/// Score `i` comes before score `j`: it is greater, or equal and earlier.
pub open spec fn worse(scores: Seq<Option<Double>>, i: int, j: int) -> bool {
    let a = scores[i]->0.rank();
    let b = scores[j]->0.rank();
    a > b || (a == b && i < j)
}

/// The numbers of the scores that there are, the greatest first and equal ones
/// in their order.
pub open spec fn worst_first(order: Seq<usize>, scores: Seq<Option<Double>>) -> bool {
    &&& forall|k: int|
        0 <= k < order.len() ==> (#[trigger] order[k]) < scores.len() && scores[order[k] as int]
            is Some
    &&& forall|k: int, l: int|
        0 <= k < l < order.len() ==> worse(scores, #[trigger] order[k] as int, #[trigger] order[l] as int)
}

/// Every score that is not listed comes after all that are.
pub open spec fn rest_is_better(order: Seq<usize>, scores: Seq<Option<Double>>, n: int) -> bool {
    forall|i: int, k: int|
        0 <= i < n && #[trigger] scores[i] is Some && !order.contains(i as usize) && 0 <= k
            < order.len() ==> worse(scores, #[trigger] order[k] as int, i)
}

/// Every score of the first `n` is listed.
pub open spec fn lists_all(order: Seq<usize>, scores: Seq<Option<Double>>, n: int) -> bool {
    forall|i: int| 0 <= i < n && #[trigger] scores[i] is Some ==> order.contains(i as usize)
}

/// The place of score `i` among others: before the first that it is worse than.
fn place(order: &Vec<usize>, scores: &Vec<Option<Double>>, i: usize) -> (res: usize)
    requires
        i < scores@.len(),
        scores@[i as int] is Some,
        worst_first(order@, scores@),
        forall|k: int| 0 <= k < order@.len() ==> (#[trigger] order@[k]) < i,
    ensures
        res <= order@.len(),
        forall|k: int| 0 <= k < res ==> worse(scores@, #[trigger] order@[k] as int, i as int),
        forall|k: int|
            res <= k < order@.len() ==> worse(scores@, i as int, #[trigger] order@[k] as int),
{
    let d = scores[i].unwrap();
    let mut at: usize = order.len();
    while at > 0
        invariant
            at <= order@.len(),
            i < scores@.len(),
            scores@[i as int] == Some(d),
            worst_first(order@, scores@),
            forall|k: int| 0 <= k < order@.len() ==> (#[trigger] order@[k]) < i,
            forall|k: int|
                at <= k < order@.len() ==> worse(scores@, i as int, #[trigger] order@[k] as int),
        ensures
            at <= order@.len(),
            forall|k: int| 0 <= k < at ==> worse(scores@, #[trigger] order@[k] as int, i as int),
            forall|k: int|
                at <= k < order@.len() ==> worse(scores@, i as int, #[trigger] order@[k] as int),
        decreases at,
    {
        let j: usize = order[at - 1];
        assert(scores@[order@[at - 1] as int] is Some);
        let e = scores[j].unwrap();
        if !e.precedes(&d) {
            assert forall|k: int| 0 <= k < at implies worse(
                scores@,
                #[trigger] order@[k] as int,
                i as int,
            ) by {
                if k < at - 1 {
                    assert(worse(scores@, order@[k] as int, order@[at - 1] as int));
                }
            }
            break;
        }
        at -= 1;
    }
    at
}

/// Orders the scores that there are, the greatest first.
pub fn order_worst(scores: &Vec<Option<Double>>) -> (res: Vec<usize>)
    ensures
        worst_first(res@, scores@),
        lists_all(res@, scores@, scores@.len() as int),
{
    let mut order: Vec<usize> = Vec::new();
    let mut i: usize = 0;
    while i < scores.len()
        invariant
            i <= scores@.len(),
            worst_first(order@, scores@),
            lists_all(order@, scores@, i as int),
            forall|k: int| 0 <= k < order@.len() ==> (#[trigger] order@[k]) < i,
        decreases scores@.len() - i,
    {
        let ghost before = order@;
        if scores[i].is_some() {
            let at: usize = place(&order, scores, i);
            order.insert(at, i);
            assert(order@ == before.insert(at as int, i));
            assert(order@[at as int] == i);
            assert forall|k: int, l: int| 0 <= k < l < order@.len() implies worse(
                scores@,
                #[trigger] order@[k] as int,
                #[trigger] order@[l] as int,
            ) by {
                if k < at {
                    assert(order@[k] == before[k]);
                } else if k > at {
                    assert(order@[k] == before[k - 1]);
                }
                if l < at {
                    assert(order@[l] == before[l]);
                } else if l > at {
                    assert(order@[l] == before[l - 1]);
                }
            }
            assert forall|k: int| 0 <= k < order@.len() implies (#[trigger] order@[k])
                < scores@.len() && scores@[order@[k] as int] is Some && order@[k] < i + 1 by {
                if k < at {
                    assert(order@[k] == before[k]);
                } else if k > at {
                    assert(order@[k] == before[k - 1]);
                }
            }
            assert forall|j: int| 0 <= j < i + 1 && #[trigger] scores@[j] is Some implies order@.contains(
                j as usize,
            ) by {
                if j == i {
                    assert(order@[at as int] == j as usize);
                } else {
                    assert(before.contains(j as usize));
                    let k = choose|k: int| 0 <= k < before.len() && before[k] == j as usize;
                    if k < at {
                        assert(order@[k] == j as usize);
                    } else {
                        assert(order@[k + 1] == j as usize);
                    }
                }
            }
        }
        i += 1;
    }
    order
}

/// The greatest `top` of the scores that there are.
pub fn worst(scores: &Vec<Option<Double>>, top: usize) -> (res: Vec<usize>)
    ensures
        worst_first(res@, scores@),
        rest_is_better(res@, scores@, scores@.len() as int),
        res@.len() <= top,
        res@.len() < top ==> lists_all(res@, scores@, scores@.len() as int),
{
    let mut order = order_worst(scores);
    let ghost all = order@;
    let count: usize = scores.len();
    assert(count == scores@.len());
    if order.len() > top {
        order.truncate(top);
        assert(order@ == all.take(top as int));
        assert forall|i: int, k: int|
            0 <= i < scores@.len() && #[trigger] scores@[i] is Some && !order@.contains(i as usize)
                && 0 <= k < order@.len() implies worse(scores@, #[trigger] order@[k] as int, i) by {
            assert(all.contains(i as usize));
            let l = choose|l: int| 0 <= l < all.len() && all[l] == i as usize;
            if l < top {
                assert(order@[l] == i as usize);
            }
            assert(order@[k] == all[k]);
        }
    }
    order
}

/// The order of the scores is the only one of its kind: two lists of all the
/// scores there are, the greatest first, are the same.
pub proof fn worst_order_is_unique(a: Seq<usize>, b: Seq<usize>, scores: Seq<Option<Double>>)
    requires
        scores.len() <= usize::MAX,
        worst_first(a, scores),
        worst_first(b, scores),
        lists_all(a, scores, scores.len() as int),
        lists_all(b, scores, scores.len() as int),
    ensures
        a == b,
{
    lemma_rest_of_order(a, b, scores, 0);
}

/// Two orders of the same scores agree from one place on if they agree before.
proof fn lemma_rest_of_order(a: Seq<usize>, b: Seq<usize>, scores: Seq<Option<Double>>, n: int)
    requires
        scores.len() <= usize::MAX,
        worst_first(a, scores),
        worst_first(b, scores),
        lists_all(a, scores, scores.len() as int),
        lists_all(b, scores, scores.len() as int),
        0 <= n <= a.len(),
        n <= b.len(),
        forall|k: int| 0 <= k < n ==> a[k] == b[k],
    ensures
        a == b,
    decreases a.len() - n,
{
    if n < a.len() && n < b.len() {
        assert(scores[a[n] as int] is Some);
        assert(b.contains(a[n]));
        let k = choose|k: int| 0 <= k < b.len() && b[k] == a[n];
        assert(scores[b[n] as int] is Some);
        assert(a.contains(b[n]));
        let l = choose|l: int| 0 <= l < a.len() && a[l] == b[n];
        if k < n {
            assert(a[k] == a[n]);
            assert(worse(scores, a[k] as int, a[n] as int));
        }
        if l < n {
            assert(b[l] == b[n]);
            assert(worse(scores, b[l] as int, b[n] as int));
        }
        if k > n {
            assert(worse(scores, b[n] as int, b[k] as int));
            assert(l > n);
            assert(worse(scores, a[n] as int, a[l] as int));
        }
        assert(a[n] == b[n]);
        lemma_rest_of_order(a, b, scores, n + 1);
    } else if n < a.len() {
        assert(scores[a[n] as int] is Some);
        assert(b.contains(a[n]));
        let k = choose|k: int| 0 <= k < b.len() && b[k] == a[n];
        assert(a[k] == a[n]);
        assert(worse(scores, a[k] as int, a[n] as int));
    } else if n < b.len() {
        assert(scores[b[n] as int] is Some);
        assert(a.contains(b[n]));
        let k = choose|k: int| 0 <= k < a.len() && a[k] == b[n];
        assert(b[k] == b[n]);
        assert(worse(scores, b[k] as int, b[n] as int));
    } else {
        assert(a == b);
    }
}

/// The colour distances of a trial's samples.
pub fn colour_scores(samples: &Vec<AnalyzedSample>) -> (res: Vec<Option<Double>>)
    ensures
        res@ == samples@.map_values(|s: AnalyzedSample| s.delta_e),
{
    let mut v: Vec<Option<Double>> = Vec::new();
    let mut i: usize = 0;
    while i < samples.len()
        invariant
            i <= samples@.len(),
            v@ == samples@.take(i as int).map_values(|s: AnalyzedSample| s.delta_e),
        decreases samples@.len() - i,
    {
        v.push(samples[i].delta_e);
        i += 1;
        assert(v@ == samples@.take(i as int).map_values(|s: AnalyzedSample| s.delta_e));
    }
    assert(samples@.take(i as int) == samples@);
    v
}

// ---------------------------------------------------------------------------
// Verdicts
// ---------------------------------------------------------------------------

/// 0.003.
pub const UV_ON_TARGET: u64 = 0x3f68_9374_bc6a_7efa;

/// 0.005.
pub const UV_PERCEPTIBLE: u64 = 0x3f74_7ae1_47ae_147b;

/// 0.008.
pub const UV_CLOSE: u64 = 0x3f80_624d_d2f1_a9fc;

/// 0.015.
pub const UV_OBVIOUS: u64 = 0x3f8e_b851_eb85_1eb8;

/// 0.03.
pub const UV_SEVERE: u64 = 0x3f9e_b851_eb85_1eb8;

/// A number below one of the thresholds.
pub open spec fn below(d: Double, bits: u64) -> bool {
    d.less(Double { bits })
}

fn is_below(d: Double, bits: u64) -> (res: bool)
    ensures
        res == below(d, bits),
{
    d.is_less(&Double { bits })
}

/// What a trial's greatest chromaticity distance amounts to.
pub open spec fn duv_text(max: Double) -> Seq<char> {
    if below(max, UV_PERCEPTIBLE) {
        "(imperceptible)"@
    } else if below(max, UV_OBVIOUS) {
        "(perceptible)"@
    } else if below(max, UV_SEVERE) {
        "(obvious)"@
    } else {
        "(severe)"@
    }
}

/// Words a trial's greatest chromaticity distance.
pub fn duv_verdict(max: Double) -> (res: &'static str)
    ensures
        res@ == duv_text(max),
{
    if is_below(max, UV_PERCEPTIBLE) {
        "(imperceptible)"
    } else if is_below(max, UV_OBVIOUS) {
        "(perceptible)"
    } else if is_below(max, UV_SEVERE) {
        "(obvious)"
    } else {
        "(severe)"
    }
}

/// What a white's distance from D65 amounts to.
pub open spec fn white_text(duv: Double) -> Seq<char> {
    if below(duv, UV_ON_TARGET) {
        "(on-target)"@
    } else if below(duv, UV_CLOSE) {
        "(close to D65)"@
    } else if below(duv, UV_OBVIOUS) {
        "(visibly off D65)"@
    } else if below(duv, UV_SEVERE) {
        "(obviously off D65)"@
    } else {
        "(dramatically off D65)"@
    }
}

/// Words a white's distance from D65.
pub fn delta_uv_descriptor(duv: Double) -> (res: &'static str)
    ensures
        res@ == white_text(duv),
{
    if is_below(duv, UV_ON_TARGET) {
        "(on-target)"
    } else if is_below(duv, UV_CLOSE) {
        "(close to D65)"
    } else if is_below(duv, UV_OBVIOUS) {
        "(visibly off D65)"
    } else if is_below(duv, UV_SEVERE) {
        "(obviously off D65)"
    } else {
        "(dramatically off D65)"
    }
}

/// 0.05.
pub const GAMMA_TOLERANCE: u64 = 0x3fa9_9999_9999_999a;

/// 1.8.
pub const GAMMA_FLAT: u64 = 0x3ffc_cccc_cccc_cccd;

/// 2.2.
pub const GAMMA_NOMINAL: u64 = 0x4001_9999_9999_999a;

/// 2.5.
pub const GAMMA_STEEP: u64 = 0x4004_0000_0000_0000;

/// What a fitted gamma amounts to, given its distance from the nominal one.
pub open spec fn gamma_text(g: Double, off: Double) -> Seq<char> {
    let nominal = Double { bits: GAMMA_NOMINAL };
    if below(off, GAMMA_TOLERANCE) {
        "(sRGB / BT.709 nominal)"@
    } else if nominal.less(g) && below(g, GAMMA_STEEP) {
        "(steeper than sRGB \u{2014} mids darker than ideal)"@
    } else if g.less(nominal) && (Double { bits: GAMMA_FLAT }).less(g) {
        "(flatter than sRGB \u{2014} mids brighter than ideal)"@
    } else {
        "(unusual)"@
    }
}

/// Words a fitted gamma, given its distance from the nominal one.
pub fn gamma_descriptor(g: Double, off: Double) -> (res: &'static str)
    ensures
        res@ == gamma_text(g, off),
{
    let nominal = Double { bits: GAMMA_NOMINAL };
    let flat = Double { bits: GAMMA_FLAT };
    if is_below(off, GAMMA_TOLERANCE) {
        "(sRGB / BT.709 nominal)"
    } else if nominal.is_less(&g) && is_below(g, GAMMA_STEEP) {
        "(steeper than sRGB \u{2014} mids darker than ideal)"
    } else if g.is_less(&nominal) && flat.is_less(&g) {
        "(flatter than sRGB \u{2014} mids brighter than ideal)"
    } else {
        "(unusual)"
    }
}

/// 0.03.
pub const ADDITIVITY_GOOD: u64 = 0x3f9e_b851_eb85_1eb8;

/// 0.06.
pub const ADDITIVITY_OK: u64 = 0x3fae_b851_eb85_1eb8;

/// What the distance of a panel's additivity from one amounts to.
pub open spec fn additivity_text(off: Double) -> Seq<char> {
    if below(off, ADDITIVITY_GOOD) {
        "(good)"@
    } else if below(off, ADDITIVITY_OK) {
        "(ok)"@
    } else {
        "(suspect \u{2014} nonlinearity or stray light)"@
    }
}

/// Words the distance of a panel's additivity from one.
pub fn additivity_descriptor(off: Double) -> (res: &'static str)
    ensures
        res@ == additivity_text(off),
{
    if is_below(off, ADDITIVITY_GOOD) {
        "(good)"
    } else if is_below(off, ADDITIVITY_OK) {
        "(ok)"
    } else {
        "(suspect \u{2014} nonlinearity or stray light)"
    }
}

// ---------------------------------------------------------------------------
// Labels
// ---------------------------------------------------------------------------

/// The label of a trust flag.
pub open spec fn flag_text(f: TrustFlag) -> Seq<char> {
    match f {
        TrustFlag::Floor => "FLOOR"@,
        TrustFlag::Noisy => "NOISY"@,
        TrustFlag::Chroma => "DUV"@,
    }
}

/// The labels of some trust flags; `ok` if there are none.
pub open spec fn flags_text(flags: Seq<TrustFlag>) -> Seq<char> {
    if flags.len() == 0 {
        "ok"@
    } else {
        joined_by(flags.map_values(|f: TrustFlag| flag_text(f)), ',')
    }
}

/// Lists trust flags.
pub fn fmt_flags(flags: &Vec<TrustFlag>) -> (res: String)
    ensures
        res@ == flags_text(flags@),
{
    if flags.len() == 0 {
        return "ok".to_owned();
    }
    let mut labels: Vec<String> = Vec::new();
    let mut i: usize = 0;
    while i < flags.len()
        invariant
            i <= flags@.len(),
            views(labels@) == flags@.take(i as int).map_values(|f: TrustFlag| flag_text(f)),
        decreases flags@.len() - i,
    {
        let label = match flags[i] {
            TrustFlag::Floor => "FLOOR",
            TrustFlag::Noisy => "NOISY",
            TrustFlag::Chroma => "DUV",
        };
        let ghost before = labels@;
        labels.push(label.to_owned());
        i += 1;
        assert(views(labels@) == views(before).push(labels@.last()@));
        assert(views(labels@) == flags@.take(i as int).map_values(|f: TrustFlag| flag_text(f)));
    }
    assert(flags@.take(i as int) == flags@);
    join(&labels, ',')
}

/// The badge of an adaptive tier.
pub open spec fn tier_text(t: AdaptiveTier) -> Seq<char> {
    match t {
        AdaptiveTier::SingleFull => ""@,
        AdaptiveTier::Fast => " [fast]"@,
        AdaptiveTier::EscalatedFull => " [esc]"@,
    }
}

/// Words an adaptive tier.
pub fn fmt_tier(t: AdaptiveTier) -> (res: &'static str)
    ensures
        res@ == tier_text(t),
{
    match t {
        AdaptiveTier::SingleFull => "",
        AdaptiveTier::Fast => " [fast]",
        AdaptiveTier::EscalatedFull => " [esc]",
    }
}

/// The flags of a burst: one reading says nothing about noise.
pub fn burst_flags(repeats: usize, flags: &Vec<TrustFlag>) -> (res: String)
    ensures
        repeats < 2 ==> res@ == "quant-only"@,
        repeats >= 2 ==> res@ == flags_text(flags@),
{
    if repeats < 2 {
        "quant-only".to_owned()
    } else {
        fmt_flags(flags)
    }
}

/// What a trial was held to.
pub open spec fn basis_text(t: Truth) -> Seq<char> {
    match t {
        Truth::Known { source: GroundTruthSource::Negotiated, .. } => "negotiated"@,
        Truth::Known { source: GroundTruthSource::AssumedSrgb, .. } => "assumed sRGB"@,
        Truth::Unscored { reason } => "unscored \u{2014} "@ + reason,
    }
}

/// Words what a trial was held to.
pub fn basis(t: &GroundTruth) -> (res: String)
    ensures
        res@ == basis_text(t@),
{
    match t {
        GroundTruth::Known { source, .. } => match source {
            GroundTruthSource::Negotiated => "negotiated".to_owned(),
            GroundTruthSource::AssumedSrgb => "assumed sRGB".to_owned(),
        },
        GroundTruth::Unscored { reason } => joined("unscored \u{2014} ", reason.as_str()),
    }
}

// ---------------------------------------------------------------------------
// Captures
// ---------------------------------------------------------------------------

/// The size of an output's mode, or a question mark.
pub open spec fn mode_text(mode: Option<OutputMode>) -> Seq<char> {
    match mode {
        Some(m) => signed_text(m.width as int) + "x"@ + signed_text(m.height as int),
        None => "?"@,
    }
}

/// The line about the circumstances of a capture.
pub open spec fn capture_text(c: Capture) -> Seq<char> {
    "  "@ + c.tool.name@ + " "@ + c.tool.version@ + " | "@ + c.device.product@ + " SN "@
        + c.device.serial@ + " cal "@ + decimal_text(c.device.cal_index as nat) + " | "@
        + c.output.name@ + " "@ + mode_text(c.output.mode) + " | "@ + c.timestamp@
}

/// Introduces a capture.
pub fn capture_line(c: &Capture) -> (res: String)
    ensures
        res@ == capture_text(*c),
{
    let mut s = joined("  ", c.tool.name.as_str());
    s.append(" ");
    s.append(c.tool.version.as_str());
    s.append(" | ");
    s.append(c.device.product.as_str());
    s.append(" SN ");
    s.append(c.device.serial.as_str());
    s.append(" cal ");
    s.append(decimal(c.device.cal_index as u64).as_str());
    s.append(" | ");
    s.append(c.output.name.as_str());
    s.append(" ");
    match c.output.mode {
        Some(m) => {
            let mut size = signed_decimal(m.width);
            size.append("x");
            size.append(signed_decimal(m.height).as_str());
            s.append(size.as_str());
        },
        None => {
            s.append("?");
        },
    }
    s.append(" | ");
    s.append(c.timestamp.as_str());
    s
}

/// The line about what the compositor advertised.
pub open spec fn management_text(c: Capabilities) -> Seq<char> {
    if c.supported_transfer_functions@.len() == 0 && c.supported_primaries@.len() == 0 {
        "  color management: none advertised"@
    } else {
        "  color management: "@ + decimal_text(c.supported_transfer_functions@.len()) + " TFs, "@
            + decimal_text(c.supported_primaries@.len()) + " primaries, intents "@ + ("["@
            + quoted_list(views(c.supported_render_intents@)) + "]"@)
    }
}

/// Words what the compositor advertised.
pub fn management_line(c: &Capabilities) -> (res: String)
    ensures
        res@ == management_text(*c),
{
    let curves: usize = c.supported_transfer_functions.len();
    let primaries: usize = c.supported_primaries.len();
    if curves == 0 && primaries == 0 {
        return "  color management: none advertised".to_owned();
    }
    let mut s = joined("  color management: ", decimal(curves as u64).as_str());
    s.append(" TFs, ");
    s.append(decimal(primaries as u64).as_str());
    s.append(" primaries, intents ");
    s.append(bracketed(&c.supported_render_intents).as_str());
    s
}

/// The encoding that a trial asked for.
pub open spec fn encoding_text(d: Option<ColorDescription>) -> Seq<char> {
    match d {
        Some(d) => d.transfer_function@ + "/"@ + d.primaries@,
        None => "unmanaged"@,
    }
}

/// The heading of a trial, given what it was held to.
pub open spec fn trial_text(trial: FormatTrial, t: Truth) -> Seq<char> {
    "  \u{2500}\u{2500} "@ + encoding_text(trial.requested) + " ["@ + trial.pixel_format@ + "] \u{2014} "@
        + basis_text(t) + " \u{2500}\u{2500}"@
}

/// Heads a trial, given what it was held to.
pub fn trial_heading(trial: &FormatTrial, t: &GroundTruth) -> (res: String)
    ensures
        res@ == trial_text(*trial, t@),
{
    let encoding = match &trial.requested {
        Some(d) => between(d.transfer_function.as_str(), "/", d.primaries.as_str()),
        None => "unmanaged".to_owned(),
    };
    let mut s = joined("  \u{2500}\u{2500} ", encoding.as_str());
    s.append(" [");
    s.append(trial.pixel_format.as_str());
    s.append("] \u{2014} ");
    s.append(basis(t).as_str());
    s.append(" \u{2500}\u{2500}");
    s
}

// ---------------------------------------------------------------------------
// What a reader is told
// ---------------------------------------------------------------------------

/// The worst scores come first and in falling order, of equal ones the earlier; what
/// is left out is no worse than what is listed, and nothing is left out while there is
/// room.
pub proof fn the_worst_come_first(
    scores: Vec<Option<Double>>,
    top: usize,
    res: Vec<usize>,
    k: int,
    l: int,
    i: int,
)
    requires
        call_ensures(worst, (&scores, top), res),
        0 <= k < l < res@.len(),
        0 <= i < scores@.len(),
    ensures
        res@.len() <= top,
        res@[k] < scores@.len() && scores@[res@[k] as int] is Some,
        res@[k] != res@[l],
        scores@[res@[k] as int]->0.rank() >= scores@[res@[l] as int]->0.rank(),
        scores@[res@[k] as int]->0.rank() == scores@[res@[l] as int]->0.rank() ==> res@[k] < res@[l],
        scores@[i] is Some && !res@.contains(i as usize) ==> scores@[res@[l] as int]->0.rank()
            >= scores@[i]->0.rank() && res@.len() == top,
{
    assert(worse(scores@, res@[k] as int, res@[l] as int));
    if scores@[i] is Some && !res@.contains(i as usize) {
        assert(worse(scores@, res@[l] as int, i));
    }
}

/// Each sample has its own score.
pub proof fn scores_are_listed_in_order(samples: Vec<AnalyzedSample>, res: Vec<Option<Double>>, i: int)
    requires
        call_ensures(colour_scores, (&samples,), res),
        0 <= i < samples@.len(),
    ensures
        res@.len() == samples@.len(),
        res@[i] == samples@[i].delta_e,
{
}

/// A distance is worded by where it lies: from nothing up to 0.005, 0.015 and 0.03
/// for the greatest of a trial, and up to 0.003, 0.008, 0.015 and 0.03 for a white.
pub proof fn distances_are_worded_by_their_size(
    d: Double,
    verdict: &'static str,
    white: &'static str,
)
    requires
        d.bits < 0x7ff0_0000_0000_0000,
        call_ensures(duv_verdict, (d,), verdict),
        call_ensures(delta_uv_descriptor, (d,), white),
    ensures
        d.bits < 0x3f74_7ae1_47ae_147b ==> verdict@ == "(imperceptible)"@,
        0x3f74_7ae1_47ae_147b <= d.bits < 0x3f8e_b851_eb85_1eb8 ==> verdict@ == "(perceptible)"@,
        0x3f8e_b851_eb85_1eb8 <= d.bits < 0x3f9e_b851_eb85_1eb8 ==> verdict@ == "(obvious)"@,
        0x3f9e_b851_eb85_1eb8 <= d.bits ==> verdict@ == "(severe)"@,
        d.bits < 0x3f68_9374_bc6a_7efa ==> white@ == "(on-target)"@,
        0x3f68_9374_bc6a_7efa <= d.bits < 0x3f80_624d_d2f1_a9fc ==> white@ == "(close to D65)"@,
        0x3f80_624d_d2f1_a9fc <= d.bits < 0x3f8e_b851_eb85_1eb8 ==> white@ == "(visibly off D65)"@,
        0x3f8e_b851_eb85_1eb8 <= d.bits < 0x3f9e_b851_eb85_1eb8 ==> white@
            == "(obviously off D65)"@,
        0x3f9e_b851_eb85_1eb8 <= d.bits ==> white@ == "(dramatically off D65)"@,
{
}

/// A gamma within 0.05 of 2.2 is nominal; one above it is steep up to 2.5, and one
/// below it flat down to 1.8. Additivity is good within 0.03 of one and passable within
/// 0.06.
pub proof fn gammas_are_worded_by_their_size(
    g: Double,
    off: Double,
    gamma: &'static str,
    sum: &'static str,
)
    requires
        g.bits < 0x7ff0_0000_0000_0000,
        off.bits < 0x7ff0_0000_0000_0000,
        call_ensures(gamma_descriptor, (g, off), gamma),
        call_ensures(additivity_descriptor, (off,), sum),
    ensures
        off.bits < 0x3fa9_9999_9999_999a ==> gamma@ == "(sRGB / BT.709 nominal)"@,
        off.bits >= 0x3fa9_9999_9999_999a && 0x4001_9999_9999_999a < g.bits < 0x4004_0000_0000_0000
            ==> gamma@ == "(steeper than sRGB \u{2014} mids darker than ideal)"@,
        off.bits >= 0x3fa9_9999_9999_999a && 0x3ffc_cccc_cccc_cccd < g.bits < 0x4001_9999_9999_999a
            ==> gamma@ == "(flatter than sRGB \u{2014} mids brighter than ideal)"@,
        off.bits >= 0x3fa9_9999_9999_999a && (g.bits >= 0x4004_0000_0000_0000 || g.bits
            <= 0x3ffc_cccc_cccc_cccd) ==> gamma@ == "(unusual)"@,
        off.bits < 0x3f9e_b851_eb85_1eb8 ==> sum@ == "(good)"@,
        0x3f9e_b851_eb85_1eb8 <= off.bits < 0x3fae_b851_eb85_1eb8 ==> sum@ == "(ok)"@,
        0x3fae_b851_eb85_1eb8 <= off.bits ==> sum@
            == "(suspect \u{2014} nonlinearity or stray light)"@,
{
}

/// Every flag has its label, in its place between the commas; without flags there is
/// one word. A single reading has no flags to tell.
pub proof fn flags_are_listed_in_order(
    flags: Vec<TrustFlag>,
    repeats: usize,
    res: String,
    burst: String,
    i: int,
)
    requires
        call_ensures(fmt_flags, (&flags,), res),
        call_ensures(burst_flags, (repeats, &flags), burst),
    ensures
        flags@.len() == 0 ==> res@ == "ok"@,
        flags@.len() > 0 ==> pieces(res@, ',').len() == flags@.len(),
        0 <= i < flags@.len() && flags@[i] is Floor ==> pieces(res@, ',')[i] == "FLOOR"@,
        0 <= i < flags@.len() && flags@[i] is Noisy ==> pieces(res@, ',')[i] == "NOISY"@,
        0 <= i < flags@.len() && flags@[i] is Chroma ==> pieces(res@, ',')[i] == "DUV"@,
        repeats <= 1 ==> burst@ == "quant-only"@,
        repeats > 1 ==> burst@ == res@,
{
    if flags@.len() > 0 {
        let labels = flags@.map_values(|f: TrustFlag| flag_text(f));
        assert forall|k: int| 0 <= k < labels.len() implies !(#[trigger] labels[k]).contains(
            ',',
        ) by {
            reveal_strlit("FLOOR");
            reveal_strlit("NOISY");
            reveal_strlit("DUV");
        }
        split_undoes_join(labels, ',');
    }
}

/// A tier shows whether a measurement was fast or had to be repeated, and a basis says
/// what a trial was held to.
pub proof fn tiers_and_bases_are_worded(
    tier: &'static str,
    t: AdaptiveTier,
    truth: GroundTruth,
    words: String,
)
    requires
        call_ensures(fmt_tier, (t,), tier),
        call_ensures(basis, (&truth,), words),
    ensures
        t is Fast ==> tier@ == " [fast]"@,
        t is EscalatedFull ==> tier@ == " [esc]"@,
        t is SingleFull ==> tier@ == ""@,
        truth is Known && truth->source is Negotiated ==> words@ == "negotiated"@,
        truth is Known && truth->source is AssumedSrgb ==> words@ == "assumed sRGB"@,
        truth matches GroundTruth::Unscored { reason } ==> words@ == "unscored \u{2014} "@
            + reason@,
{
}

/// The introduction of a capture holds each of its facts in its place, the size of the
/// output by its width and its height.
pub proof fn introductions_hold_their_facts(c: Capture, res: String)
    requires
        call_ensures(capture_line, (&c,), res),
    ensures
        ({
            let name = 2 + c.tool.name@.len() as int;
            let version = name + 1 + c.tool.version@.len();
            let product = version + 3 + c.device.product@.len();
            let serial = product + 4 + c.device.serial@.len();
            let index = decimal_text(c.device.cal_index as nat);
            let cal = serial + 5 + index.len();
            let output = cal + 3 + c.output.name@.len();
            &&& stands_at(res@, c.tool.name@, 2)
            &&& stands_at(res@, c.tool.version@, name + 1)
            &&& stands_at(res@, c.device.product@, version + 3)
            &&& stands_at(res@, c.device.serial@, product + 4)
            &&& stands_at(res@, index, serial + 5)
            &&& stands_at(res@, c.output.name@, cal + 3)
            &&& c.output.mode matches Some(m) ==> {
                let w = signed_text(m.width as int);
                &&& stands_at(res@, w, output + 1)
                &&& stands_at(res@, signed_text(m.height as int), output + 2 + w.len())
            }
            &&& stands_at(res@, c.timestamp@, res@.len() - c.timestamp@.len())
        }),
{
    reveal_strlit("  ");
    reveal_strlit(" ");
    reveal_strlit(" | ");
    reveal_strlit(" SN ");
    reveal_strlit(" cal ");
    reveal_strlit("x");
    let s = res@;
    let name = 2 + c.tool.name@.len() as int;
    let version = name + 1 + c.tool.version@.len();
    let product = version + 3 + c.device.product@.len();
    let serial = product + 4 + c.device.serial@.len();
    let index = decimal_text(c.device.cal_index as nat);
    let cal = serial + 5 + index.len();
    let output = cal + 3 + c.output.name@.len();
    assert(s.subrange(2, name) == c.tool.name@);
    assert(s.subrange(name + 1, version) == c.tool.version@);
    assert(s.subrange(version + 3, product) == c.device.product@);
    assert(s.subrange(product + 4, serial) == c.device.serial@);
    assert(s.subrange(serial + 5, cal) == index);
    assert(s.subrange(cal + 3, output) == c.output.name@);
    assert(s.subrange(s.len() - c.timestamp@.len(), s.len() as int) == c.timestamp@);
    if let Some(m) = c.output.mode {
        let w = signed_text(m.width as int);
        let h = signed_text(m.height as int);
        assert(s.subrange(output + 1, output + 1 + w.len()) == w);
        assert(s.subrange(output + 2 + w.len(), output + 2 + w.len() + h.len()) == h);
    }
}

/// The heading of a trial names the transfer function in front of the primaries, and
/// then the buffer; a trial that asked for nothing is unmanaged.
pub proof fn headings_name_the_encoding(trial: FormatTrial, t: GroundTruth, res: String, b: String)
    requires
        call_ensures(trial_heading, (&trial, &t), res),
        call_ensures(basis, (&t,), b),
    ensures
        trial.requested matches Some(d) ==> {
            let slash = 5 + d.transfer_function@.len() as int;
            let end = slash + 1 + d.primaries@.len();
            &&& stands_at(res@, d.transfer_function@, 5)
            &&& res@[slash] == '/'
            &&& stands_at(res@, d.primaries@, slash + 1)
            &&& stands_at(res@, trial.pixel_format@, end + 2)
            &&& stands_at(res@, b@, end + 2 + trial.pixel_format@.len() + 4)
        },
        trial.requested is None ==> {
            &&& stands_at(res@, "unmanaged"@, 5)
            &&& stands_at(res@, trial.pixel_format@, 7int + "unmanaged"@.len())
        },
{
    reveal_strlit("  \u{2500}\u{2500} ");
    reveal_strlit(" [");
    reveal_strlit("] \u{2014} ");
    reveal_strlit("/");
    let s = res@;
    let f = trial.pixel_format@;
    if let Some(d) = trial.requested {
        let slash = 5 + d.transfer_function@.len() as int;
        let end = slash + 1 + d.primaries@.len();
        assert(s.subrange(5, slash) == d.transfer_function@);
        assert(s.subrange(slash + 1, end) == d.primaries@);
        assert(s.subrange(end + 2, end + 2 + f.len()) == f);
        assert(s.subrange(end + 2 + f.len() + 4, end + 2 + f.len() + 4 + b@.len()) == b@);
    } else {
        let u = "unmanaged"@;
        assert(s.subrange(5, 5int + u.len()) == u);
        assert(s.subrange(7int + u.len(), 7int + u.len() + f.len()) == f);
    }
}

/// Colour management is none where neither transfer functions nor primaries are
/// advertised; otherwise both are counted, the transfer functions first.
pub proof fn advertisements_are_counted(c: Capabilities, res: String)
    requires
        call_ensures(management_line, (&c,), res),
    ensures
        c.supported_transfer_functions@.len() == 0 && c.supported_primaries@.len() == 0 <==> res@
            == "  color management: none advertised"@,
        c.supported_transfer_functions@.len() > 0 || c.supported_primaries@.len() > 0 ==> {
            let n = decimal_text(c.supported_transfer_functions@.len());
            let m = decimal_text(c.supported_primaries@.len());
            &&& stands_at(res@, n, 20)
            &&& stands_at(res@, m, 26int + n.len())
        },
{
    reveal_strlit("  color management: none advertised");
    reveal_strlit("  color management: ");
    reveal_strlit(" TFs, ");
    let n = decimal_text(c.supported_transfer_functions@.len());
    let m = decimal_text(c.supported_primaries@.len());
    decimal_reads_back(c.supported_transfer_functions@.len());
    if c.supported_transfer_functions@.len() > 0 || c.supported_primaries@.len() > 0 {
        let s = res@;
        assert(s.subrange(20, 20int + n.len()) == n);
        assert(s.subrange(26int + n.len(), 26int + n.len() + m.len()) == m);
        lemma_decimal_digit(c.supported_transfer_functions@.len(), 0);
        assert(s[20] == n[0]);
        assert("  color management: none advertised"@[20] == 'n');
    }
}

} // verus!
