//! What a compositor can do, known before a surface is placed: its colour
//! management and the buffer formats that it accepts.
use vstd::prelude::*;

use crate::display::color_mgmt::{
    feature_named, intent_named, intent_names_are_distinct, primaries_named,
    primaries_names_are_distinct, tf_named, tf_names_are_distinct, feature_names_are_distinct,
    lists, ColorCapabilities, Feature, Primaries, RenderIntent, TransferFunction,
};
use crate::display::format::{
    all_formats, every_format_is_in_the_table, wl_codes_are_distinct, BufferFormat,
};
use crate::text::{same_text, views};

verus! {

/// What the compositor can do.
#[derive(Debug)]
pub struct DisplayCapabilities {
    /// Colour-management capabilities.
    pub color: ColorCapabilities,
    /// The `wl_shm` codes of the buffer formats that were advertised.
    pub shm_formats: Vec<u32>,
}

impl Default for DisplayCapabilities {
    fn default() -> (res: Self)
        ensures
            res.color.transfer_functions@.len() == 0,
            res.color.primaries@.len() == 0,
            res.color.features@.len() == 0,
            res.color.render_intents@.len() == 0,
            !res.color.done,
            res.shm_formats@.len() == 0,
    {
        DisplayCapabilities { color: ColorCapabilities::default(), shm_formats: Vec::new() }
    }
}

/// The variant names of those names that denote transfer functions.
pub open spec fn known_tfs(names: Seq<&str>) -> Seq<Seq<char>>
    decreases names.len(),
{
    if names.len() == 0 {
        seq![]
    } else {
        let front = known_tfs(names.drop_last());
        if exists|t: TransferFunction| #[trigger] t.name_text() == names.last()@ {
            let t = choose|t: TransferFunction| #[trigger] t.name_text() == names.last()@;
            front.push(t.variant_text())
        } else {
            front
        }
    }
}

/// The variant names of those names that denote primaries.
pub open spec fn known_primaries(names: Seq<&str>) -> Seq<Seq<char>>
    decreases names.len(),
{
    if names.len() == 0 {
        seq![]
    } else {
        let front = known_primaries(names.drop_last());
        if exists|t: Primaries| #[trigger] t.name_text() == names.last()@ {
            let t = choose|t: Primaries| #[trigger] t.name_text() == names.last()@;
            front.push(t.variant_text())
        } else {
            front
        }
    }
}

/// The features that a parametric description can make use of.
pub open spec fn parametric_features() -> Seq<Seq<char>> {
    seq![
        Feature::Parametric.variant_text(),
        Feature::SetPrimaries.variant_text(),
        Feature::SetTfPower.variant_text(),
        Feature::SetLuminances.variant_text(),
        Feature::SetMasteringDisplayPrimaries.variant_text(),
        Feature::WindowsScrgb.variant_text(),
    ]
}

/// The first supported format of a list of preferences.
pub open spec fn preferred(caps: DisplayCapabilities, preference: Seq<BufferFormat>) -> Option<
    BufferFormat,
>
    decreases preference.len(),
{
    if preference.len() == 0 {
        None
    } else if caps.supports(preference.first()) {
        Some(preference.first())
    } else {
        preferred(caps, preference.skip(1))
    }
}

impl DisplayCapabilities {
    /// The two mandatory 8-bit formats are always supported; every other one
    /// must be advertised.
    pub open spec fn supports(self, f: BufferFormat) -> bool {
        f == BufferFormat::Xrgb8888 || f == BufferFormat::Argb8888 || self.shm_formats@.contains(
            f.wl_code(),
        )
    }

    /// There is colour management: the manager has completed its enumeration.
    pub open spec fn manages_color(self) -> bool {
        self.color.done
    }

    fn push_tfs(names: &[&str]) -> (res: Vec<String>)
        ensures
            views(res@) == known_tfs(names@),
    {
        let mut out: Vec<String> = Vec::new();
        let mut i: usize = 0;
        assert(views(out@) == Seq::<Seq<char>>::empty());
        while i < names.len()
            invariant
                i <= names@.len(),
                views(out@) == known_tfs(names@.take(i as int)),
            decreases names@.len() - i,
        {
            let ghost before = out@;
            assert(names@.take(i + 1).drop_last() == names@.take(i as int));
            if let Some(t) = tf_named(names[i]) {
                let ghost u = choose|u: TransferFunction| #[trigger]
                    u.name_text() == names@[i as int]@;
                proof {
                    tf_names_are_distinct(t, u);
                }
                out.push(t.variant().to_owned());
                assert(views(out@) == views(before).push(t.variant_text()));
            }
            i += 1;
        }
        assert(names@.take(i as int) == names@);
        out
    }

    fn push_primaries(names: &[&str]) -> (res: Vec<String>)
        ensures
            views(res@) == known_primaries(names@),
    {
        let mut out: Vec<String> = Vec::new();
        let mut i: usize = 0;
        assert(views(out@) == Seq::<Seq<char>>::empty());
        while i < names.len()
            invariant
                i <= names@.len(),
                views(out@) == known_primaries(names@.take(i as int)),
            decreases names@.len() - i,
        {
            let ghost before = out@;
            assert(names@.take(i + 1).drop_last() == names@.take(i as int));
            if let Some(t) = primaries_named(names[i]) {
                let ghost u = choose|u: Primaries| #[trigger] u.name_text() == names@[i as int]@;
                proof {
                    primaries_names_are_distinct(t, u);
                }
                out.push(t.variant().to_owned());
                assert(views(out@) == views(before).push(t.variant_text()));
            }
            i += 1;
        }
        assert(names@.take(i as int) == names@);
        out
    }

    /// A capability set that advertises the named transfer functions and
    /// primaries and the given buffer formats, with all features that
    /// parametric descriptions use. Names that are not in the tables are
    /// dropped; the enumeration counts as complete if any transfer function is
    /// known.
    pub fn advertising(
        transfer_functions: &[&str],
        primaries: &[&str],
        formats: &[BufferFormat],
    ) -> (res: Self)
        ensures
            views(res.color.transfer_functions@) == known_tfs(transfer_functions@),
            views(res.color.primaries@) == known_primaries(primaries@),
            views(res.color.features@) == parametric_features(),
            res.color.render_intents@.len() == 0,
            res.color.done == (known_tfs(transfer_functions@).len() > 0),
            res.shm_formats@ == seq![
                BufferFormat::Xrgb8888.wl_code(),
                BufferFormat::Argb8888.wl_code(),
            ] + formats@.map_values(|f: BufferFormat| f.wl_code()),
    {
        let tf = Self::push_tfs(transfer_functions);
        let prim = Self::push_primaries(primaries);
        let done: bool = tf.len() > 0;
        let mut features: Vec<String> = Vec::new();
        features.push(Feature::Parametric.variant().to_owned());
        features.push(Feature::SetPrimaries.variant().to_owned());
        features.push(Feature::SetTfPower.variant().to_owned());
        features.push(Feature::SetLuminances.variant().to_owned());
        features.push(Feature::SetMasteringDisplayPrimaries.variant().to_owned());
        features.push(Feature::WindowsScrgb.variant().to_owned());
        assert(views(features@) == parametric_features());
        let mut shm_formats: Vec<u32> = Vec::new();
        shm_formats.push(BufferFormat::Xrgb8888.wl_format());
        shm_formats.push(BufferFormat::Argb8888.wl_format());
        let ghost start = shm_formats@;
        let ghost codes = formats@.map_values(|f: BufferFormat| f.wl_code());
        let mut i: usize = 0;
        assert(start + codes.take(0) == start);
        while i < formats.len()
            invariant
                i <= formats@.len(),
                codes == formats@.map_values(|f: BufferFormat| f.wl_code()),
                shm_formats@ == start + codes.take(i as int),
            decreases formats@.len() - i,
        {
            shm_formats.push(formats[i].wl_format());
            i += 1;
            assert(codes.take(i as int) == codes.take(i - 1).push(codes[i - 1]));
            assert(shm_formats@ == start + codes.take(i as int));
        }
        assert(codes.take(i as int) == codes);
        assert(views(tf@).len() == tf@.len());
        DisplayCapabilities {
            color: ColorCapabilities {
                transfer_functions: tf,
                primaries: prim,
                features,
                render_intents: Vec::new(),
                done,
            },
            shm_formats,
        }
    }

    /// Whether the compositor can present this buffer format.
    pub fn supports_buffer_format(&self, f: BufferFormat) -> (res: bool)
        ensures
            res == self.supports(f),
    {
        if f == BufferFormat::Xrgb8888 || f == BufferFormat::Argb8888 {
            return true;
        }
        let code: u32 = f.wl_format();
        let mut i: usize = 0;
        while i < self.shm_formats.len()
            invariant
                i <= self.shm_formats@.len(),
                code == f.wl_code(),
                forall|j: int| 0 <= j < i ==> self.shm_formats@[j] != code,
            decreases self.shm_formats@.len() - i,
        {
            if self.shm_formats[i] == code {
                assert(self.shm_formats@.contains(code));
                return true;
            }
            i += 1;
        }
        false
    }

    /// Every supported format, in table order.
    pub fn supported_buffer_formats(&self) -> (res: Vec<BufferFormat>)
        ensures
            res@ == all_formats().filter(|f: BufferFormat| self.supports(f)),
    {
        let all = BufferFormat::all();
        let ghost pred = |f: BufferFormat| self.supports(f);
        let mut out: Vec<BufferFormat> = Vec::new();
        let mut i: usize = 0;
        proof {
            reveal(Seq::filter);
            assert(all@.take(0).filter(pred) == Seq::<BufferFormat>::empty());
        }
        while i < all.len()
            invariant
                i <= all@.len(),
                pred == (|f: BufferFormat| self.supports(f)),
                out@ == all@.take(i as int).filter(pred),
            decreases all@.len() - i,
        {
            proof {
                reveal(Seq::filter);
                assert(all@.take(i + 1).drop_last() == all@.take(i as int));
            }
            if self.supports_buffer_format(all[i]) {
                out.push(all[i]);
            }
            i += 1;
        }
        assert(all@.take(i as int) == all@);
        out
    }

    /// The first format of a list of preferences that the compositor supports.
    pub fn first_supported(&self, preference: &[BufferFormat]) -> (res: Option<BufferFormat>)
        ensures
            res == preferred(*self, preference@),
    {
        let mut i: usize = 0;
        assert(preference@.skip(0) == preference@);
        while i < preference.len()
            invariant
                i <= preference@.len(),
                preferred(*self, preference@) == preferred(*self, preference@.skip(i as int)),
            decreases preference@.len() - i,
        {
            assert(preference@.skip(i as int).skip(1) == preference@.skip(i + 1));
            if self.supports_buffer_format(preference[i]) {
                return Some(preference[i]);
            }
            i += 1;
        }
        None
    }

    /// Whether the compositor has colour management at all: a manager that has
    /// completed its enumeration.
    pub fn has_color_management(&self) -> (res: bool)
        ensures
            res == self.manages_color(),
    {
        self.color.done
    }

    /// Whether the named transfer function is advertised.
    pub fn supports_transfer_function(&self, name: &str) -> (res: bool)
        ensures
            res == exists|t: TransferFunction| #[trigger]
                t.name_text() == name@ && self.color.advertises_tf(t),
    {
        match tf_named(name) {
            Some(t) => {
                proof {
                    assert forall|u: TransferFunction| #[trigger]
                        u.name_text() == name@ implies u == t by {
                        tf_names_are_distinct(t, u);
                    }
                }
                self.color.has_tf(t)
            },
            None => false,
        }
    }

    /// Whether the named primaries are advertised.
    pub fn supports_primaries(&self, name: &str) -> (res: bool)
        ensures
            res == exists|p: Primaries| #[trigger]
                p.name_text() == name@ && self.color.advertises_primaries(p),
    {
        match primaries_named(name) {
            Some(t) => {
                proof {
                    assert forall|u: Primaries| #[trigger]
                        u.name_text() == name@ implies u == t by {
                        primaries_names_are_distinct(t, u);
                    }
                }
                self.color.has_primaries(t)
            },
            None => false,
        }
    }

    /// Whether the named optional feature is advertised.
    pub fn supports_feature(&self, name: &str) -> (res: bool)
        ensures
            res == exists|f: Feature| #[trigger]
                f.name_text() == name@ && self.color.advertises_feature(f),
    {
        match feature_named(name) {
            Some(t) => {
                proof {
                    assert forall|u: Feature| #[trigger] u.name_text() == name@ implies u == t by {
                        feature_names_are_distinct(t, u);
                    }
                }
                self.color.has_feature(t)
            },
            None => false,
        }
    }

    /// Whether the named render intent is supported. Perceptual is, wherever
    /// there is colour management.
    pub fn supports_render_intent(&self, name: &str) -> (res: bool)
        ensures
            res == if name@ == "perceptual"@ {
                self.manages_color()
            } else {
                exists|i: RenderIntent| #[trigger]
                    i.name_text() == name@ && lists(self.color.render_intents@, i.variant_text())
            },
    {
        if same_text(name, "perceptual") {
            return self.has_color_management();
        }
        match intent_named(name) {
            Some(t) => {
                proof {
                    assert forall|u: RenderIntent| #[trigger]
                        u.name_text() == name@ implies u == t by {
                        intent_names_are_distinct(t, u);
                    }
                }
                self.color.has_intent(t)
            },
            None => false,
        }
    }
}

// ---------------------------------------------------------------------------
// What is on offer
// ---------------------------------------------------------------------------

proof fn lemma_known_tfs(names: Seq<&str>, t: TransferFunction)
    ensures
        known_tfs(names).contains(t.variant_text()) <== exists|i: int|
            0 <= i < names.len() && #[trigger] names[i]@ == t.name_text(),
    decreases names.len(),
{
    if names.len() > 0 {
        let rest = names.drop_last();
        let front = known_tfs(rest);
        lemma_known_tfs(rest, t);
        let all = known_tfs(names);
        let last = names.last()@;
        let u = choose|u: TransferFunction| #[trigger] u.name_text() == last;
        if exists|i: int| 0 <= i < names.len() && #[trigger] names[i]@ == t.name_text() {
            let i = choose|i: int| 0 <= i < names.len() && #[trigger] names[i]@ == t.name_text();
            if i < rest.len() {
                assert(rest[i]@ == t.name_text());
                let k = choose|k: int| 0 <= k < front.len() && front[k] == t.variant_text();
                assert(all[k] == t.variant_text());
            } else {
                tf_names_are_distinct(t, u);
                assert(all.last() == t.variant_text());
            }
        }
    }
}

proof fn lemma_known_primaries(names: Seq<&str>, t: Primaries)
    ensures
        known_primaries(names).contains(t.variant_text()) <== exists|i: int|
            0 <= i < names.len() && #[trigger] names[i]@ == t.name_text(),
    decreases names.len(),
{
    if names.len() > 0 {
        let rest = names.drop_last();
        let front = known_primaries(rest);
        lemma_known_primaries(rest, t);
        let all = known_primaries(names);
        let last = names.last()@;
        let u = choose|u: Primaries| #[trigger] u.name_text() == last;
        if exists|i: int| 0 <= i < names.len() && #[trigger] names[i]@ == t.name_text() {
            let i = choose|i: int| 0 <= i < names.len() && #[trigger] names[i]@ == t.name_text();
            if i < rest.len() {
                assert(rest[i]@ == t.name_text());
                let k = choose|k: int| 0 <= k < front.len() && front[k] == t.variant_text();
                assert(all[k] == t.variant_text());
            } else {
                primaries_names_are_distinct(t, u);
                assert(all.last() == t.variant_text());
            }
        }
    }
}

/// What is advertised by name is supported by that name, and a compositor that has
/// advertised a transfer function has colour management. What was listed for
/// something else makes no difference.
pub proof fn advertised_names_are_supported(
    transfer_functions: &[&str],
    primaries: &[&str],
    formats: &[BufferFormat],
    caps: DisplayCapabilities,
    i: int,
    t: TransferFunction,
    p: Primaries,
    name: &str,
    has_t: bool,
    has_p: bool,
    managed: bool,
)
    requires
        call_ensures(DisplayCapabilities::advertising, (transfer_functions, primaries, formats), caps),
        call_ensures(DisplayCapabilities::supports_transfer_function, (&caps, name), has_t),
        call_ensures(DisplayCapabilities::supports_primaries, (&caps, name), has_p),
        call_ensures(DisplayCapabilities::has_color_management, (&caps,), managed),
    ensures
        0 <= i < transfer_functions@.len() && transfer_functions@[i]@ == name@ && t.name_text()
            == name@ ==> has_t && managed,
        0 <= i < primaries@.len() && primaries@[i]@ == name@ && p.name_text() == name@ ==> has_p,
        (forall|u: TransferFunction| #[trigger] u.name_text() != name@) ==> !has_t,
        (forall|u: Primaries| #[trigger] u.name_text() != name@) ==> !has_p,
        transfer_functions@.len() == 0 ==> !has_t && !managed,
        primaries@.len() == 0 ==> !has_p,
{
    let tfs = known_tfs(transfer_functions@);
    let ps = known_primaries(primaries@);
    lemma_known_tfs(transfer_functions@, t);
    lemma_known_primaries(primaries@, p);
    if 0 <= i < transfer_functions@.len() && transfer_functions@[i]@ == name@ && t.name_text()
        == name@ {
        assert(tfs.contains(t.variant_text()));
        assert(caps.color.advertises_tf(t));
    }
    if 0 <= i < primaries@.len() && primaries@[i]@ == name@ && p.name_text() == name@ {
        assert(ps.contains(p.variant_text()));
        assert(caps.color.advertises_primaries(p));
    }
}

/// A format is supported exactly if it was advertised or is one of the two that every
/// compositor has.
pub proof fn advertised_formats_are_supported(
    transfer_functions: &[&str],
    primaries: &[&str],
    formats: &[BufferFormat],
    caps: DisplayCapabilities,
    f: BufferFormat,
    has: bool,
)
    requires
        call_ensures(DisplayCapabilities::advertising, (transfer_functions, primaries, formats), caps),
        call_ensures(DisplayCapabilities::supports_buffer_format, (&caps, f), has),
    ensures
        has <==> f == BufferFormat::Xrgb8888 || f == BufferFormat::Argb8888 || formats@.contains(f),
{
    let codes = formats@.map_values(|g: BufferFormat| g.wl_code());
    let list = caps.shm_formats@;
    if formats@.contains(f) {
        let i = choose|i: int| 0 <= i < formats@.len() && formats@[i] == f;
        assert(list[i + 2] == f.wl_code());
    }
    if list.contains(f.wl_code()) {
        let i = choose|i: int| 0 <= i < list.len() && list[i] == f.wl_code();
        if i == 0 {
            wl_codes_are_distinct(f, BufferFormat::Xrgb8888);
        } else if i == 1 {
            wl_codes_are_distinct(f, BufferFormat::Argb8888);
        } else {
            assert(list[i] == codes[i - 2]);
            wl_codes_are_distinct(f, formats@[i - 2]);
        }
    }
}

/// The listed formats are those that are supported, each once and in the order of the
/// table.
pub proof fn listed_formats_are_the_supported_ones(
    caps: DisplayCapabilities,
    f: BufferFormat,
    has: bool,
    listed: Vec<BufferFormat>,
    i: int,
    j: int,
)
    requires
        call_ensures(DisplayCapabilities::supports_buffer_format, (&caps, f), has),
        call_ensures(DisplayCapabilities::supported_buffer_formats, (&caps,), listed),
    ensures
        has <==> listed@.contains(f),
        0 <= i < j < listed@.len() ==> listed@[i].position() < listed@[j].position(),
{
    let pred = |g: BufferFormat| caps.supports(g);
    every_format_is_in_the_table(f);
    if listed@.contains(f) {
        let k = choose|k: int| 0 <= k < listed@.len() && listed@[k] == f;
        all_formats().lemma_filter_pred(pred, k);
    }
    if has {
        all_formats().lemma_filter_contains(pred, f.position());
    }
    if 0 <= i < j < listed@.len() {
        lemma_filter_keeps_order(all_formats(), pred, i, j);
    }
}

proof fn lemma_filter_keeps_order(
    s: Seq<BufferFormat>,
    pred: spec_fn(BufferFormat) -> bool,
    i: int,
    j: int,
)
    requires
        forall|k: int| 0 <= k < s.len() ==> (#[trigger] s[k]).position() == k,
        0 <= i < j < s.filter(pred).len(),
    ensures
        s.filter(pred)[i].position() < s.filter(pred)[j].position() < s.len(),
    decreases s.len(),
{
    reveal(Seq::filter);
    let rest = s.drop_last();
    let front = rest.filter(pred);
    assert forall|k: int| 0 <= k < rest.len() implies (#[trigger] rest[k]).position() == k by {
        assert(rest[k] == s[k]);
    }
    if j < front.len() {
        lemma_filter_keeps_order(rest, pred, i, j);
    } else {
        rest.lemma_filter_contains_rev(pred, front[i]);
        assert(rest.contains(front[i]));
        let k = choose|k: int| 0 <= k < rest.len() && rest[k] == front[i];
        assert(s.filter(pred)[i] == front[i]);
        assert(s.filter(pred)[j] == s.last());
        assert(s[s.len() - 1].position() == s.len() - 1);
    }
}

/// The first supported format of a list is supported, is in the list, and comes after
/// none that is supported; there is none exactly if the list holds none.
pub proof fn preferences_are_tried_in_turn(
    caps: DisplayCapabilities,
    preference: &[BufferFormat],
    res: Option<BufferFormat>,
    i: int,
)
    requires
        call_ensures(DisplayCapabilities::first_supported, (&caps, preference), res),
        0 <= i < preference@.len(),
        forall|j: int| 0 <= j < i ==> !caps.supports(#[trigger] preference@[j]),
    ensures
        caps.supports(preference@[i]) ==> res == Some(preference@[i]),
        res is None ==> !caps.supports(preference@[i]),
        res matches Some(f) ==> caps.supports(f) && preference@.contains(f),
{
    lemma_first(caps, preference@, i);
}

proof fn lemma_first(caps: DisplayCapabilities, s: Seq<BufferFormat>, i: int)
    requires
        0 <= i <= s.len(),
        forall|j: int| 0 <= j < i ==> !caps.supports(#[trigger] s[j]),
    ensures
        i < s.len() && caps.supports(s[i]) ==> preferred(caps, s) == Some(s[i]),
        preferred(caps, s) is None && i < s.len() ==> !caps.supports(s[i]),
        preferred(caps, s) matches Some(f) ==> caps.supports(f) && s.contains(f),
    decreases s.len(),
{
    if s.len() > 0 {
        let rest = s.skip(1);
        if i > 0 {
            assert forall|j: int| 0 <= j < i - 1 implies !caps.supports(#[trigger] rest[j]) by {
                assert(rest[j] == s[j + 1]);
            }
            lemma_first(caps, rest, i - 1);
        } else {
            lemma_first(caps, rest, 0);
        }
        if let Some(f) = preferred(caps, s) {
            if !caps.supports(s[0]) {
                let k = choose|k: int| 0 <= k < rest.len() && rest[k] == f;
                assert(s[k + 1] == f);
            } else {
                assert(s[0] == f);
            }
        }
    }
}

/// The perceptual intent needs colour management and nothing more; any other needs to
/// be listed.
pub proof fn only_the_perceptual_intent_is_free(
    caps: DisplayCapabilities,
    name: &str,
    i: RenderIntent,
    has: bool,
    managed: bool,
)
    requires
        call_ensures(DisplayCapabilities::supports_render_intent, (&caps, name), has),
        call_ensures(DisplayCapabilities::has_color_management, (&caps,), managed),
        i.name_text() == name@,
    ensures
        name@ == "perceptual"@ ==> has == managed,
        name@ != "perceptual"@ ==> (has <==> views(caps.color.render_intents@).contains(
            i.variant_text(),
        )),
        managed == caps.color.done,
{
    if name@ != "perceptual"@ {
        assert forall|k: RenderIntent| #[trigger] k.name_text() == name@ implies k == i by {
            intent_names_are_distinct(k, i);
        }
    }
}

/// A feature is supported exactly if it is listed.
pub proof fn features_are_supported_if_listed(
    caps: DisplayCapabilities,
    name: &str,
    f: Feature,
    has: bool,
)
    requires
        call_ensures(DisplayCapabilities::supports_feature, (&caps, name), has),
        f.name_text() == name@,
    ensures
        has <==> views(caps.color.features@).contains(f.variant_text()),
{
    assert forall|k: Feature| #[trigger] k.name_text() == name@ implies k == f by {
        feature_names_are_distinct(k, f);
    }
}

} // verus!
