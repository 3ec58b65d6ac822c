//! Format specs: a token `name[:k=v,...]` names a colour representation, and
//! `buf=` may pin the buffer that realises it. PQ formats also take the
//! mastering luminances `peak=`, `min=`, `maxcll=` and `maxfall=`.
use vstd::prelude::*;

use crate::capture;
use crate::display::capabilities::DisplayCapabilities;
use crate::display::color_mgmt::{
    DescriptionKind, DescriptionRequest, Mastering, ParametricDescription, PrimariesChoice,
    TransferChoice,
};
use crate::display::format::{names_are_distinct, BufferFormat};
use crate::display::mode::{arrangement, plans, BufferPolicy, PipelinePlan, RenderMode, Unarrangeable};
use crate::gather::sequence::{spec_arg, spec_name, split_spec};
use crate::number::{Double, Pair};
use crate::text::{
    around, between, chars_of, debug_text, find_from, first_index, is_float, is_float_text,
    joined_by, lemma_first_index, lemma_first_index_is, pieces, same_text, split,
    split_undoes_join, text_between, text_key, views,
};

verus! {

/// The patterns of 400, 0.0005 and 80.
pub const DEFAULT_PEAK: u64 = 0x4079_0000_0000_0000;

pub const DEFAULT_MIN: u64 = 0x3f40_624d_d2f1_a9fc;

pub const SCRGB_WHITE: u64 = 0x4054_0000_0000_0000;

/// The formats that there are.
#[derive(Clone, Copy, Debug, PartialEq, Eq, Structural)]
pub enum FormatName {
    Unmanaged,
    Srgb,
    SrgbP3,
    PqBt2020,
    PqP3,
    Scrgb,
}

impl FormatName {
    pub open spec fn text(self) -> Seq<char> {
        match self {
            FormatName::Unmanaged => "unmanaged"@,
            FormatName::Srgb => "srgb"@,
            FormatName::SrgbP3 => "srgb-p3"@,
            FormatName::PqBt2020 => "pq-bt2020"@,
            FormatName::PqP3 => "pq-p3"@,
            FormatName::Scrgb => "scrgb"@,
        }
    }

    /// Formats that carry mastering luminances.
    pub open spec fn is_pq(self) -> bool {
        self == FormatName::PqBt2020 || self == FormatName::PqP3
    }
}

proof fn lemma_format_keys()
    ensures
        forall|a: FormatName, b: FormatName| #[trigger] a.text() == #[trigger] b.text() ==> a == b,
{
    reveal_strlit("unmanaged");
    reveal_strlit("srgb");
    reveal_strlit("srgb-p3");
    reveal_strlit("pq-bt2020");
    reveal_strlit("pq-p3");
    reveal_strlit("scrgb");
    assert forall|a: FormatName, b: FormatName| #[trigger] a.text() == #[trigger] b.text() implies a
        == b by {
        let s = a.text();
        let t = b.text();
        assert(text_key(s) == text_key(t));
        if s.len() == 5 && t.len() == 5 {
            assert(s[0] == t[0]);
        }
        if s.len() == 9 && t.len() == 9 {
            assert(s[0] == t[0]);
        }
    }
}

/// No two formats have the same name.
pub proof fn format_names_are_distinct(a: FormatName, b: FormatName)
    requires
        a.text() == b.text(),
    ensures
        a == b,
{
    lemma_format_keys();
}

/// The names of all formats, in menu order.
pub fn known_formats() -> (res: Vec<&'static str>)
    ensures
        res@.len() == 6,
        res@[0]@ == FormatName::Unmanaged.text(),
        res@[1]@ == FormatName::Srgb.text(),
        res@[2]@ == FormatName::SrgbP3.text(),
        res@[3]@ == FormatName::PqBt2020.text(),
        res@[4]@ == FormatName::PqP3.text(),
        res@[5]@ == FormatName::Scrgb.text(),
{
    let mut v: Vec<&'static str> = Vec::new();
    v.push("unmanaged");
    v.push("srgb");
    v.push("srgb-p3");
    v.push("pq-bt2020");
    v.push("pq-p3");
    v.push("scrgb");
    v
}

fn format_named(name: &str) -> (res: Option<FormatName>)
    ensures
        match res {
            Some(n) => n.text() == name@,
            None => forall|n: FormatName| #[trigger] n.text() != name@,
        },
{
    if same_text(name, "unmanaged") {
        Some(FormatName::Unmanaged)
    } else if same_text(name, "srgb") {
        Some(FormatName::Srgb)
    } else if same_text(name, "srgb-p3") {
        Some(FormatName::SrgbP3)
    } else if same_text(name, "pq-bt2020") {
        Some(FormatName::PqBt2020)
    } else if same_text(name, "pq-p3") {
        Some(FormatName::PqP3)
    } else if same_text(name, "scrgb") {
        Some(FormatName::Scrgb)
    } else {
        None
    }
}

// ---------------------------------------------------------------------------
// Parameters
// ---------------------------------------------------------------------------

/// One `key=value` parameter.
#[derive(Debug)]
pub struct Param {
    pub key: String,
    pub value: String,
}

/// What a list of parameters assigns: of two with the same key, the later one
/// counts.
pub open spec fn assigned(params: Seq<Param>) -> Map<Seq<char>, Seq<char>>
    decreases params.len(),
{
    if params.len() == 0 {
        Map::empty()
    } else {
        assigned(params.drop_last()).insert(params.last().key@, params.last().value@)
    }
}

/// What a run of `key=value` pieces assigns, or the message of the first piece
/// without an equals sign.
pub open spec fn pieces_assign(ps: Seq<Seq<char>>) -> Result<Map<Seq<char>, Seq<char>>, Seq<char>>
    decreases ps.len(),
{
    if ps.len() == 0 {
        Ok(Map::empty())
    } else {
        match pieces_assign(ps.drop_last()) {
            Err(e) => Err(e),
            Ok(m) => {
                let kv = ps.last();
                let i = first_index(kv, '=');
                if i < kv.len() {
                    Ok(m.insert(kv.take(i), kv.skip(i + 1)))
                } else {
                    Err("bad param "@ + debug_text(kv) + " (expected key=value)"@)
                }
            },
        }
    }
}

/// What a parameter text assigns.
pub open spec fn text_assigns(s: Seq<char>) -> Result<Map<Seq<char>, Seq<char>>, Seq<char>> {
    if s.len() == 0 {
        Ok(Map::empty())
    } else {
        pieces_assign(pieces(s, ','))
    }
}

proof fn lemma_first_bad_piece(ps: Seq<Seq<char>>, i: int)
    requires
        0 <= i <= ps.len(),
        pieces_assign(ps.take(i)) is Err,
    ensures
        pieces_assign(ps) == pieces_assign(ps.take(i)),
    decreases ps.len(),
{
    if i < ps.len() {
        assert(ps.drop_last().take(i) == ps.take(i));
        lemma_first_bad_piece(ps.drop_last(), i);
    } else {
        assert(ps.take(i) == ps);
    }
}

/// Reads the parameters of a spec.
pub fn parse_params(s: &str) -> (res: Result<Vec<Param>, String>)
    ensures
        match (res, text_assigns(s@)) {
            (Ok(v), Ok(m)) => assigned(v@) == m,
            (Err(e), Err(f)) => e@ == f,
            _ => false,
        },
{
    let mut out: Vec<Param> = Vec::new();
    if s.is_empty() {
        return Ok(out);
    }
    let kvs = split(s, ',');
    let ghost ps = pieces(s@, ',');
    let mut i: usize = 0;
    while i < kvs.len()
        invariant
            i <= kvs@.len(),
            views(kvs@) == ps,
            ps == pieces(s@, ','),
            s@.len() > 0,
            pieces_assign(ps.take(i as int)) == Ok::<Map<Seq<char>, Seq<char>>, Seq<char>>(
                assigned(out@),
            ),
        decreases kvs@.len() - i,
    {
        let kv = &kvs[i];
        assert(ps[i as int] == kv@);
        assert(ps.take(i + 1).drop_last() == ps.take(i as int));
        let v = chars_of(kv.as_str());
        assert(v@.skip(0) == v@);
        let eq = find_from(&v, 0, '=');
        if eq == v.len() {
            proof {
                lemma_first_bad_piece(ps, i + 1);
            }
            return Err(around("bad param ", kv.as_str(), " (expected key=value)"));
        }
        let key = text_between(&v, 0, eq);
        let value = text_between(&v, eq + 1, v.len());
        assert(key@ == kv@.take(eq as int));
        assert(value@ == kv@.skip(eq + 1));
        let ghost before = out@;
        out.push(Param { key, value });
        assert(out@.drop_last() == before);
        i += 1;
    }
    assert(ps.take(i as int) == ps);
    Ok(out)
}

/// The value that a list of parameters assigns to a key.
pub fn param<'a>(params: &'a Vec<Param>, key: &str) -> (res: Option<&'a String>)
    ensures
        match res {
            Some(v) => assigned(params@).dom().contains(key@) && assigned(params@)[key@] == v@,
            None => !assigned(params@).dom().contains(key@),
        },
{
    let mut n: usize = params.len();
    assert(params@.take(n as int) == params@);
    while n > 0
        invariant
            n <= params@.len(),
            assigned(params@).dom().contains(key@) == assigned(
                params@.take(n as int),
            ).dom().contains(key@),
            assigned(params@).dom().contains(key@) ==> assigned(params@)[key@] == assigned(
                params@.take(n as int),
            )[key@],
        decreases n,
    {
        assert(params@.take(n as int).drop_last() == params@.take(n - 1));
        if same_text(params[n - 1].key.as_str(), key) {
            return Some(&params[n - 1].value);
        }
        n -= 1;
    }
    None
}

/// Of two parameters with the same key, the later one counts.
pub proof fn later_parameters_override(params: Seq<Param>, key: Seq<char>, i: int)
    requires
        0 <= i < params.len(),
        params[i].key@ == key,
        forall|j: int| i < j < params.len() ==> (#[trigger] params[j]).key@ != key,
    ensures
        assigned(params).dom().contains(key),
        assigned(params)[key] == params[i].value@,
    decreases params.len(),
{
    if i < params.len() - 1 {
        assert(params[params.len() - 1].key@ != key);
        assert forall|j: int| i < j < params.drop_last().len() implies (
        #[trigger] params.drop_last()[j]).key@ != key by {
            assert(params.drop_last()[j] == params[j]);
        }
        later_parameters_override(params.drop_last(), key, i);
    }
}

// ---------------------------------------------------------------------------
// Specs
// ---------------------------------------------------------------------------

/// The mastering luminances of a spec as they are written; none where the
/// default applies.
#[derive(Debug)]
pub struct MasteringTexts {
    pub peak: Option<String>,
    pub min: Option<String>,
    pub max_cll: Option<String>,
    pub max_fall: Option<String>,
}

/// The mastering luminances of a spec as numbers.
#[derive(Clone, Copy, Debug, PartialEq, Eq)]
pub struct MasteringFigures {
    pub peak: Option<Double>,
    pub min: Option<Double>,
    pub max_cll: Option<Double>,
    pub max_fall: Option<Double>,
}

/// A parsed format spec: its token and what it names.
#[derive(Debug)]
pub struct FormatSpec {
    pub token: String,
    pub name: FormatName,
    pub buffer: BufferPolicy,
    /// Mastering luminances, in PQ formats.
    pub mastering: MasteringTexts,
}

/// A [`FormatSpec`] by the contents of its texts.
pub ghost struct SpecView {
    pub token: Seq<char>,
    pub name: FormatName,
    pub buffer: BufferPolicy,
    pub peak: Option<Seq<char>>,
    pub min: Option<Seq<char>>,
    pub max_cll: Option<Seq<char>>,
    pub max_fall: Option<Seq<char>>,
}

pub open spec fn opt_view(s: Option<String>) -> Option<Seq<char>> {
    match s {
        Some(s) => Some(s@),
        None => None,
    }
}

impl View for FormatSpec {
    type V = SpecView;

    open spec fn view(&self) -> SpecView {
        SpecView {
            token: self.token@,
            name: self.name,
            buffer: self.buffer,
            peak: opt_view(self.mastering.peak),
            min: opt_view(self.mastering.min),
            max_cll: opt_view(self.mastering.max_cll),
            max_fall: opt_view(self.mastering.max_fall),
        }
    }
}

/// The value of a key, if it is assigned.
pub open spec fn value_of(m: Map<Seq<char>, Seq<char>>, key: Seq<char>) -> Option<Seq<char>> {
    if m.dom().contains(key) {
        Some(m[key])
    } else {
        None
    }
}

/// The message about a value that should be a number and is not.
pub open spec fn number_problem(m: Map<Seq<char>, Seq<char>>, key: Seq<char>) -> Option<Seq<char>> {
    match value_of(m, key) {
        Some(v) if !is_float_text(v) => Some("bad number in param "@ + key + "="@ + v),
        _ => None,
    }
}

/// The message about the first mastering luminance that is not a number.
pub open spec fn mastering_problem(m: Map<Seq<char>, Seq<char>>) -> Option<Seq<char>> {
    if number_problem(m, "peak"@) is Some {
        number_problem(m, "peak"@)
    } else if number_problem(m, "min"@) is Some {
        number_problem(m, "min"@)
    } else if number_problem(m, "maxcll"@) is Some {
        number_problem(m, "maxcll"@)
    } else {
        number_problem(m, "maxfall"@)
    }
}

/// The buffer that parameters pin, or the message about an unknown one.
pub open spec fn buffer_of(m: Map<Seq<char>, Seq<char>>) -> Result<BufferPolicy, Seq<char>> {
    match value_of(m, "buf"@) {
        None => Ok(BufferPolicy::Auto),
        Some(v) => if exists|f: BufferFormat| #[trigger] f.name_text() == v {
            Ok(BufferPolicy::Exact(choose|f: BufferFormat| #[trigger] f.name_text() == v))
        } else {
            Err("unknown buffer format "@ + debug_text(v) + " in buf= param"@)
        },
    }
}

/// What a spec says, or the message about the first thing that is wrong with
/// it: its parameters, then its name, then its numbers, then its buffer.
pub open spec fn spec_says(spec: Seq<char>) -> Result<SpecView, Seq<char>> {
    match text_assigns(spec_arg(spec)) {
        Err(e) => Err(e),
        Ok(m) => if !exists|n: FormatName| #[trigger] n.text() == spec_name(spec) {
            Err(
                "unknown format "@ + debug_text(spec_name(spec))
                    + " (known: unmanaged, srgb, srgb-p3, pq-bt2020, pq-p3, scrgb)"@,
            )
        } else {
            let name = choose|n: FormatName| #[trigger] n.text() == spec_name(spec);
            if name.is_pq() && mastering_problem(m) is Some {
                Err(mastering_problem(m)->0)
            } else {
                match buffer_of(m) {
                    Err(e) => Err(e),
                    Ok(buffer) => Ok(
                        SpecView {
                            token: spec,
                            name,
                            buffer,
                            peak: if name.is_pq() {
                                value_of(m, "peak"@)
                            } else {
                                None
                            },
                            min: if name.is_pq() {
                                value_of(m, "min"@)
                            } else {
                                None
                            },
                            max_cll: if name.is_pq() {
                                value_of(m, "maxcll"@)
                            } else {
                                None
                            },
                            max_fall: if name.is_pq() {
                                value_of(m, "maxfall"@)
                            } else {
                                None
                            },
                        },
                    ),
                }
            }
        },
    }
}

fn number_param(params: &Vec<Param>, key: &str) -> (res: Result<Option<String>, String>)
    ensures
        match res {
            Ok(v) => number_problem(assigned(params@), key@) is None && opt_view(v) == value_of(
                assigned(params@),
                key@,
            ),
            Err(e) => number_problem(assigned(params@), key@) == Some(e@),
        },
{
    match param(params, key) {
        None => Ok(None),
        Some(v) => {
            if is_float(v.as_str()) {
                Ok(Some(v.clone()))
            } else {
                let mut e: String = between("bad number in param ", key, "=");
                e.append(v.as_str());
                Err(e)
            }
        },
    }
}

fn mastering_params(params: &Vec<Param>) -> (res: Result<MasteringTexts, String>)
    ensures
        match res {
            Ok(t) => {
                &&& mastering_problem(assigned(params@)) is None
                &&& opt_view(t.peak) == value_of(assigned(params@), "peak"@)
                &&& opt_view(t.min) == value_of(assigned(params@), "min"@)
                &&& opt_view(t.max_cll) == value_of(assigned(params@), "maxcll"@)
                &&& opt_view(t.max_fall) == value_of(assigned(params@), "maxfall"@)
            },
            Err(e) => mastering_problem(assigned(params@)) == Some(e@),
        },
{
    let peak = number_param(params, "peak")?;
    let min = number_param(params, "min")?;
    let max_cll = number_param(params, "maxcll")?;
    let max_fall = number_param(params, "maxfall")?;
    Ok(MasteringTexts { peak, min, max_cll, max_fall })
}

fn buffer_param(params: &Vec<Param>) -> (res: Result<BufferPolicy, String>)
    ensures
        match (res, buffer_of(assigned(params@))) {
            (Ok(a), Ok(b)) => a == b,
            (Err(a), Err(b)) => a@ == b,
            _ => false,
        },
{
    match param(params, "buf") {
        None => Ok(BufferPolicy::Auto),
        Some(v) => match BufferFormat::from_name(v.as_str()) {
            Some(f) => {
                proof {
                    names_are_distinct(
                        f,
                        choose|g: BufferFormat| #[trigger] g.name_text() == v@,
                    );
                }
                Ok(BufferPolicy::Exact(f))
            },
            None => Err(around("unknown buffer format ", v.as_str(), " in buf= param")),
        },
    }
}

/// Reads a format spec.
pub fn parse_format(spec: &str) -> (res: Result<FormatSpec, String>)
    ensures
        match (res, spec_says(spec@)) {
            (Ok(a), Ok(b)) => a@ == b,
            (Err(a), Err(b)) => a@ == b,
            _ => false,
        },
{
    let (name_text, params_text) = split_spec(spec);
    let params = parse_params(params_text.as_str())?;
    let name = match format_named(name_text.as_str()) {
        None => {
            return Err(
                around(
                    "unknown format ",
                    name_text.as_str(),
                    " (known: unmanaged, srgb, srgb-p3, pq-bt2020, pq-p3, scrgb)",
                ),
            );
        },
        Some(n) => n,
    };
    proof {
        format_names_are_distinct(
            name,
            choose|n: FormatName| #[trigger] n.text() == spec_name(spec@),
        );
    }
    let pq: bool = name == FormatName::PqBt2020 || name == FormatName::PqP3;
    let mastering: MasteringTexts = if pq {
        mastering_params(&params)?
    } else {
        MasteringTexts { peak: None, min: None, max_cll: None, max_fall: None }
    };
    let buffer = buffer_param(&params)?;
    Ok(FormatSpec { token: spec.to_owned(), name, buffer, mastering })
}

// ---------------------------------------------------------------------------
// What a spec stands for
// ---------------------------------------------------------------------------

/// A number, or a default.
pub open spec fn or_bits(d: Option<Double>, bits: u64) -> Double {
    match d {
        Some(d) => d,
        None => Double { bits },
    }
}

fn or_double(d: Option<Double>, bits: u64) -> (res: Double)
    ensures
        res == or_bits(d, bits),
{
    match d {
        Some(d) => d,
        None => Double { bits },
    }
}

/// The mastering metadata of a PQ format: unset luminances are the defaults,
/// the content light level that of the peak, the frame average half of it.
pub open spec fn is_mastering_of(m: Mastering, f: MasteringFigures) -> bool {
    let peak = or_bits(f.peak, DEFAULT_PEAK);
    &&& m.luminance_nits == Some(Pair { a: or_bits(f.min, DEFAULT_MIN), b: peak })
    &&& m.primaries is None
    &&& m.max_cll_nits == Some(
        match f.max_cll {
            Some(d) => d,
            None => peak,
        },
    )
    &&& m.max_fall_nits matches Some(fall) && match f.max_fall {
        Some(d) => fall == d,
        None => fall.negative() == peak.negative() && fall.magnitude() == peak.half_magnitude(),
    }
}

/// The mastering metadata of a PQ format.
pub fn mk_mastering(f: &MasteringFigures) -> (res: Mastering)
    ensures
        is_mastering_of(res, *f),
{
    let peak = or_double(f.peak, DEFAULT_PEAK);
    let cll: Double = match f.max_cll {
        Some(d) => d,
        None => peak,
    };
    let fall: Double = match f.max_fall {
        Some(d) => d,
        None => peak.halved(),
    };
    Mastering {
        luminance_nits: Some(Pair { a: or_double(f.min, DEFAULT_MIN), b: peak }),
        primaries: None,
        max_cll_nits: Some(cll),
        max_fall_nits: Some(fall),
    }
}

/// A parametric request with these names and metadata, and perceptual intent.
pub open spec fn requests(
    d: Option<DescriptionRequest>,
    tf: Seq<char>,
    primaries: Seq<char>,
    figures: Option<MasteringFigures>,
) -> bool {
    &&& d matches Some(d) && d.render_intent@ == "perceptual"@
    &&& d->0.kind matches DescriptionKind::Parametric(p) && {
        &&& p.transfer_function matches TransferChoice::Named(t) && t@ == tf
        &&& p.primaries matches PrimariesChoice::Named(n) && n@ == primaries
        &&& p.luminances is None
        &&& match figures {
            None => p.mastering is None,
            Some(f) => p.mastering matches Some(m) && is_mastering_of(m, f),
        }
    }
}

/// The description that a format asks for.
pub open spec fn describes(
    name: FormatName,
    figures: MasteringFigures,
    d: Option<DescriptionRequest>,
) -> bool {
    match name {
        FormatName::Unmanaged => d is None,
        FormatName::Srgb => requests(d, "srgb"@, "srgb"@, None),
        FormatName::SrgbP3 => requests(d, "srgb"@, "display_p3"@, None),
        FormatName::PqBt2020 => requests(d, "st2084_pq"@, "bt2020"@, Some(figures)),
        FormatName::PqP3 => requests(d, "st2084_pq"@, "display_p3"@, Some(figures)),
        FormatName::Scrgb => d matches Some(d) && d.kind is WindowsScrgb && d.render_intent@
            == "perceptual"@,
    }
}

fn managed(tf: &str, primaries: &str, figures: Option<&MasteringFigures>) -> (res: Option<
    DescriptionRequest,
>)
    ensures
        requests(
            res,
            tf@,
            primaries@,
            match figures {
                Some(f) => Some(*f),
                None => None,
            },
        ),
{
    let mut p = ParametricDescription::named(tf, primaries);
    if let Some(f) = figures {
        p.mastering = Some(mk_mastering(f));
    }
    Some(DescriptionRequest::parametric(p))
}

/// A capture's record of what a spec with these mastering luminances asks for.
pub open spec fn spec_recorded(
    name: FormatName,
    figures: MasteringFigures,
    res: Option<capture::ColorDescription>,
) -> bool {
    match name {
        FormatName::Unmanaged => res is None,
        FormatName::Srgb => records(res, "srgb"@, "srgb"@, None, None),
        FormatName::SrgbP3 => records(res, "srgb"@, "display_p3"@, None, None),
        FormatName::PqBt2020 => records(
            res,
            "st2084_pq"@,
            "bt2020"@,
            None,
            Some(figures),
        ),
        FormatName::PqP3 => records(
            res,
            "st2084_pq"@,
            "display_p3"@,
            None,
            Some(figures),
        ),
        FormatName::Scrgb => records(
            res,
            "ext_linear"@,
            "srgb"@,
            Some(Double { bits: SCRGB_WHITE }),
            None,
        ),
    }
}

/// The label of a buffer policy.
pub open spec fn buffer_text(buffer: BufferPolicy) -> Seq<char> {
    match buffer {
        BufferPolicy::Exact(f) => f.name_text(),
        BufferPolicy::Auto => "auto"@,
    }
}

impl FormatSpec {
    /// The spec's own token.
    pub fn token(&self) -> (res: &str)
        ensures
            res@ == self.token@,
    {
        self.token.as_str()
    }

    /// The colour description that the spec asks for. `figures` are the
    /// mastering luminances of the spec as numbers.
    pub fn description(&self, figures: &MasteringFigures) -> (res: Option<DescriptionRequest>)
        ensures
            describes(self.name, *figures, res),
    {
        match self.name {
            FormatName::Unmanaged => None,
            FormatName::Srgb => managed("srgb", "srgb", None),
            FormatName::SrgbP3 => managed("srgb", "display_p3", None),
            FormatName::PqBt2020 => managed("st2084_pq", "bt2020", Some(figures)),
            FormatName::PqP3 => managed("st2084_pq", "display_p3", Some(figures)),
            FormatName::Scrgb => Some(DescriptionRequest::windows_scrgb()),
        }
    }

    /// The colour representation and the buffer policy that the spec names.
    pub fn mode(&self, figures: &MasteringFigures) -> (res: RenderMode)
        ensures
            describes(self.name, *figures, res.description),
            res.buffer == self.buffer,
    {
        RenderMode { description: self.description(figures), buffer: self.buffer }
    }

    /// Plans how to arrange the spec on a compositor.
    pub fn plan(&self, caps: &DisplayCapabilities, figures: &MasteringFigures) -> (res: Result<
        PipelinePlan,
        Unarrangeable,
    >)
        ensures
            exists|mode: RenderMode|
                {
                    &&& describes(self.name, *figures, mode.description)
                    &&& mode.buffer == self.buffer
                    &&& #[trigger] plans(res, arrangement(*caps, mode))
                },
    {
        let mode = self.mode(figures);
        let res = caps.plan(&mode);
        assert(plans(res, arrangement(*caps, mode)));
        res
    }

    /// The label of the buffer where no pipeline was arranged.
    pub fn buffer_label(&self) -> (res: &'static str)
        ensures
            res@ == buffer_text(self.buffer),
    {
        match self.buffer {
            BufferPolicy::Exact(f) => f.name(),
            BufferPolicy::Auto => "auto",
        }
    }

    /// The description as a capture records it.
    pub fn color_description(&self, figures: &MasteringFigures) -> (res: Option<
        capture::ColorDescription,
    >)
        ensures
            spec_recorded(self.name, *figures, res),
    {
        match self.description(figures) {
            None => None,
            Some(d) => Some(recorded(d, "")),
        }
    }
}

/// A capture's record of a mastering range; only one that is complete is
/// recorded.
pub open spec fn recorded_mastering(m: Option<Mastering>) -> Option<capture::Mastering> {
    match m {
        Some(
            Mastering { luminance_nits: Some(l), max_cll_nits: Some(c), max_fall_nits: Some(f), .. },
        ) => Some(
            capture::Mastering {
                min_luminance_nits: l.a,
                max_luminance_nits: l.b,
                max_cll_nits: c,
                max_fall_nits: f,
            },
        ),
        _ => None,
    }
}

/// A record with these names and the mastering metadata of a PQ format.
pub open spec fn records(
    r: Option<capture::ColorDescription>,
    tf: Seq<char>,
    primaries: Seq<char>,
    white: Option<Double>,
    figures: Option<MasteringFigures>,
) -> bool {
    r matches Some(r) && {
        &&& r.transfer_function@ == tf
        &&& r.primaries@ == primaries
        &&& r.render_intent@ == "perceptual"@
        &&& r.reference_white_nits == white
        &&& match figures {
            None => r.mastering is None,
            Some(f) => exists|m: Mastering| #[trigger]
                is_mastering_of(m, f) && r.mastering == recorded_mastering(Some(m)),
        }
    }
}

/// A capture's record of a request. `exponent` is how the exponent of a power
/// curve is printed.
pub fn recorded(d: DescriptionRequest, exponent: &str) -> (res: capture::ColorDescription)
    ensures
        res.render_intent@ == d.render_intent@,
        match d.kind {
            DescriptionKind::Parametric(p) => {
                &&& res.transfer_function@ == match p.transfer_function {
                    TransferChoice::Named(n) => n@,
                    TransferChoice::Power(_) => "power_"@ + exponent@,
                }
                &&& res.primaries@ == match p.primaries {
                    PrimariesChoice::Named(n) => n@,
                    PrimariesChoice::Custom(_) => "custom"@,
                }
                &&& res.reference_white_nits == match p.luminances {
                    Some(l) => Some(l.reference_nits),
                    None => None,
                }
                &&& res.mastering == recorded_mastering(p.mastering)
            },
            DescriptionKind::WindowsScrgb => {
                &&& res.transfer_function@ == "ext_linear"@
                &&& res.primaries@ == "srgb"@
                &&& res.reference_white_nits == Some(Double { bits: SCRGB_WHITE })
                &&& res.mastering is None
            },
        },
{
    match d.kind {
        DescriptionKind::Parametric(p) => {
            let mastering: Option<capture::Mastering> = match p.mastering {
                Some(m) => match (m.luminance_nits, m.max_cll_nits, m.max_fall_nits) {
                    (Some(l), Some(c), Some(f)) => Some(
                        capture::Mastering {
                            min_luminance_nits: l.a,
                            max_luminance_nits: l.b,
                            max_cll_nits: c,
                            max_fall_nits: f,
                        },
                    ),
                    _ => None,
                },
                None => None,
            };
            let reference_white_nits: Option<Double> = match p.luminances {
                Some(l) => Some(l.reference_nits),
                None => None,
            };
            capture::ColorDescription {
                transfer_function: p.transfer_function.label(exponent),
                render_intent: d.render_intent,
                primaries: p.primaries.label(),
                reference_white_nits,
                mastering,
            }
        },
        DescriptionKind::WindowsScrgb => capture::ColorDescription {
            transfer_function: "ext_linear".to_owned(),
            render_intent: d.render_intent,
            primaries: "srgb".to_owned(),
            reference_white_nits: Some(Double { bits: SCRGB_WHITE }),
            mastering: None,
        },
    }
}

// ---------------------------------------------------------------------------
// How a spec is read
// ---------------------------------------------------------------------------

proof fn lemma_pieces_assign(ps: Seq<Seq<char>>, i: int, key: Seq<char>, value: Seq<char>)
    requires
        0 <= i < ps.len(),
        forall|j: int| 0 <= j < ps.len() ==> (#[trigger] ps[j]).contains('='),
        ps[i] == key + seq!['='] + value,
        !key.contains('='),
        forall|j: int|
            i < j < ps.len() ==> !(key + seq!['=']).is_prefix_of(#[trigger] ps[j]),
    ensures
        pieces_assign(ps) matches Ok(m) && m.dom().contains(key) && m[key] == value,
    decreases ps.len(),
{
    let rest = ps.drop_last();
    let kv = ps.last();
    lemma_all_assign(rest);
    lemma_first_index(kv, '=');
    assert(kv.contains('='));
    let at = choose|at: int| 0 <= at < kv.len() && kv[at] == '=';
    let n = first_index(kv, '=');
    assert(n < kv.len());
    if i == ps.len() - 1 {
        assert forall|j: int| 0 <= j < key.len() implies kv[j] != '=' by {
            assert(key.contains(key[j]));
            assert(kv[j] == key[j]);
        }
        assert(kv[key.len() as int] == '=');
        lemma_first_index_is(kv, '=', key.len() as int);
        assert(kv.take(n) == key);
        assert(kv.skip(n + 1) == value);
    } else {
        assert(ps[ps.len() - 1] == kv);
        lemma_pieces_assign(rest, i, key, value);
        if kv.take(n) == key {
            assert((key + seq!['=']).is_prefix_of(kv)) by {
                assert(kv.subrange(0, n + 1) == key + seq!['=']);
            }
        }
    }
}

proof fn lemma_all_assign(ps: Seq<Seq<char>>)
    requires
        forall|j: int| 0 <= j < ps.len() ==> (#[trigger] ps[j]).contains('='),
    ensures
        pieces_assign(ps) is Ok,
    decreases ps.len(),
{
    if ps.len() > 0 {
        let kv = ps.last();
        assert(ps[ps.len() - 1] == kv);
        lemma_all_assign(ps.drop_last());
        lemma_first_index(kv, '=');
        let at = choose|at: int| 0 <= at < kv.len() && kv[at] == '=';
    }
}

/// Parameters that are written as keys and values with commas between them are read
/// back: the value of a key is everything behind its first equals sign, and of two
/// values of one key the later one counts.
pub proof fn written_parameters_are_read(
    fields: Seq<Seq<char>>,
    i: int,
    key: &str,
    value: Seq<char>,
    s: &str,
    res: Result<Vec<Param>, String>,
    found: Option<&String>,
)
    requires
        forall|j: int| 0 <= j < fields.len() ==> !(#[trigger] fields[j]).contains(','),
        forall|j: int| 0 <= j < fields.len() ==> (#[trigger] fields[j]).contains('='),
        s@ == joined_by(fields, ','),
        0 <= i < fields.len(),
        fields[i] == key@ + seq!['='] + value,
        !key@.contains('='),
        forall|j: int|
            i < j < fields.len() ==> !(key@ + seq!['=']).is_prefix_of(#[trigger] fields[j]),
        call_ensures(parse_params, (s,), res),
        res matches Ok(v) ==> call_ensures(param, (&v, key), found),
    ensures
        res is Ok,
        found is Some && found->0@ == value,
{
    split_undoes_join(fields, ',');
    if s@.len() == 0 {
        assert(fields[0].contains('='));
        assert(pieces(s@, ',') == seq![s@]);
        assert(fields == seq![s@]);
        assert(false);
    }
    lemma_pieces_assign(fields, i, key@, value);
}

/// A piece without an equals sign is refused.
pub proof fn pieces_need_an_equals_sign(s: &str, i: int, res: Result<Vec<Param>, String>)
    requires
        call_ensures(parse_params, (s,), res),
        s@.len() > 0,
        0 <= i < pieces(s@, ',').len(),
        !pieces(s@, ',')[i].contains('='),
    ensures
        res is Err,
{
    lemma_piece_is_refused(pieces(s@, ','), i);
}

proof fn lemma_piece_is_refused(ps: Seq<Seq<char>>, i: int)
    requires
        0 <= i < ps.len(),
        !ps[i].contains('='),
    ensures
        pieces_assign(ps) is Err,
    decreases ps.len(),
{
    let kv = ps.last();
    if i == ps.len() - 1 {
        lemma_first_index(kv, '=');
        if first_index(kv, '=') < kv.len() {
            assert(kv.contains(kv[first_index(kv, '=')]));
        }
    } else {
        lemma_piece_is_refused(ps.drop_last(), i);
    }
}

/// A key has its value in a spec's parameters.
pub open spec fn spec_gives(spec: Seq<char>, key: Seq<char>, value: Option<Seq<char>>) -> bool {
    text_assigns(spec_arg(spec)) matches Ok(m) && match value {
        Some(v) => m.dom().contains(key) && m[key] == v,
        None => !m.dom().contains(key),
    }
}

/// A spec that is taken says what is written: the name in front of the colon, each
/// luminance under its own key and only in a PQ format, and the buffer by its name.
pub proof fn specs_say_what_is_written(spec: &str, f: FormatSpec)
    requires
        call_ensures(parse_format, (spec,), Ok::<FormatSpec, String>(f)),
    ensures
        f.token@ == spec@,
        f.name.text() == spec_name(spec@),
        f.name == FormatName::PqBt2020 || f.name == FormatName::PqP3 ==> {
            &&& spec_gives(spec@, "peak"@, opt_view(f.mastering.peak))
            &&& spec_gives(spec@, "min"@, opt_view(f.mastering.min))
            &&& spec_gives(spec@, "maxcll"@, opt_view(f.mastering.max_cll))
            &&& spec_gives(spec@, "maxfall"@, opt_view(f.mastering.max_fall))
            &&& f.mastering.peak matches Some(t) ==> is_float_text(t@)
            &&& f.mastering.min matches Some(t) ==> is_float_text(t@)
            &&& f.mastering.max_cll matches Some(t) ==> is_float_text(t@)
            &&& f.mastering.max_fall matches Some(t) ==> is_float_text(t@)
        },
        f.name != FormatName::PqBt2020 && f.name != FormatName::PqP3 ==> {
            &&& f.mastering.peak is None
            &&& f.mastering.min is None
            &&& f.mastering.max_cll is None
            &&& f.mastering.max_fall is None
        },
        match f.buffer {
            BufferPolicy::Exact(b) => spec_gives(spec@, "buf"@, Some(b.name_text())),
            BufferPolicy::Auto => spec_gives(spec@, "buf"@, None),
        },
{
    let m = text_assigns(spec_arg(spec@))->Ok_0;
    let name = choose|n: FormatName| #[trigger] n.text() == spec_name(spec@);
    assert(f@.name == name);
    assert(number_problem(m, "peak"@) is None || !name.is_pq());
    assert(name.text() == spec_name(spec@));
}

/// Each format asks for its own encoding: PQ and sRGB by their names, the primaries
/// by theirs, mastering metadata in the PQ formats alone. A capture records the same
/// names.
pub proof fn formats_ask_for_their_own_encoding(
    f: FormatSpec,
    figures: MasteringFigures,
    d: Option<DescriptionRequest>,
    r: Option<capture::ColorDescription>,
)
    requires
        call_ensures(FormatSpec::description, (&f, &figures), d),
        call_ensures(FormatSpec::color_description, (&f, &figures), r),
    ensures
        d is None <==> f.name == FormatName::Unmanaged,
        r is None <==> d is None,
        d is Some ==> d->0.render_intent@ == "perceptual"@ && r->0.render_intent@ == "perceptual"@,
        d is Some ==> (d->0.kind is WindowsScrgb <==> f.name == FormatName::Scrgb),
        d is Some && d->0.kind is Parametric ==> {
            let p = d->0.kind->0;
            &&& p.transfer_function is Named && p.primaries is Named && p.luminances is None
            &&& r->0.transfer_function@ == p.transfer_function->Named_0@
            &&& r->0.primaries@ == p.primaries->Named_0@
            &&& r->0.reference_white_nits is None
            &&& f.name == FormatName::PqBt2020 || f.name == FormatName::PqP3
                ==> p.transfer_function->Named_0@ == "st2084_pq"@
            &&& f.name == FormatName::Srgb || f.name == FormatName::SrgbP3
                ==> p.transfer_function->Named_0@ == "srgb"@
            &&& f.name == FormatName::SrgbP3 || f.name == FormatName::PqP3
                ==> p.primaries->Named_0@ == "display_p3"@
            &&& f.name == FormatName::PqBt2020 ==> p.primaries->Named_0@ == "bt2020"@
            &&& f.name == FormatName::Srgb ==> p.primaries->Named_0@ == "srgb"@
            &&& p.mastering is Some <==> f.name == FormatName::PqBt2020 || f.name
                == FormatName::PqP3
            &&& r->0.mastering is Some <==> p.mastering is Some
        },
        f.name == FormatName::Scrgb ==> {
            &&& r->0.transfer_function@ == "ext_linear"@
            &&& r->0.primaries@ == "srgb"@
            &&& r->0.reference_white_nits == Some(Double { bits: 0x4054_0000_0000_0000 })
            &&& r->0.mastering is None
        },
{
}

/// Luminances that are given are passed on, each in its own place; those that are not
/// follow the peak, and the peak and the least one have a default.
pub proof fn luminances_keep_their_places(f: MasteringFigures, m: Mastering)
    requires
        call_ensures(mk_mastering, (&f,), m),
    ensures
        m.luminance_nits is Some && m.max_cll_nits is Some && m.max_fall_nits is Some,
        m.primaries is None,
        f.peak matches Some(p) ==> m.luminance_nits->0.b == p,
        f.peak is None ==> m.luminance_nits->0.b == (Double { bits: 0x4079_0000_0000_0000 }),
        f.min matches Some(p) ==> m.luminance_nits->0.a == p,
        f.min is None ==> m.luminance_nits->0.a == (Double { bits: 0x3f40_624d_d2f1_a9fc }),
        f.max_cll matches Some(c) ==> m.max_cll_nits->0 == c,
        f.max_cll is None ==> m.max_cll_nits->0 == m.luminance_nits->0.b,
        f.max_fall matches Some(c) ==> m.max_fall_nits->0 == c,
        f.max_fall is None && 0x20_0000_0000_0000 <= m.luminance_nits->0.b.bits
            < 0x7ff0_0000_0000_0000 ==> m.max_fall_nits->0.bits + 0x10_0000_0000_0000
            == m.luminance_nits->0.b.bits,
{
}

/// A capture records a mastering range as it was asked for, each figure in its place.
pub proof fn recorded_figures_keep_their_places(
    f: FormatSpec,
    figures: MasteringFigures,
    r: capture::ColorDescription,
)
    requires
        call_ensures(
            FormatSpec::color_description,
            (&f, &figures),
            Some::<capture::ColorDescription>(r),
        ),
        f.name == FormatName::PqBt2020 || f.name == FormatName::PqP3,
    ensures
        r.mastering is Some,
        figures.peak matches Some(p) ==> r.mastering->0.max_luminance_nits == p,
        figures.min matches Some(p) ==> r.mastering->0.min_luminance_nits == p,
        figures.max_cll matches Some(p) ==> r.mastering->0.max_cll_nits == p,
        figures.max_cll is None ==> r.mastering->0.max_cll_nits
            == r.mastering->0.max_luminance_nits,
        figures.max_fall matches Some(p) ==> r.mastering->0.max_fall_nits == p,
{
    let m = choose|m: Mastering| #[trigger]
        is_mastering_of(m, figures) && r.mastering == recorded_mastering(Some(m));
}

/// A pinned buffer is labelled with its name, and one that is still to be chosen as
/// such; the mode of a spec has the spec's buffer.
pub proof fn buffers_are_passed_on(
    f: FormatSpec,
    figures: MasteringFigures,
    label: &'static str,
    mode: RenderMode,
)
    requires
        call_ensures(FormatSpec::buffer_label, (&f,), label),
        call_ensures(FormatSpec::mode, (&f, &figures), mode),
    ensures
        mode.buffer == f.buffer,
        f.buffer matches BufferPolicy::Exact(b) ==> label@ == b.name_text(),
        f.buffer == BufferPolicy::Auto ==> label@ == "auto"@,
        mode.description is None <==> f.name == FormatName::Unmanaged,
{
}

} // verus!
