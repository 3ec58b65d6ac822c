//! Pipeline planning: which colour representations can a compositor arrange,
//! and through which buffer?
//!
//! A [`RenderMode`] is a colour description, or none, and a [`BufferPolicy`].
//! Under [`BufferPolicy::Auto`] the buffer is chosen for the representation:
//! floats for extended-range encodings, the deepest available for HDR ones,
//! the canonical 8-bit one for SDR.
use vstd::prelude::*;

use crate::display::capabilities::{preferred, DisplayCapabilities};
use crate::display::color_mgmt::{
    refusal, validate_description, AttachError, DescriptionKind, DescriptionRequest, Refusal,
    TransferChoice,
};
use crate::display::format::{table_is_ordered_by_depth, BufferFormat};
use crate::text::{between, decimal, decimal_text, joined, same_text, views};

verus! {

/// A colour representation to sweep.
#[derive(Debug)]
pub struct RenderMode {
    /// The colour description to negotiate; none for an unmanaged mode.
    pub description: Option<DescriptionRequest>,
    pub buffer: BufferPolicy,
}

/// How to choose the buffer format of a mode.
#[derive(Clone, Copy, Debug, PartialEq, Eq, Structural)]
pub enum BufferPolicy {
    /// The best advertised format that is adequate for the representation.
    Auto,
    /// This very format.
    Exact(BufferFormat),
}

/// A concrete way to arrange a mode.
#[derive(Debug)]
pub struct PipelinePlan {
    /// The buffer format that the pipeline will use.
    pub buffer: BufferFormat,
    /// What the choice was limited by; empty where the first preference was
    /// available.
    pub notes: Vec<String>,
}

/// Why a mode cannot be arranged.
#[derive(Debug)]
pub enum Unarrangeable {
    /// The mode wants a description and there is no colour management.
    NoColorManagement,
    /// The description is refused.
    Description(AttachError),
    /// The pinned format is not advertised.
    BufferNotAdvertised(BufferFormat),
    /// No advertised format is adequate; `needs` says what would be.
    NoAdequateBuffer { needs: &'static str },
}

/// An [`Unarrangeable`] by the contents of its texts.
pub ghost enum Obstacle {
    NoColorManagement,
    Description(Refusal),
    BufferNotAdvertised(BufferFormat),
    NoAdequateBuffer { needs: Seq<char> },
}

impl View for Unarrangeable {
    type V = Obstacle;

    open spec fn view(&self) -> Obstacle {
        match *self {
            Unarrangeable::NoColorManagement => Obstacle::NoColorManagement,
            Unarrangeable::Description(e) => Obstacle::Description(e@),
            Unarrangeable::BufferNotAdvertised(f) => Obstacle::BufferNotAdvertised(f),
            Unarrangeable::NoAdequateBuffer { needs } => Obstacle::NoAdequateBuffer {
                needs: needs@,
            },
        }
    }
}

impl Obstacle {
    pub open spec fn reason_text(self) -> Seq<char> {
        match self {
            Obstacle::NoColorManagement => "no color management"@,
            Obstacle::Description(r) => r.reason_text(),
            Obstacle::BufferNotAdvertised(f) => "no "@ + f.name_text() + " buffer"@,
            Obstacle::NoAdequateBuffer { needs } => "no "@ + needs + " buffer"@,
        }
    }

    pub open spec fn message_text(self, exponent: Seq<char>) -> Seq<char> {
        match self {
            Obstacle::NoColorManagement => "compositor doesn't advertise wp_color_manager_v1"@,
            Obstacle::Description(r) => r.message_text(exponent),
            Obstacle::BufferNotAdvertised(f) => "compositor doesn't advertise the "@ + f.name_text()
                + " buffer format"@,
            Obstacle::NoAdequateBuffer { needs } => "no advertised buffer format is "@
                + needs,
        }
    }
}

impl Unarrangeable {
    /// A short reason, fit to stand next to a disabled mode toggle.
    pub fn reason(&self) -> (res: String)
        ensures
            res@ == self@.reason_text(),
    {
        match self {
            Unarrangeable::NoColorManagement => "no color management".to_owned(),
            Unarrangeable::Description(e) => e.reason(),
            Unarrangeable::BufferNotAdvertised(f) => between("no ", f.name(), " buffer"),
            Unarrangeable::NoAdequateBuffer { needs } => between("no ", needs, " buffer"),
        }
    }

    /// The full message. `exponent` is how a refused exponent is printed.
    pub fn message(&self, exponent: &str) -> (res: String)
        ensures
            res@ == self@.message_text(exponent@),
    {
        match self {
            Unarrangeable::NoColorManagement =>
                "compositor doesn't advertise wp_color_manager_v1".to_owned(),
            Unarrangeable::Description(e) => e.message(exponent),
            Unarrangeable::BufferNotAdvertised(f) => between(
                "compositor doesn't advertise the ",
                f.name(),
                " buffer format",
            ),
            Unarrangeable::NoAdequateBuffer { needs } => joined(
                "no advertised buffer format is ",
                needs,
            ),
        }
    }
}

impl RenderMode {
    /// An unmanaged mode with an automatic buffer.
    pub fn unmanaged() -> (res: Self)
        ensures
            res.description is None,
            res.buffer == BufferPolicy::Auto,
    {
        RenderMode { description: None, buffer: BufferPolicy::Auto }
    }

    /// A described mode with an automatic buffer.
    pub fn described(description: DescriptionRequest) -> (res: Self)
        ensures
            res.description == Some(description),
            res.buffer == BufferPolicy::Auto,
    {
        RenderMode { description: Some(description), buffer: BufferPolicy::Auto }
    }
}

/// What a representation demands of its buffer.
#[derive(Clone, Copy, Debug, PartialEq, Eq, Structural)]
pub enum BufferNeeds {
    /// Code values outside 0 to 1 are part of the representation: only floats
    /// qualify.
    Float,
    /// High dynamic range within 0 to 1: floats preferred, deep integers
    /// acceptable.
    Deep,
    /// The canonical 8-bit format.
    Sdr,
}

/// What a transfer function demands.
pub open spec fn transfer_needs(name: Seq<char>) -> BufferNeeds {
    if name == "ext_linear"@ || name == "ext_srgb"@ {
        BufferNeeds::Float
    } else if name == "st2084_pq"@ || name == "hlg"@ {
        BufferNeeds::Deep
    } else {
        BufferNeeds::Sdr
    }
}

/// What a description demands.
pub open spec fn needs_of(description: Option<DescriptionRequest>) -> BufferNeeds {
    match description {
        None => BufferNeeds::Sdr,
        Some(d) => match d.kind {
            DescriptionKind::WindowsScrgb => BufferNeeds::Float,
            DescriptionKind::Parametric(p) => match p.transfer_function {
                TransferChoice::Named(n) => transfer_needs(n@),
                TransferChoice::Power(_) => BufferNeeds::Sdr,
            },
        },
    }
}

fn buffer_needs(description: &Option<DescriptionRequest>) -> (res: BufferNeeds)
    ensures
        res == needs_of(*description),
{
    match description {
        None => BufferNeeds::Sdr,
        Some(d) => match &d.kind {
            DescriptionKind::WindowsScrgb => BufferNeeds::Float,
            DescriptionKind::Parametric(p) => match &p.transfer_function {
                TransferChoice::Named(n) => {
                    if same_text(n.as_str(), "ext_linear") || same_text(n.as_str(), "ext_srgb") {
                        BufferNeeds::Float
                    } else if same_text(n.as_str(), "st2084_pq") || same_text(n.as_str(), "hlg") {
                        BufferNeeds::Deep
                    } else {
                        BufferNeeds::Sdr
                    }
                },
                TransferChoice::Power(_) => BufferNeeds::Sdr,
            },
        },
    }
}

/// The float formats, those without alpha in front of their pair.
pub open spec fn float_prefs() -> Seq<BufferFormat> {
    seq![
        BufferFormat::Xbgr16161616f,
        BufferFormat::Abgr16161616f,
        BufferFormat::Xrgb16161616f,
        BufferFormat::Argb16161616f,
    ]
}

/// The integer formats of at least 10 bits, deepest first.
pub open spec fn deep_unorm_prefs() -> Seq<BufferFormat> {
    seq![
        BufferFormat::Xbgr16161616,
        BufferFormat::Abgr16161616,
        BufferFormat::Xrgb16161616,
        BufferFormat::Argb16161616,
        BufferFormat::Rgb161616,
        BufferFormat::Bgr161616,
        BufferFormat::Xrgb2101010,
        BufferFormat::Xbgr2101010,
        BufferFormat::Argb2101010,
        BufferFormat::Abgr2101010,
        BufferFormat::Rgbx1010102,
        BufferFormat::Bgrx1010102,
        BufferFormat::Rgba1010102,
        BufferFormat::Bgra1010102,
    ]
}

/// What is noted when a deep integer format stands in for floats: its name and
/// the width of its narrowest colour channel.
pub open spec fn stand_in_note(f: BufferFormat) -> Seq<char> {
    "fp16 unavailable; using "@ + f.name_text() + " ("@ + decimal_text(f.depth() as nat)
        + "-bit unorm)"@
}

/// Whether a format can carry what a representation demands.
pub open spec fn is_adequate(needs: BufferNeeds, f: BufferFormat) -> bool {
    match needs {
        BufferNeeds::Float => f.float(),
        BufferNeeds::Deep => f.float() || f.depth() >= 10,
        BufferNeeds::Sdr => f == BufferFormat::Xrgb8888,
    }
}

/// A way to arrange a mode: the buffer and the notes.
pub ghost struct Arrangement {
    pub buffer: BufferFormat,
    pub notes: Seq<Seq<char>>,
}

/// A buffer without notes, or an obstacle if there is none.
pub open spec fn plainly(buffer: Option<BufferFormat>, needs: Seq<char>) -> Result<
    Arrangement,
    Obstacle,
> {
    match buffer {
        Some(buffer) => Ok(Arrangement { buffer, notes: seq![] }),
        None => Err(Obstacle::NoAdequateBuffer { needs }),
    }
}

/// The buffer of an automatic choice.
pub open spec fn auto_buffer(caps: DisplayCapabilities, needs: BufferNeeds) -> Result<
    Arrangement,
    Obstacle,
> {
    match needs {
        BufferNeeds::Sdr => plainly(Some(BufferFormat::Xrgb8888), seq![]),
        BufferNeeds::Float => plainly(preferred(caps, float_prefs()), "floating-point"@),
        BufferNeeds::Deep => if preferred(caps, float_prefs()) is Some {
            plainly(preferred(caps, float_prefs()), seq![])
        } else {
            match preferred(caps, deep_unorm_prefs()) {
                Some(buffer) => Ok(Arrangement { buffer, notes: seq![stand_in_note(buffer)] }),
                None => Err(
                    Obstacle::NoAdequateBuffer { needs: "floating-point or \u{2265}10-bit"@ },
                ),
            }
        },
    }
}

/// How a mode is arranged: the description is settled before the buffer.
pub open spec fn arrangement(caps: DisplayCapabilities, mode: RenderMode) -> Result<
    Arrangement,
    Obstacle,
> {
    if mode.description is Some && !caps.manages_color() {
        Err(Obstacle::NoColorManagement)
    } else if mode.description matches Some(d) && refusal(d, caps.color) is Some {
        Err(Obstacle::Description(refusal(mode.description->0, caps.color)->0))
    } else {
        match mode.buffer {
            BufferPolicy::Exact(f) => if caps.supports(f) {
                Ok(Arrangement { buffer: f, notes: seq![] })
            } else {
                Err(Obstacle::BufferNotAdvertised(f))
            },
            BufferPolicy::Auto => auto_buffer(caps, needs_of(mode.description)),
        }
    }
}

pub open spec fn plans(res: Result<PipelinePlan, Unarrangeable>, want: Result<Arrangement, Obstacle>) -> bool {
    match (res, want) {
        (Ok(p), Ok(a)) => p.buffer == a.buffer && views(p.notes@) == a.notes,
        (Err(e), Err(o)) => e@ == o,
        _ => false,
    }
}

fn no_notes(buffer: BufferFormat) -> (res: PipelinePlan)
    ensures
        res.buffer == buffer,
        views(res.notes@) == Seq::<Seq<char>>::empty(),
{
    let notes: Vec<String> = Vec::new();
    assert(views(notes@) == Seq::<Seq<char>>::empty());
    PipelinePlan { buffer, notes }
}

fn pick_float(caps: &DisplayCapabilities) -> (res: Option<BufferFormat>)
    ensures
        res == preferred(*caps, float_prefs()),
{
    let prefs: [BufferFormat; 4] = [
        BufferFormat::Xbgr16161616f,
        BufferFormat::Abgr16161616f,
        BufferFormat::Xrgb16161616f,
        BufferFormat::Argb16161616f,
    ];
    assert(prefs@ == float_prefs());
    caps.first_supported(prefs.as_slice())
}

fn pick_deep(caps: &DisplayCapabilities) -> (res: Option<BufferFormat>)
    ensures
        res == preferred(*caps, deep_unorm_prefs()),
{
    let prefs: [BufferFormat; 14] = [
        BufferFormat::Xbgr16161616,
        BufferFormat::Abgr16161616,
        BufferFormat::Xrgb16161616,
        BufferFormat::Argb16161616,
        BufferFormat::Rgb161616,
        BufferFormat::Bgr161616,
        BufferFormat::Xrgb2101010,
        BufferFormat::Xbgr2101010,
        BufferFormat::Argb2101010,
        BufferFormat::Abgr2101010,
        BufferFormat::Rgbx1010102,
        BufferFormat::Bgrx1010102,
        BufferFormat::Rgba1010102,
        BufferFormat::Bgra1010102,
    ];
    assert(prefs@ == deep_unorm_prefs());
    caps.first_supported(prefs.as_slice())
}

proof fn lemma_preferred(caps: DisplayCapabilities, prefs: Seq<BufferFormat>) -> (at: int)
    ensures
        match preferred(caps, prefs) {
            Some(f) => 0 <= at < prefs.len() && prefs[at] == f && caps.supports(f),
            None => at == prefs.len(),
        },
        forall|i: int| 0 <= i < at ==> !caps.supports(#[trigger] prefs[i]),
    decreases prefs.len(),
{
    if prefs.len() == 0 || caps.supports(prefs.first()) {
        0
    } else {
        let rest = prefs.skip(1);
        let at = lemma_preferred(caps, rest);
        assert forall|i: int| 0 <= i < at + 1 implies !caps.supports(#[trigger] prefs[i]) by {
            if i > 0 {
                assert(prefs[i] == rest[i - 1]);
            }
        }
        at + 1
    }
}

/// Where a format stands among the float preferences, or past them among the
/// deep ones.
proof fn lemma_preference_of(f: BufferFormat) -> (at: int)
    requires
        f.float() || f.depth() >= 10,
    ensures
        f.float() ==> 0 <= at < 4 && float_prefs()[at] == f,
        !f.float() ==> 0 <= at < 14 && deep_unorm_prefs()[at] == f,
        !f.float() ==> (at < 6 <==> f.depth() == 16),
{
    table_is_ordered_by_depth(f);
    match f {
        BufferFormat::Xbgr16161616f => 0,
        BufferFormat::Abgr16161616f => 1,
        BufferFormat::Xrgb16161616f => 2,
        BufferFormat::Argb16161616f => 3,
        BufferFormat::Xbgr16161616 => 0,
        BufferFormat::Abgr16161616 => 1,
        BufferFormat::Xrgb16161616 => 2,
        BufferFormat::Argb16161616 => 3,
        BufferFormat::Rgb161616 => 4,
        BufferFormat::Bgr161616 => 5,
        BufferFormat::Xrgb2101010 => 6,
        BufferFormat::Xbgr2101010 => 7,
        BufferFormat::Argb2101010 => 8,
        BufferFormat::Abgr2101010 => 9,
        BufferFormat::Rgbx1010102 => 10,
        BufferFormat::Bgrx1010102 => 11,
        BufferFormat::Rgba1010102 => 12,
        _ => 13,
    }
}

proof fn lemma_preferences()
    ensures
        forall|i: int| 0 <= i < 4 ==> (#[trigger] float_prefs()[i]).float(),
        forall|i: int|
            0 <= i < 14 ==> {
                &&& !(#[trigger] deep_unorm_prefs()[i]).float()
                &&& deep_unorm_prefs()[i].depth() == if i < 6 {
                    16u8
                } else {
                    10u8
                }
            },
{
    assert forall|i: int| 0 <= i < 14 implies {
        &&& !(#[trigger] deep_unorm_prefs()[i]).float()
        &&& deep_unorm_prefs()[i].depth() == if i < 6 {
            16u8
        } else {
            10u8
        }
    } by {
        table_is_ordered_by_depth(deep_unorm_prefs()[i]);
    }
}

fn stand_in(buffer: BufferFormat) -> (res: PipelinePlan)
    ensures
        res.buffer == buffer,
        views(res.notes@) == seq![stand_in_note(buffer)],
{
    let mut note: String = between("fp16 unavailable; using ", buffer.name(), " (");
    let depth: u8 = buffer.color_depth();
    note.append(decimal(depth as u64).as_str());
    note.append("-bit unorm)");
    let mut notes: Vec<String> = Vec::new();
    notes.push(note);
    assert(views(notes@) == seq![stand_in_note(buffer)]);
    PipelinePlan { buffer, notes }
}

impl DisplayCapabilities {
    /// Plans how to arrange a mode on this compositor.
    pub fn plan(&self, mode: &RenderMode) -> (res: Result<PipelinePlan, Unarrangeable>)
        ensures
            plans(res, arrangement(*self, *mode)),
    {
        if let Some(d) = &mode.description {
            if !self.has_color_management() {
                return Err(Unarrangeable::NoColorManagement);
            }
            if let Err(e) = validate_description(d, &self.color) {
                return Err(Unarrangeable::Description(e));
            }
        }
        match mode.buffer {
            BufferPolicy::Exact(f) => {
                if self.supports_buffer_format(f) {
                    Ok(no_notes(f))
                } else {
                    Err(Unarrangeable::BufferNotAdvertised(f))
                }
            },
            BufferPolicy::Auto => match buffer_needs(&mode.description) {
                BufferNeeds::Sdr => Ok(no_notes(BufferFormat::Xrgb8888)),
                BufferNeeds::Float => match pick_float(self) {
                    Some(buffer) => Ok(no_notes(buffer)),
                    None => Err(Unarrangeable::NoAdequateBuffer { needs: "floating-point" }),
                },
                BufferNeeds::Deep => match pick_float(self) {
                    Some(buffer) => Ok(no_notes(buffer)),
                    None => match pick_deep(self) {
                        Some(buffer) => Ok(stand_in(buffer)),
                        None => Err(
                            Unarrangeable::NoAdequateBuffer {
                                needs: "floating-point or \u{2265}10-bit",
                            },
                        ),
                    },
                },
            },
        }
    }
}

/// A planned buffer is always one that the compositor supports.
pub proof fn planned_buffer_is_supported(caps: DisplayCapabilities, mode: RenderMode)
    ensures
        arrangement(caps, mode) matches Ok(a) ==> caps.supports(a.buffer),
{
    lemma_preferred(caps, float_prefs());
    lemma_preferred(caps, deep_unorm_prefs());
}

/// Where a buffer is to be chosen and nothing is wrong with the description, one
/// is found exactly if some supported format is adequate: a float format for an
/// extended-range encoding, a float format or one of at least 10 bits for an HDR
/// one. What is found is adequate.
pub proof fn adequate_buffers_are_found(caps: DisplayCapabilities, mode: RenderMode)
    requires
        mode.buffer == BufferPolicy::Auto,
        mode.description matches Some(d) ==> caps.manages_color() && refusal(d, caps.color) is None,
    ensures
        match arrangement(caps, mode) {
            Ok(a) => caps.supports(a.buffer) && is_adequate(needs_of(mode.description), a.buffer),
            Err(o) => {
                &&& o is NoAdequateBuffer
                &&& forall|f: BufferFormat| #[trigger]
                    caps.supports(f) ==> !is_adequate(needs_of(mode.description), f)
            },
        },
{
    let at = lemma_preferred(caps, float_prefs());
    let deep_at = lemma_preferred(caps, deep_unorm_prefs());
    lemma_preferences();
    let needs = needs_of(mode.description);
    if arrangement(caps, mode) is Err {
        assert forall|f: BufferFormat| #[trigger] caps.supports(f) implies !is_adequate(needs, f) by {
            if is_adequate(needs, f) {
                let i = lemma_preference_of(f);
            }
        }
    }
}

/// An HDR representation gets the deepest buffer that there is: no supported
/// format has a wider narrowest channel.
pub proof fn deepest_buffer_is_chosen(caps: DisplayCapabilities, mode: RenderMode, f: BufferFormat)
    requires
        mode.buffer == BufferPolicy::Auto,
        needs_of(mode.description) == BufferNeeds::Deep,
        caps.supports(f),
    ensures
        arrangement(caps, mode) matches Ok(a) ==> f.depth() <= a.buffer.depth(),
{
    let at = lemma_preferred(caps, float_prefs());
    let deep_at = lemma_preferred(caps, deep_unorm_prefs());
    lemma_preferences();
    table_is_ordered_by_depth(f);
    if let Ok(a) = arrangement(caps, mode) {
        table_is_ordered_by_depth(a.buffer);
        if f.depth() == 16 {
            let i = lemma_preference_of(f);
        }
    }
}

/// Extended-range encodings are only ever put in float buffers, unless a buffer
/// is pinned.
pub proof fn extended_range_gets_floats(caps: DisplayCapabilities, mode: RenderMode)
    requires
        mode.buffer == BufferPolicy::Auto,
        needs_of(mode.description) == BufferNeeds::Float,
    ensures
        arrangement(caps, mode) matches Ok(a) ==> a.buffer.float() && a.notes.len() == 0,
{
    lemma_preferred(caps, float_prefs());
}

/// SDR representations are planned onto the canonical 8-bit format, whatever
/// the compositor advertises of formats.
pub proof fn sdr_gets_eight_bits(caps: DisplayCapabilities, mode: RenderMode)
    requires
        mode.buffer == BufferPolicy::Auto,
        needs_of(mode.description) == BufferNeeds::Sdr,
    ensures
        match arrangement(caps, mode) {
            Ok(a) => a.buffer == BufferFormat::Xrgb8888 && a.notes.len() == 0,
            Err(o) => o is NoColorManagement || o is Description,
        },
        mode.description is None ==> arrangement(caps, mode) is Ok,
{
}

/// Problems with the description come before problems with the buffer: where
/// the description is refused, the buffer policy makes no difference.
pub proof fn description_comes_before_buffer(
    caps: DisplayCapabilities,
    mode: RenderMode,
    other: RenderMode,
)
    requires
        mode.description == other.description,
        arrangement(caps, mode) matches Err(o) && (o is NoColorManagement || o is Description),
    ensures
        arrangement(caps, other) == arrangement(caps, mode),
{
}

/// A float format is preferred to every stand-in, and a stand-in is noted.
pub proof fn stand_ins_are_noted(caps: DisplayCapabilities, mode: RenderMode)
    requires
        mode.buffer == BufferPolicy::Auto,
        needs_of(mode.description) == BufferNeeds::Deep,
    ensures
        arrangement(caps, mode) matches Ok(a) ==> {
            &&& a.notes.len() == 0 <==> a.buffer.float()
            &&& !a.buffer.float() ==> forall|f: BufferFormat| f.float() ==> !caps.supports(f)
        },
{
    let at = lemma_preferred(caps, float_prefs());
    lemma_preferred(caps, deep_unorm_prefs());
    lemma_preferences();
    assert forall|f: BufferFormat| f.float() && at == 4 implies !caps.supports(f) by {
        let i = lemma_preference_of(f);
    }
}

// ---------------------------------------------------------------------------
// What becomes of a mode
// ---------------------------------------------------------------------------

/// A mode asks for the named transfer function.
pub open spec fn asks_for_transfer(mode: RenderMode, name: Seq<char>) -> bool {
    &&& mode.description is Some
    &&& mode.description->0.kind is Parametric
    &&& mode.description->0.kind->0.transfer_function is Named
    &&& mode.description->0.kind->0.transfer_function->Named_0@ == name
}

/// Code values outside zero to one are put in float buffers alone: those of the two
/// extended encodings and of Windows-scRGB. A plan is made exactly if there is colour
/// management, nothing is wrong with the description and there is a float format.
pub proof fn extended_encodings_are_planned_onto_floats(
    caps: DisplayCapabilities,
    mode: RenderMode,
    res: Result<PipelinePlan, Unarrangeable>,
)
    requires
        call_ensures(DisplayCapabilities::plan, (&caps, &mode), res),
        mode.buffer == BufferPolicy::Auto,
        asks_for_transfer(mode, "ext_linear"@) || asks_for_transfer(mode, "ext_srgb"@) || (
        mode.description is Some && mode.description->0.kind is WindowsScrgb),
    ensures
        res matches Ok(p) ==> p.buffer.float() && caps.supports(p.buffer) && p.notes@.len() == 0,
        res is Ok <==> {
            &&& caps.color.done
            &&& refusal(mode.description->0, caps.color) is None
            &&& exists|f: BufferFormat| f.float() && #[trigger] caps.supports(f)
        },
        res matches Err(e) ==> match e {
            Unarrangeable::NoColorManagement => !caps.color.done,
            Unarrangeable::Description(why) => refusal(mode.description->0, caps.color) == Some(
                why@,
            ),
            Unarrangeable::NoAdequateBuffer { needs } => needs@ == "floating-point"@,
            Unarrangeable::BufferNotAdvertised(_) => false,
        },
{
    reveal_strlit("ext_linear");
    reveal_strlit("ext_srgb");
    let at = lemma_preferred(caps, float_prefs());
    lemma_preferences();
    if exists|f: BufferFormat| f.float() && #[trigger] caps.supports(f) {
        let f = choose|f: BufferFormat| f.float() && #[trigger] caps.supports(f);
        let i = lemma_preference_of(f);
    }
    if let Ok(p) = res {
        assert(views(p.notes@).len() == p.notes@.len());
    }
}

/// HDR encodings are put in a float buffer, or in the deepest integer one of at least
/// 10 bits with a note. A plan is made exactly if there is colour management, nothing
/// is wrong with the description and there is such a format.
pub proof fn hdr_encodings_are_planned_onto_deep_buffers(
    caps: DisplayCapabilities,
    mode: RenderMode,
    res: Result<PipelinePlan, Unarrangeable>,
)
    requires
        call_ensures(DisplayCapabilities::plan, (&caps, &mode), res),
        mode.buffer == BufferPolicy::Auto,
        asks_for_transfer(mode, "st2084_pq"@) || asks_for_transfer(mode, "hlg"@),
    ensures
        res matches Ok(p) ==> {
            &&& caps.supports(p.buffer)
            &&& p.buffer.float() || p.buffer.depth() >= 10
            &&& p.buffer.float() <==> exists|f: BufferFormat| f.float() && #[trigger] caps.supports(
                f,
            )
            &&& p.buffer.float() <==> p.notes@.len() == 0
            &&& !p.buffer.float() ==> p.notes@.len() == 1 && p.notes@[0]@
                == "fp16 unavailable; using "@ + p.buffer.name_text() + " ("@ + decimal_text(
                p.buffer.depth() as nat,
            ) + "-bit unorm)"@
        },
        res is Ok <==> {
            &&& caps.color.done
            &&& refusal(mode.description->0, caps.color) is None
            &&& exists|f: BufferFormat| (f.float() || f.depth() >= 10) && #[trigger] caps.supports(f)
        },
{
    reveal_strlit("ext_linear");
    reveal_strlit("ext_srgb");
    reveal_strlit("st2084_pq");
    reveal_strlit("hlg");
    let name = mode.description->0.kind->0.transfer_function->Named_0@;
    assert("st2084_pq"@[0] == 's' && "hlg"@[0] == 'h' && "ext_linear"@[0] == 'e' && "ext_srgb"@[0]
        == 'e');
    assert(needs_of(mode.description) == BufferNeeds::Deep);
    let at = lemma_preferred(caps, float_prefs());
    let deep_at = lemma_preferred(caps, deep_unorm_prefs());
    lemma_preferences();
    if exists|f: BufferFormat| f.float() && #[trigger] caps.supports(f) {
        let f = choose|f: BufferFormat| f.float() && #[trigger] caps.supports(f);
        let i = lemma_preference_of(f);
    }
    if exists|f: BufferFormat| (f.float() || f.depth() >= 10) && #[trigger] caps.supports(f) {
        let f = choose|f: BufferFormat| (f.float() || f.depth() >= 10) && #[trigger] caps.supports(
            f,
        );
        let i = lemma_preference_of(f);
    }
    if let Ok(p) = res {
        assert(views(p.notes@).len() == p.notes@.len());
        if !p.buffer.float() {
            assert(views(p.notes@)[0] == p.notes@[0]@);
        }
    }
}

/// Every other mode is put in the canonical 8-bit format: one without a description
/// always, one with a named transfer function of another kind or a power curve where
/// the description is taken.
pub proof fn other_modes_are_planned_onto_eight_bits(
    caps: DisplayCapabilities,
    mode: RenderMode,
    res: Result<PipelinePlan, Unarrangeable>,
)
    requires
        call_ensures(DisplayCapabilities::plan, (&caps, &mode), res),
        mode.buffer == BufferPolicy::Auto,
        !(mode.description is Some && mode.description->0.kind is WindowsScrgb),
        !asks_for_transfer(mode, "ext_linear"@),
        !asks_for_transfer(mode, "ext_srgb"@),
        !asks_for_transfer(mode, "st2084_pq"@),
        !asks_for_transfer(mode, "hlg"@),
    ensures
        res matches Ok(p) ==> p.buffer == BufferFormat::Xrgb8888 && p.notes@.len() == 0,
        mode.description is None ==> res is Ok,
        mode.description matches Some(d) ==> (res is Ok <==> caps.color.done && refusal(
            d,
            caps.color,
        ) is None),
{
    if let Ok(p) = res {
        assert(views(p.notes@).len() == p.notes@.len());
    }
}

/// A pinned buffer is taken as it is or not at all: nothing else is planned, whatever
/// the mode would have been put in otherwise.
pub proof fn pinned_buffers_are_taken_or_refused(
    caps: DisplayCapabilities,
    mode: RenderMode,
    f: BufferFormat,
    res: Result<PipelinePlan, Unarrangeable>,
)
    requires
        call_ensures(DisplayCapabilities::plan, (&caps, &mode), res),
        mode.buffer == BufferPolicy::Exact(f),
    ensures
        res matches Ok(p) ==> p.buffer == f && p.notes@.len() == 0,
        res is Ok <==> {
            &&& caps.supports(f)
            &&& mode.description is Some ==> caps.color.done && refusal(
                mode.description->0,
                caps.color,
            ) is None
        },
        res matches Err(Unarrangeable::BufferNotAdvertised(g)) ==> g == f && !caps.supports(f),
        mode.description is None && !caps.supports(f) ==> res matches Err(
            Unarrangeable::BufferNotAdvertised(_),
        ),
{
    if let Ok(p) = res {
        assert(views(p.notes@).len() == p.notes@.len());
    }
}

/// Among equals the format without alpha goes first: one with alpha is planned only
/// where its pair is missing.
pub proof fn opaque_formats_go_first(
    caps: DisplayCapabilities,
    mode: RenderMode,
    p: PipelinePlan,
)
    requires
        call_ensures(DisplayCapabilities::plan, (&caps, &mode), Ok::<PipelinePlan, Unarrangeable>(p)),
        mode.buffer == BufferPolicy::Auto,
    ensures
        p.buffer == BufferFormat::Abgr16161616f ==> !caps.supports(BufferFormat::Xbgr16161616f),
        p.buffer == BufferFormat::Argb16161616f ==> !caps.supports(BufferFormat::Xrgb16161616f),
        p.buffer == BufferFormat::Abgr16161616 ==> !caps.supports(BufferFormat::Xbgr16161616),
        p.buffer == BufferFormat::Argb16161616 ==> !caps.supports(BufferFormat::Xrgb16161616),
        p.buffer == BufferFormat::Abgr2101010 ==> !caps.supports(BufferFormat::Xbgr2101010),
        p.buffer == BufferFormat::Argb2101010 ==> !caps.supports(BufferFormat::Xrgb2101010),
        p.buffer == BufferFormat::Rgba1010102 ==> !caps.supports(BufferFormat::Rgbx1010102),
        p.buffer == BufferFormat::Bgra1010102 ==> !caps.supports(BufferFormat::Bgrx1010102),
        p.buffer.float() && caps.supports(BufferFormat::Xbgr16161616f) ==> p.buffer
            == BufferFormat::Xbgr16161616f,
        !p.buffer.float() && p.buffer != BufferFormat::Xrgb8888 && caps.supports(
            BufferFormat::Xbgr16161616,
        ) ==> p.buffer == BufferFormat::Xbgr16161616,
        p.buffer.depth() == 10 && caps.supports(BufferFormat::Xrgb2101010) ==> p.buffer
            == BufferFormat::Xrgb2101010,
{
    let at = lemma_preferred(caps, float_prefs());
    let deep_at = lemma_preferred(caps, deep_unorm_prefs());
    lemma_preferences();
    let fp = float_prefs();
    let dp = deep_unorm_prefs();
    assert(fp[0] == BufferFormat::Xbgr16161616f && fp[2] == BufferFormat::Xrgb16161616f);
    assert(dp[0] == BufferFormat::Xbgr16161616 && dp[2] == BufferFormat::Xrgb16161616);
    assert(dp[6] == BufferFormat::Xrgb2101010 && dp[7] == BufferFormat::Xbgr2101010);
    assert(dp[10] == BufferFormat::Rgbx1010102 && dp[11] == BufferFormat::Bgrx1010102);
    table_is_ordered_by_depth(p.buffer);
}

/// What is said of a mode that cannot be arranged: that there is no colour management,
/// what is wrong with the description, or which buffer is missing.
pub proof fn reasons_name_what_is_missing(
    u: Unarrangeable,
    exponent: &str,
    r: String,
    m: String,
    er: String,
    em: String,
)
    requires
        call_ensures(Unarrangeable::reason, (&u,), r),
        call_ensures(Unarrangeable::message, (&u, exponent), m),
        u matches Unarrangeable::Description(e) ==> call_ensures(AttachError::reason, (&e,), er)
            && call_ensures(AttachError::message, (&e, exponent), em),
    ensures
        match u {
            Unarrangeable::NoColorManagement => r@ == "no color management"@ && m@
                == "compositor doesn't advertise wp_color_manager_v1"@,
            Unarrangeable::Description(_) => r@ == er@ && m@ == em@,
            Unarrangeable::BufferNotAdvertised(f) => r@ == "no "@ + f.name_text() + " buffer"@
                && m@ == "compositor doesn't advertise the "@ + f.name_text() + " buffer format"@,
            Unarrangeable::NoAdequateBuffer { needs } => r@ == "no "@ + needs@ + " buffer"@ && m@
                == "no advertised buffer format is "@ + needs@,
        },
{
}

} // verus!
