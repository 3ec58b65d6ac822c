//! Colour descriptions and what a compositor must advertise for them.
//!
//! Every optional request of the colour-management protocol is gated on what
//! the compositor advertised before anything is sent: to use something that
//! was not advertised is a fatal protocol error. [`attach_plan`] either
//! refuses a description ([`AttachError`]) or lists the requests that build it.
use vstd::arithmetic::power2::{lemma2_to64_rest, lemma_pow2_strictly_increases, pow2};
use vstd::prelude::*;

use crate::number::{Double, Pair, ONE_BITS};
use crate::scale::{is_binary_fraction, lemma_near, signed, to_signed, to_unsigned, unsigned, whole_values_scale_exactly};
use crate::text::{ahead_of, around, between, debug_text, decimal, decimal_reads_back, decimal_text, joined, same_text, text_key, views};

verus! {

/// The pattern of 10.0.
pub const TEN_BITS: u64 = 0x4024_0000_0000_0000;

/// A transfer function of the protocol.
#[derive(Clone, Copy, Debug, PartialEq, Eq, Structural)]
pub enum TransferFunction {
    Bt1886,
    Gamma22,
    Gamma28,
    St240,
    ExtLinear,
    Log100,
    Log316,
    Xvycc,
    Srgb,
    ExtSrgb,
    St2084Pq,
    St428,
    Hlg,
    CompoundPower24,
}

impl TransferFunction {
    /// The protocol's entry name.
    pub open spec fn name_text(self) -> Seq<char> {
        match self {
            TransferFunction::Bt1886 => "bt1886"@,
            TransferFunction::Gamma22 => "gamma22"@,
            TransferFunction::Gamma28 => "gamma28"@,
            TransferFunction::St240 => "st240"@,
            TransferFunction::ExtLinear => "ext_linear"@,
            TransferFunction::Log100 => "log_100"@,
            TransferFunction::Log316 => "log_316"@,
            TransferFunction::Xvycc => "xvycc"@,
            TransferFunction::Srgb => "srgb"@,
            TransferFunction::ExtSrgb => "ext_srgb"@,
            TransferFunction::St2084Pq => "st2084_pq"@,
            TransferFunction::St428 => "st428"@,
            TransferFunction::Hlg => "hlg"@,
            TransferFunction::CompoundPower24 => "compound_power_2_4"@,
        }
    }

    /// The name under which capability lists hold the value.
    pub open spec fn variant_text(self) -> Seq<char> {
        match self {
            TransferFunction::Bt1886 => "Bt1886"@,
            TransferFunction::Gamma22 => "Gamma22"@,
            TransferFunction::Gamma28 => "Gamma28"@,
            TransferFunction::St240 => "St240"@,
            TransferFunction::ExtLinear => "ExtLinear"@,
            TransferFunction::Log100 => "Log100"@,
            TransferFunction::Log316 => "Log316"@,
            TransferFunction::Xvycc => "Xvycc"@,
            TransferFunction::Srgb => "Srgb"@,
            TransferFunction::ExtSrgb => "ExtSrgb"@,
            TransferFunction::St2084Pq => "St2084Pq"@,
            TransferFunction::St428 => "St428"@,
            TransferFunction::Hlg => "Hlg"@,
            TransferFunction::CompoundPower24 => "CompoundPower24"@,
        }
    }

    /// The protocol's number for the value.
    pub open spec fn wire_code(self) -> u32 {
        match self {
            TransferFunction::Bt1886 => 1,
            TransferFunction::Gamma22 => 2,
            TransferFunction::Gamma28 => 3,
            TransferFunction::St240 => 4,
            TransferFunction::ExtLinear => 5,
            TransferFunction::Log100 => 6,
            TransferFunction::Log316 => 7,
            TransferFunction::Xvycc => 8,
            TransferFunction::Srgb => 9,
            TransferFunction::ExtSrgb => 10,
            TransferFunction::St2084Pq => 11,
            TransferFunction::St428 => 12,
            TransferFunction::Hlg => 13,
            TransferFunction::CompoundPower24 => 14,
        }
    }

    /// The name under which capability lists hold the value.
    pub fn variant(self) -> (res: &'static str)
        ensures
            res@ == self.variant_text(),
    {
        match self {
            TransferFunction::Bt1886 => "Bt1886",
            TransferFunction::Gamma22 => "Gamma22",
            TransferFunction::Gamma28 => "Gamma28",
            TransferFunction::St240 => "St240",
            TransferFunction::ExtLinear => "ExtLinear",
            TransferFunction::Log100 => "Log100",
            TransferFunction::Log316 => "Log316",
            TransferFunction::Xvycc => "Xvycc",
            TransferFunction::Srgb => "Srgb",
            TransferFunction::ExtSrgb => "ExtSrgb",
            TransferFunction::St2084Pq => "St2084Pq",
            TransferFunction::St428 => "St428",
            TransferFunction::Hlg => "Hlg",
            TransferFunction::CompoundPower24 => "CompoundPower24",
        }
    }

    /// The protocol's number for the value.
    pub fn code(self) -> (res: u32)
        ensures
            res == self.wire_code(),
    {
        match self {
            TransferFunction::Bt1886 => 1,
            TransferFunction::Gamma22 => 2,
            TransferFunction::Gamma28 => 3,
            TransferFunction::St240 => 4,
            TransferFunction::ExtLinear => 5,
            TransferFunction::Log100 => 6,
            TransferFunction::Log316 => 7,
            TransferFunction::Xvycc => 8,
            TransferFunction::Srgb => 9,
            TransferFunction::ExtSrgb => 10,
            TransferFunction::St2084Pq => 11,
            TransferFunction::St428 => 12,
            TransferFunction::Hlg => 13,
            TransferFunction::CompoundPower24 => 14,
        }
    }
}

proof fn lemma_tf_name_keys()
    ensures
        text_key("bt1886"@) == 239433794007302int,
        text_key("gamma22"@) == 28370762380899207int,
        text_key("gamma28"@) == 31748462101427079int,
        text_key("st240"@) == 1663332858245int,
        text_key("ext_linear"@) == 7340207024189092490int,
        text_key("log_100"@) == 27234413343143431int,
        text_key("log_316"@) == 30616579829659143int,
        text_key("xvycc"@) == 3428444912645int,
        text_key("srgb"@) == 26524563844int,
        text_key("ext_srgb"@) == 7120133415338128008int,
        text_key("st2084_pq"@) == 8124161413378554249int,
        text_key("st428"@) == 1937678088581int,
        text_key("hlg"@) == 217789443int,
        text_key("compound_power_2_4"@) == 7268202314337087890int,
{
    assert(text_key("bt1886"@) == 239433794007302int) by {
        reveal_strlit("bt1886");
    }
    assert(text_key("gamma22"@) == 28370762380899207int) by {
        reveal_strlit("gamma22");
    }
    assert(text_key("gamma28"@) == 31748462101427079int) by {
        reveal_strlit("gamma28");
    }
    assert(text_key("st240"@) == 1663332858245int) by {
        reveal_strlit("st240");
    }
    assert(text_key("ext_linear"@) == 7340207024189092490int) by {
        reveal_strlit("ext_linear");
    }
    assert(text_key("log_100"@) == 27234413343143431int) by {
        reveal_strlit("log_100");
    }
    assert(text_key("log_316"@) == 30616579829659143int) by {
        reveal_strlit("log_316");
    }
    assert(text_key("xvycc"@) == 3428444912645int) by {
        reveal_strlit("xvycc");
    }
    assert(text_key("srgb"@) == 26524563844int) by {
        reveal_strlit("srgb");
    }
    assert(text_key("ext_srgb"@) == 7120133415338128008int) by {
        reveal_strlit("ext_srgb");
    }
    assert(text_key("st2084_pq"@) == 8124161413378554249int) by {
        reveal_strlit("st2084_pq");
    }
    assert(text_key("st428"@) == 1937678088581int) by {
        reveal_strlit("st428");
    }
    assert(text_key("hlg"@) == 217789443int) by {
        reveal_strlit("hlg");
    }
    assert(text_key("compound_power_2_4"@) == 7268202314337087890int) by {
        reveal_strlit("compound_power_2_4");
    }
}

/// No two values of [`TransferFunction`] have the same name.
pub proof fn tf_names_are_distinct(a: TransferFunction, b: TransferFunction)
    requires
        a.name_text() == b.name_text(),
    ensures
        a == b,
{
    lemma_tf_name_keys();
}

/// The transfer function of a name; none for a name that is not in the table.
pub fn tf_named(name: &str) -> (res: Option<TransferFunction>)
    ensures
        match res {
            Some(v) => v.name_text() == name@,
            None => forall|v: TransferFunction| #[trigger] v.name_text() != name@,
        },
{
    if same_text(name, "bt1886") {
        Some(TransferFunction::Bt1886)
    } else if same_text(name, "gamma22") {
        Some(TransferFunction::Gamma22)
    } else if same_text(name, "gamma28") {
        Some(TransferFunction::Gamma28)
    } else if same_text(name, "st240") {
        Some(TransferFunction::St240)
    } else if same_text(name, "ext_linear") {
        Some(TransferFunction::ExtLinear)
    } else if same_text(name, "log_100") {
        Some(TransferFunction::Log100)
    } else if same_text(name, "log_316") {
        Some(TransferFunction::Log316)
    } else if same_text(name, "xvycc") {
        Some(TransferFunction::Xvycc)
    } else if same_text(name, "srgb") {
        Some(TransferFunction::Srgb)
    } else if same_text(name, "ext_srgb") {
        Some(TransferFunction::ExtSrgb)
    } else if same_text(name, "st2084_pq") {
        Some(TransferFunction::St2084Pq)
    } else if same_text(name, "st428") {
        Some(TransferFunction::St428)
    } else if same_text(name, "hlg") {
        Some(TransferFunction::Hlg)
    } else if same_text(name, "compound_power_2_4") {
        Some(TransferFunction::CompoundPower24)
    } else {
        None
    }
}

/// A set of primaries of the protocol.
#[derive(Clone, Copy, Debug, PartialEq, Eq, Structural)]
pub enum Primaries {
    Srgb,
    PalM,
    Pal,
    Ntsc,
    GenericFilm,
    Bt2020,
    Cie1931Xyz,
    DciP3,
    DisplayP3,
    AdobeRgb,
}

impl Primaries {
    /// The protocol's entry name.
    pub open spec fn name_text(self) -> Seq<char> {
        match self {
            Primaries::Srgb => "srgb"@,
            Primaries::PalM => "pal_m"@,
            Primaries::Pal => "pal"@,
            Primaries::Ntsc => "ntsc"@,
            Primaries::GenericFilm => "generic_film"@,
            Primaries::Bt2020 => "bt2020"@,
            Primaries::Cie1931Xyz => "cie1931_xyz"@,
            Primaries::DciP3 => "dci_p3"@,
            Primaries::DisplayP3 => "display_p3"@,
            Primaries::AdobeRgb => "adobe_rgb"@,
        }
    }

    /// The name under which capability lists hold the value.
    pub open spec fn variant_text(self) -> Seq<char> {
        match self {
            Primaries::Srgb => "Srgb"@,
            Primaries::PalM => "PalM"@,
            Primaries::Pal => "Pal"@,
            Primaries::Ntsc => "Ntsc"@,
            Primaries::GenericFilm => "GenericFilm"@,
            Primaries::Bt2020 => "Bt2020"@,
            Primaries::Cie1931Xyz => "Cie1931Xyz"@,
            Primaries::DciP3 => "DciP3"@,
            Primaries::DisplayP3 => "DisplayP3"@,
            Primaries::AdobeRgb => "AdobeRgb"@,
        }
    }

    /// The protocol's number for the value.
    pub open spec fn wire_code(self) -> u32 {
        match self {
            Primaries::Srgb => 1,
            Primaries::PalM => 2,
            Primaries::Pal => 3,
            Primaries::Ntsc => 4,
            Primaries::GenericFilm => 5,
            Primaries::Bt2020 => 6,
            Primaries::Cie1931Xyz => 7,
            Primaries::DciP3 => 8,
            Primaries::DisplayP3 => 9,
            Primaries::AdobeRgb => 10,
        }
    }

    /// The name under which capability lists hold the value.
    pub fn variant(self) -> (res: &'static str)
        ensures
            res@ == self.variant_text(),
    {
        match self {
            Primaries::Srgb => "Srgb",
            Primaries::PalM => "PalM",
            Primaries::Pal => "Pal",
            Primaries::Ntsc => "Ntsc",
            Primaries::GenericFilm => "GenericFilm",
            Primaries::Bt2020 => "Bt2020",
            Primaries::Cie1931Xyz => "Cie1931Xyz",
            Primaries::DciP3 => "DciP3",
            Primaries::DisplayP3 => "DisplayP3",
            Primaries::AdobeRgb => "AdobeRgb",
        }
    }

    /// The protocol's number for the value.
    pub fn code(self) -> (res: u32)
        ensures
            res == self.wire_code(),
    {
        match self {
            Primaries::Srgb => 1,
            Primaries::PalM => 2,
            Primaries::Pal => 3,
            Primaries::Ntsc => 4,
            Primaries::GenericFilm => 5,
            Primaries::Bt2020 => 6,
            Primaries::Cie1931Xyz => 7,
            Primaries::DciP3 => 8,
            Primaries::DisplayP3 => 9,
            Primaries::AdobeRgb => 10,
        }
    }
}

proof fn lemma_primaries_name_keys()
    ensures
        text_key("srgb"@) == 26524563844int,
        text_key("pal_m"@) == 3770940946437int,
        text_key("pal"@) == 228096003int,
        text_key("ntsc"@) == 26818197252int,
        text_key("generic_film"@) == 6901669218230039436int,
        text_key("bt2020"@) == 212837211123974int,
        text_key("cie1931_xyz"@) == 6873282253564834187int,
        text_key("dci_p3"@) == 228174385967622int,
        text_key("display_p3"@) == 6914018729638130186int,
        text_key("adobe_rgb"@) == 7486529791889846409int,
{
    assert(text_key("srgb"@) == 26524563844int) by {
        reveal_strlit("srgb");
    }
    assert(text_key("pal_m"@) == 3770940946437int) by {
        reveal_strlit("pal_m");
    }
    assert(text_key("pal"@) == 228096003int) by {
        reveal_strlit("pal");
    }
    assert(text_key("ntsc"@) == 26818197252int) by {
        reveal_strlit("ntsc");
    }
    assert(text_key("generic_film"@) == 6901669218230039436int) by {
        reveal_strlit("generic_film");
    }
    assert(text_key("bt2020"@) == 212837211123974int) by {
        reveal_strlit("bt2020");
    }
    assert(text_key("cie1931_xyz"@) == 6873282253564834187int) by {
        reveal_strlit("cie1931_xyz");
    }
    assert(text_key("dci_p3"@) == 228174385967622int) by {
        reveal_strlit("dci_p3");
    }
    assert(text_key("display_p3"@) == 6914018729638130186int) by {
        reveal_strlit("display_p3");
    }
    assert(text_key("adobe_rgb"@) == 7486529791889846409int) by {
        reveal_strlit("adobe_rgb");
    }
}

/// No two values of [`Primaries`] have the same name.
pub proof fn primaries_names_are_distinct(a: Primaries, b: Primaries)
    requires
        a.name_text() == b.name_text(),
    ensures
        a == b,
{
    lemma_primaries_name_keys();
}

/// The primaries of a name; none for a name that is not in the table.
pub fn primaries_named(name: &str) -> (res: Option<Primaries>)
    ensures
        match res {
            Some(v) => v.name_text() == name@,
            None => forall|v: Primaries| #[trigger] v.name_text() != name@,
        },
{
    if same_text(name, "srgb") {
        Some(Primaries::Srgb)
    } else if same_text(name, "pal_m") {
        Some(Primaries::PalM)
    } else if same_text(name, "pal") {
        Some(Primaries::Pal)
    } else if same_text(name, "ntsc") {
        Some(Primaries::Ntsc)
    } else if same_text(name, "generic_film") {
        Some(Primaries::GenericFilm)
    } else if same_text(name, "bt2020") {
        Some(Primaries::Bt2020)
    } else if same_text(name, "cie1931_xyz") {
        Some(Primaries::Cie1931Xyz)
    } else if same_text(name, "dci_p3") {
        Some(Primaries::DciP3)
    } else if same_text(name, "display_p3") {
        Some(Primaries::DisplayP3)
    } else if same_text(name, "adobe_rgb") {
        Some(Primaries::AdobeRgb)
    } else {
        None
    }
}

/// An optional feature of the protocol.
#[derive(Clone, Copy, Debug, PartialEq, Eq, Structural)]
pub enum Feature {
    IccV2V4,
    Parametric,
    SetPrimaries,
    SetTfPower,
    SetLuminances,
    SetMasteringDisplayPrimaries,
    ExtendedTargetVolume,
    WindowsScrgb,
}

impl Feature {
    /// The protocol's entry name.
    pub open spec fn name_text(self) -> Seq<char> {
        match self {
            Feature::IccV2V4 => "icc_v2_v4"@,
            Feature::Parametric => "parametric"@,
            Feature::SetPrimaries => "set_primaries"@,
            Feature::SetTfPower => "set_tf_power"@,
            Feature::SetLuminances => "set_luminances"@,
            Feature::SetMasteringDisplayPrimaries => "set_mastering_display_primaries"@,
            Feature::ExtendedTargetVolume => "extended_target_volume"@,
            Feature::WindowsScrgb => "windows_scrgb"@,
        }
    }

    /// The name under which capability lists hold the value.
    pub open spec fn variant_text(self) -> Seq<char> {
        match self {
            Feature::IccV2V4 => "IccV2V4"@,
            Feature::Parametric => "Parametric"@,
            Feature::SetPrimaries => "SetPrimaries"@,
            Feature::SetTfPower => "SetTfPower"@,
            Feature::SetLuminances => "SetLuminances"@,
            Feature::SetMasteringDisplayPrimaries => "SetMasteringDisplayPrimaries"@,
            Feature::ExtendedTargetVolume => "ExtendedTargetVolume"@,
            Feature::WindowsScrgb => "WindowsScrgb"@,
        }
    }

    /// The protocol's number for the value.
    pub open spec fn wire_code(self) -> u32 {
        match self {
            Feature::IccV2V4 => 0,
            Feature::Parametric => 1,
            Feature::SetPrimaries => 2,
            Feature::SetTfPower => 3,
            Feature::SetLuminances => 4,
            Feature::SetMasteringDisplayPrimaries => 5,
            Feature::ExtendedTargetVolume => 6,
            Feature::WindowsScrgb => 7,
        }
    }

    /// The name under which capability lists hold the value.
    pub fn variant(self) -> (res: &'static str)
        ensures
            res@ == self.variant_text(),
    {
        match self {
            Feature::IccV2V4 => "IccV2V4",
            Feature::Parametric => "Parametric",
            Feature::SetPrimaries => "SetPrimaries",
            Feature::SetTfPower => "SetTfPower",
            Feature::SetLuminances => "SetLuminances",
            Feature::SetMasteringDisplayPrimaries => "SetMasteringDisplayPrimaries",
            Feature::ExtendedTargetVolume => "ExtendedTargetVolume",
            Feature::WindowsScrgb => "WindowsScrgb",
        }
    }

    /// The protocol's number for the value.
    pub fn code(self) -> (res: u32)
        ensures
            res == self.wire_code(),
    {
        match self {
            Feature::IccV2V4 => 0,
            Feature::Parametric => 1,
            Feature::SetPrimaries => 2,
            Feature::SetTfPower => 3,
            Feature::SetLuminances => 4,
            Feature::SetMasteringDisplayPrimaries => 5,
            Feature::ExtendedTargetVolume => 6,
            Feature::WindowsScrgb => 7,
        }
    }
}

proof fn lemma_feature_name_keys()
    ensures
        text_key("icc_v2_v4"@) == 8556500324535825545int,
        text_key("parametric"@) == 8280315889108678666int,
        text_key("set_primaries"@) == 7913892746582653325int,
        text_key("set_tf_power"@) == 8124383390043044236int,
        text_key("set_luminances"@) == 7627927226945206670int,
        text_key("set_mastering_display_primaries"@) == 8423850534512458143int,
        text_key("extended_target_volume"@) == 7263060960667906710int,
        text_key("windows_scrgb"@) == 6910737886788352909int,
{
    assert(text_key("icc_v2_v4"@) == 8556500324535825545int) by {
        reveal_strlit("icc_v2_v4");
    }
    assert(text_key("parametric"@) == 8280315889108678666int) by {
        reveal_strlit("parametric");
    }
    assert(text_key("set_primaries"@) == 7913892746582653325int) by {
        reveal_strlit("set_primaries");
    }
    assert(text_key("set_tf_power"@) == 8124383390043044236int) by {
        reveal_strlit("set_tf_power");
    }
    assert(text_key("set_luminances"@) == 7627927226945206670int) by {
        reveal_strlit("set_luminances");
    }
    assert(text_key("set_mastering_display_primaries"@) == 8423850534512458143int) by {
        reveal_strlit("set_mastering_display_primaries");
    }
    assert(text_key("extended_target_volume"@) == 7263060960667906710int) by {
        reveal_strlit("extended_target_volume");
    }
    assert(text_key("windows_scrgb"@) == 6910737886788352909int) by {
        reveal_strlit("windows_scrgb");
    }
}

/// No two values of [`Feature`] have the same name.
pub proof fn feature_names_are_distinct(a: Feature, b: Feature)
    requires
        a.name_text() == b.name_text(),
    ensures
        a == b,
{
    lemma_feature_name_keys();
}

/// The feature of a name; none for a name that is not in the table.
pub fn feature_named(name: &str) -> (res: Option<Feature>)
    ensures
        match res {
            Some(v) => v.name_text() == name@,
            None => forall|v: Feature| #[trigger] v.name_text() != name@,
        },
{
    if same_text(name, "icc_v2_v4") {
        Some(Feature::IccV2V4)
    } else if same_text(name, "parametric") {
        Some(Feature::Parametric)
    } else if same_text(name, "set_primaries") {
        Some(Feature::SetPrimaries)
    } else if same_text(name, "set_tf_power") {
        Some(Feature::SetTfPower)
    } else if same_text(name, "set_luminances") {
        Some(Feature::SetLuminances)
    } else if same_text(name, "set_mastering_display_primaries") {
        Some(Feature::SetMasteringDisplayPrimaries)
    } else if same_text(name, "extended_target_volume") {
        Some(Feature::ExtendedTargetVolume)
    } else if same_text(name, "windows_scrgb") {
        Some(Feature::WindowsScrgb)
    } else {
        None
    }
}

/// A render intent of the protocol.
#[derive(Clone, Copy, Debug, PartialEq, Eq, Structural)]
pub enum RenderIntent {
    Perceptual,
    Relative,
    Saturation,
    Absolute,
    RelativeBpc,
    AbsoluteNoAdaptation,
}

impl RenderIntent {
    /// The protocol's entry name.
    pub open spec fn name_text(self) -> Seq<char> {
        match self {
            RenderIntent::Perceptual => "perceptual"@,
            RenderIntent::Relative => "relative"@,
            RenderIntent::Saturation => "saturation"@,
            RenderIntent::Absolute => "absolute"@,
            RenderIntent::RelativeBpc => "relative_bpc"@,
            RenderIntent::AbsoluteNoAdaptation => "absolute_no_adaptation"@,
        }
    }

    /// The name under which capability lists hold the value.
    pub open spec fn variant_text(self) -> Seq<char> {
        match self {
            RenderIntent::Perceptual => "Perceptual"@,
            RenderIntent::Relative => "Relative"@,
            RenderIntent::Saturation => "Saturation"@,
            RenderIntent::Absolute => "Absolute"@,
            RenderIntent::RelativeBpc => "RelativeBpc"@,
            RenderIntent::AbsoluteNoAdaptation => "AbsoluteNoAdaptation"@,
        }
    }

    /// The protocol's number for the value.
    pub open spec fn wire_code(self) -> u32 {
        match self {
            RenderIntent::Perceptual => 0,
            RenderIntent::Relative => 1,
            RenderIntent::Saturation => 2,
            RenderIntent::Absolute => 3,
            RenderIntent::RelativeBpc => 4,
            RenderIntent::AbsoluteNoAdaptation => 5,
        }
    }

    /// The name under which capability lists hold the value.
    pub fn variant(self) -> (res: &'static str)
        ensures
            res@ == self.variant_text(),
    {
        match self {
            RenderIntent::Perceptual => "Perceptual",
            RenderIntent::Relative => "Relative",
            RenderIntent::Saturation => "Saturation",
            RenderIntent::Absolute => "Absolute",
            RenderIntent::RelativeBpc => "RelativeBpc",
            RenderIntent::AbsoluteNoAdaptation => "AbsoluteNoAdaptation",
        }
    }

    /// The protocol's number for the value.
    pub fn code(self) -> (res: u32)
        ensures
            res == self.wire_code(),
    {
        match self {
            RenderIntent::Perceptual => 0,
            RenderIntent::Relative => 1,
            RenderIntent::Saturation => 2,
            RenderIntent::Absolute => 3,
            RenderIntent::RelativeBpc => 4,
            RenderIntent::AbsoluteNoAdaptation => 5,
        }
    }
}

proof fn lemma_intent_name_keys()
    ensures
        text_key("perceptual"@) == 8496536775393114122int,
        text_key("relative"@) == 7344710899214153992int,
        text_key("saturation"@) == 7631780127752878474int,
        text_key("absolute"@) == 7343637504760262792int,
        text_key("relative_bpc"@) == 7344710899214153996int,
        text_key("absolute_no_adaptation"@) == 7343637504760262806int,
{
    assert(text_key("perceptual"@) == 8496536775393114122int) by {
        reveal_strlit("perceptual");
    }
    assert(text_key("relative"@) == 7344710899214153992int) by {
        reveal_strlit("relative");
    }
    assert(text_key("saturation"@) == 7631780127752878474int) by {
        reveal_strlit("saturation");
    }
    assert(text_key("absolute"@) == 7343637504760262792int) by {
        reveal_strlit("absolute");
    }
    assert(text_key("relative_bpc"@) == 7344710899214153996int) by {
        reveal_strlit("relative_bpc");
    }
    assert(text_key("absolute_no_adaptation"@) == 7343637504760262806int) by {
        reveal_strlit("absolute_no_adaptation");
    }
}

/// No two values of [`RenderIntent`] have the same name.
pub proof fn intent_names_are_distinct(a: RenderIntent, b: RenderIntent)
    requires
        a.name_text() == b.name_text(),
    ensures
        a == b,
{
    lemma_intent_name_keys();
}

/// The render intent of a name; none for a name that is not in the table.
pub fn intent_named(name: &str) -> (res: Option<RenderIntent>)
    ensures
        match res {
            Some(v) => v.name_text() == name@,
            None => forall|v: RenderIntent| #[trigger] v.name_text() != name@,
        },
{
    if same_text(name, "perceptual") {
        Some(RenderIntent::Perceptual)
    } else if same_text(name, "relative") {
        Some(RenderIntent::Relative)
    } else if same_text(name, "saturation") {
        Some(RenderIntent::Saturation)
    } else if same_text(name, "absolute") {
        Some(RenderIntent::Absolute)
    } else if same_text(name, "relative_bpc") {
        Some(RenderIntent::RelativeBpc)
    } else if same_text(name, "absolute_no_adaptation") {
        Some(RenderIntent::AbsoluteNoAdaptation)
    } else {
        None
    }
}
// ---------------------------------------------------------------------------
// Descriptions
// ---------------------------------------------------------------------------

/// A colour description to negotiate, and the render intent to attach it with.
#[derive(Debug)]
pub struct DescriptionRequest {
    pub kind: DescriptionKind,
    /// Name of the render intent. Perceptual is always supported; every other
    /// one must be advertised.
    pub render_intent: String,
}

/// Which kind of image description to create.
#[derive(Debug)]
pub enum DescriptionKind {
    /// Built from explicit colorimetric parameters.
    Parametric(ParametricDescription),
    /// The compositor's built-in Windows-scRGB description.
    WindowsScrgb,
}

/// The parameters of an image description, in semantic units: cd/m2, CIE xy
/// and plain exponents.
#[derive(Debug)]
pub struct ParametricDescription {
    pub transfer_function: TransferChoice,
    pub primaries: PrimariesChoice,
    pub luminances: Option<Luminances>,
    pub mastering: Option<Mastering>,
}

/// The transfer characteristic of a parametric description.
#[derive(Debug)]
pub enum TransferChoice {
    /// A transfer function of the protocol by name.
    Named(String),
    /// A pure power curve with this exponent, from 1 to 10.
    Power(Double),
}

/// The primaries of a parametric description.
#[derive(Debug)]
pub enum PrimariesChoice {
    /// Primaries of the protocol by name.
    Named(String),
    /// Explicit chromaticities.
    Custom(PrimaryCoords),
}

/// Primaries and white point as CIE 1931 xy coordinates.
#[derive(Clone, Copy, Debug, PartialEq, Eq, Structural)]
pub struct PrimaryCoords {
    pub red: Pair,
    pub green: Pair,
    pub blue: Pair,
    pub white: Pair,
}

/// Luminances of the primary colour volume, in cd/m2.
#[derive(Clone, Copy, Debug, PartialEq, Eq, Structural)]
pub struct Luminances {
    pub min_nits: Double,
    pub max_nits: Double,
    pub reference_nits: Double,
}

/// Mastering metadata. Each part maps to its own request.
#[derive(Clone, Copy, Debug, PartialEq, Eq)]
pub struct Mastering {
    /// Least and greatest mastering luminance.
    pub luminance_nits: Option<Pair>,
    /// Mastering display primaries and white point.
    pub primaries: Option<PrimaryCoords>,
    /// Maximum content light level.
    pub max_cll_nits: Option<Double>,
    /// Maximum frame-average light level.
    pub max_fall_nits: Option<Double>,
}

impl Default for Mastering {
    fn default() -> (res: Self)
        ensures
            res == (Mastering {
                luminance_nits: None,
                primaries: None,
                max_cll_nits: None,
                max_fall_nits: None,
            }),
    {
        Mastering { luminance_nits: None, primaries: None, max_cll_nits: None, max_fall_nits: None }
    }
}

impl DescriptionRequest {
    /// A parametric description attached with perceptual intent.
    pub fn parametric(p: ParametricDescription) -> (res: Self)
        ensures
            res.kind == DescriptionKind::Parametric(p),
            res.render_intent@ == "perceptual"@,
    {
        DescriptionRequest {
            kind: DescriptionKind::Parametric(p),
            render_intent: "perceptual".to_owned(),
        }
    }

    /// Named transfer function and primaries, no metadata, perceptual intent.
    pub fn named(transfer_function: &str, primaries: &str) -> (res: Self)
        ensures
            res.kind matches DescriptionKind::Parametric(p) && p.is_named(
                transfer_function@,
                primaries@,
            ),
            res.render_intent@ == "perceptual"@,
    {
        Self::parametric(ParametricDescription::named(transfer_function, primaries))
    }

    /// The compositor-defined Windows-scRGB description, with perceptual intent.
    pub fn windows_scrgb() -> (res: Self)
        ensures
            res.kind == DescriptionKind::WindowsScrgb,
            res.render_intent@ == "perceptual"@,
    {
        DescriptionRequest {
            kind: DescriptionKind::WindowsScrgb,
            render_intent: "perceptual".to_owned(),
        }
    }
}

impl ParametricDescription {
    /// Named transfer function and primaries and nothing else.
    pub open spec fn is_named(self, transfer_function: Seq<char>, primaries: Seq<char>) -> bool {
        &&& self.transfer_function matches TransferChoice::Named(t) && t@ == transfer_function
        &&& self.primaries matches PrimariesChoice::Named(p) && p@ == primaries
        &&& self.luminances is None
        &&& self.mastering is None
    }

    /// Named transfer function and primaries, nothing optional.
    pub fn named(transfer_function: &str, primaries: &str) -> (res: Self)
        ensures
            res.is_named(transfer_function@, primaries@),
    {
        ParametricDescription {
            transfer_function: TransferChoice::Named(transfer_function.to_owned()),
            primaries: PrimariesChoice::Named(primaries.to_owned()),
            luminances: None,
            mastering: None,
        }
    }
}

impl TransferChoice {
    /// A stable label for captures: the name, or `power_` and the exponent as
    /// it is printed.
    pub fn label(&self, exponent: &str) -> (res: String)
        ensures
            res@ == match *self {
                TransferChoice::Named(n) => n@,
                TransferChoice::Power(_) => "power_"@ + exponent@,
            },
    {
        match self {
            TransferChoice::Named(n) => n.clone(),
            TransferChoice::Power(_) => joined("power_", exponent),
        }
    }
}

impl PrimariesChoice {
    /// A stable label for captures: the name, or `custom`.
    pub fn label(&self) -> (res: String)
        ensures
            res@ == match *self {
                PrimariesChoice::Named(n) => n@,
                PrimariesChoice::Custom(_) => "custom"@,
            },
    {
        match self {
            PrimariesChoice::Named(n) => n.clone(),
            PrimariesChoice::Custom(_) => "custom".to_owned(),
        }
    }
}

// ---------------------------------------------------------------------------
// Capabilities
// ---------------------------------------------------------------------------

/// What the compositor advertised. Each list holds variant names, or
/// `unknown(N)` for a value without a name. All empty and not done where the
/// compositor has no colour management.
#[derive(Debug)]
pub struct ColorCapabilities {
    pub transfer_functions: Vec<String>,
    pub primaries: Vec<String>,
    pub features: Vec<String>,
    pub render_intents: Vec<String>,
    /// Whether the enumeration is complete.
    pub done: bool,
}

impl Default for ColorCapabilities {
    fn default() -> (res: Self)
        ensures
            res.transfer_functions@.len() == 0,
            res.primaries@.len() == 0,
            res.features@.len() == 0,
            res.render_intents@.len() == 0,
            !res.done,
    {
        ColorCapabilities {
            transfer_functions: Vec::new(),
            primaries: Vec::new(),
            features: Vec::new(),
            render_intents: Vec::new(),
            done: false,
        }
    }
}

/// A list holds a text.
pub open spec fn lists(list: Seq<String>, text: Seq<char>) -> bool {
    views(list).contains(text)
}

/// Whether a list holds a text.
pub fn listed(list: &Vec<String>, text: &str) -> (res: bool)
    ensures
        res == lists(list@, text@),
{
    let mut i: usize = 0;
    while i < list.len()
        invariant
            i <= list@.len(),
            forall|j: int| 0 <= j < i ==> (#[trigger] views(list@)[j]) != text@,
        decreases list@.len() - i,
    {
        if same_text(list[i].as_str(), text) {
            assert(views(list@)[i as int] == text@);
            return true;
        }
        i += 1;
    }
    false
}

impl ColorCapabilities {
    pub open spec fn advertises_feature(self, f: Feature) -> bool {
        lists(self.features@, f.variant_text())
    }

    pub open spec fn advertises_tf(self, t: TransferFunction) -> bool {
        lists(self.transfer_functions@, t.variant_text())
    }

    pub open spec fn advertises_primaries(self, p: Primaries) -> bool {
        lists(self.primaries@, p.variant_text())
    }

    /// Perceptual intent is part of the protocol's baseline.
    pub open spec fn allows_intent(self, i: RenderIntent) -> bool {
        i == RenderIntent::Perceptual || lists(self.render_intents@, i.variant_text())
    }

    /// Whether the compositor advertised this optional feature.
    pub fn has_feature(&self, f: Feature) -> (res: bool)
        ensures
            res == self.advertises_feature(f),
    {
        listed(&self.features, f.variant())
    }

    /// Whether the compositor advertised this transfer function.
    pub fn has_tf(&self, tf: TransferFunction) -> (res: bool)
        ensures
            res == self.advertises_tf(tf),
    {
        listed(&self.transfer_functions, tf.variant())
    }

    /// Whether the compositor advertised these primaries.
    pub fn has_primaries(&self, p: Primaries) -> (res: bool)
        ensures
            res == self.advertises_primaries(p),
    {
        listed(&self.primaries, p.variant())
    }

    /// Whether the compositor advertised this render intent.
    pub fn has_intent(&self, i: RenderIntent) -> (res: bool)
        ensures
            res == lists(self.render_intents@, i.variant_text()),
    {
        listed(&self.render_intents, i.variant())
    }
}

// ---------------------------------------------------------------------------
// Validation
// ---------------------------------------------------------------------------

/// Why a description cannot be requested: it needs a value or a feature that
/// the compositor did not advertise, or a name that is not in the tables.
#[derive(Debug)]
pub enum AttachError {
    UnknownTransferFunction(String),
    UnknownPrimaries(String),
    UnknownRenderIntent(String),
    TfNotAdvertised(String),
    PrimariesNotAdvertised(String),
    IntentNotAdvertised(String),
    /// The protocol's name of the missing feature.
    FeatureNotAdvertised(&'static str),
    /// An exponent outside 1 to 10.
    PowerExponentOutOfRange(Double),
}

/// An [`AttachError`] by the contents of its texts.
pub ghost enum Refusal {
    UnknownTransferFunction(Seq<char>),
    UnknownPrimaries(Seq<char>),
    UnknownRenderIntent(Seq<char>),
    TfNotAdvertised(Seq<char>),
    PrimariesNotAdvertised(Seq<char>),
    IntentNotAdvertised(Seq<char>),
    FeatureNotAdvertised(Seq<char>),
    PowerExponentOutOfRange(Double),
}

impl View for AttachError {
    type V = Refusal;

    open spec fn view(&self) -> Refusal {
        match *self {
            AttachError::UnknownTransferFunction(n) => Refusal::UnknownTransferFunction(n@),
            AttachError::UnknownPrimaries(n) => Refusal::UnknownPrimaries(n@),
            AttachError::UnknownRenderIntent(n) => Refusal::UnknownRenderIntent(n@),
            AttachError::TfNotAdvertised(n) => Refusal::TfNotAdvertised(n@),
            AttachError::PrimariesNotAdvertised(n) => Refusal::PrimariesNotAdvertised(n@),
            AttachError::IntentNotAdvertised(n) => Refusal::IntentNotAdvertised(n@),
            AttachError::FeatureNotAdvertised(n) => Refusal::FeatureNotAdvertised(n@),
            AttachError::PowerExponentOutOfRange(e) => Refusal::PowerExponentOutOfRange(e),
        }
    }
}

/// The first of two refusals, if any.
pub open spec fn first_of(a: Option<Refusal>, b: Option<Refusal>) -> Option<Refusal> {
    if a is Some {
        a
    } else {
        b
    }
}

pub open spec fn feature_refusal(caps: ColorCapabilities, f: Feature) -> Option<Refusal> {
    if caps.advertises_feature(f) {
        None
    } else {
        Some(Refusal::FeatureNotAdvertised(f.name_text()))
    }
}

pub open spec fn intent_refusal(caps: ColorCapabilities, name: Seq<char>) -> Option<Refusal> {
    if !exists|i: RenderIntent| #[trigger] i.name_text() == name {
        Some(Refusal::UnknownRenderIntent(name))
    } else if !exists|i: RenderIntent| #[trigger] i.name_text() == name && caps.allows_intent(i) {
        Some(Refusal::IntentNotAdvertised(name))
    } else {
        None
    }
}

pub open spec fn transfer_refusal(caps: ColorCapabilities, t: TransferChoice) -> Option<Refusal> {
    match t {
        TransferChoice::Named(name) => if !exists|f: TransferFunction|
            #[trigger] f.name_text() == name@ {
            Some(Refusal::UnknownTransferFunction(name@))
        } else if !exists|f: TransferFunction| #[trigger]
            f.name_text() == name@ && caps.advertises_tf(f) {
            Some(Refusal::TfNotAdvertised(name@))
        } else {
            None
        },
        TransferChoice::Power(e) => if !(ONE_BITS <= e.bits <= TEN_BITS) {
            Some(Refusal::PowerExponentOutOfRange(e))
        } else {
            feature_refusal(caps, Feature::SetTfPower)
        },
    }
}

pub open spec fn primaries_refusal(caps: ColorCapabilities, p: PrimariesChoice) -> Option<Refusal> {
    match p {
        PrimariesChoice::Named(name) => if !exists|f: Primaries| #[trigger] f.name_text() == name@ {
            Some(Refusal::UnknownPrimaries(name@))
        } else if !exists|f: Primaries| #[trigger]
            f.name_text() == name@ && caps.advertises_primaries(f) {
            Some(Refusal::PrimariesNotAdvertised(name@))
        } else {
            None
        },
        PrimariesChoice::Custom(_) => feature_refusal(caps, Feature::SetPrimaries),
    }
}

/// Mastering luminance or primaries are present.
pub open spec fn masters_display(m: Option<Mastering>) -> bool {
    m matches Some(m) && (m.luminance_nits is Some || m.primaries is Some)
}

pub open spec fn parametric_refusal(caps: ColorCapabilities, p: ParametricDescription) -> Option<
    Refusal,
> {
    first_of(
        feature_refusal(caps, Feature::Parametric),
        first_of(
            transfer_refusal(caps, p.transfer_function),
            first_of(
                primaries_refusal(caps, p.primaries),
                first_of(
                    if p.luminances is Some {
                        feature_refusal(caps, Feature::SetLuminances)
                    } else {
                        None
                    },
                    if masters_display(p.mastering) {
                        feature_refusal(caps, Feature::SetMasteringDisplayPrimaries)
                    } else {
                        None
                    },
                ),
            ),
        ),
    )
}

/// The first reason to refuse a description: its render intent, then its
/// transfer function, primaries, luminances and mastering metadata in turn.
pub open spec fn refusal(req: DescriptionRequest, caps: ColorCapabilities) -> Option<Refusal> {
    first_of(
        intent_refusal(caps, req.render_intent@),
        match req.kind {
            DescriptionKind::Parametric(p) => parametric_refusal(caps, p),
            DescriptionKind::WindowsScrgb => feature_refusal(caps, Feature::WindowsScrgb),
        },
    )
}

/// A check that is refused for `refusal`, or passes if there is none.
pub open spec fn decides(res: Result<(), AttachError>, refusal: Option<Refusal>) -> bool {
    match res {
        Ok(_) => refusal is None,
        Err(e) => refusal == Some(e@),
    }
}

fn require_feature(caps: &ColorCapabilities, f: Feature, name: &'static str) -> (res: Result<
    (),
    AttachError,
>)
    requires
        name@ == f.name_text(),
    ensures
        decides(res, feature_refusal(*caps, f)),
{
    if caps.has_feature(f) {
        Ok(())
    } else {
        Err(AttachError::FeatureNotAdvertised(name))
    }
}

fn check_intent(caps: &ColorCapabilities, name: &String) -> (res: Result<RenderIntent, AttachError>)
    ensures
        match res {
            Ok(i) => {
                &&& intent_refusal(*caps, name@) is None
                &&& i.name_text() == name@
                &&& caps.allows_intent(i)
            },
            Err(e) => intent_refusal(*caps, name@) == Some(e@),
        },
{
    match intent_named(name.as_str()) {
        None => Err(AttachError::UnknownRenderIntent(name.clone())),
        Some(i) => {
            if i != RenderIntent::Perceptual && !caps.has_intent(i) {
                proof {
                    assert forall|k: RenderIntent| #[trigger]
                        k.name_text() == name@ implies !caps.allows_intent(k) by {
                        intent_names_are_distinct(i, k);
                    }
                }
                Err(AttachError::IntentNotAdvertised(name.clone()))
            } else {
                Ok(i)
            }
        },
    }
}

fn check_transfer(caps: &ColorCapabilities, t: &TransferChoice) -> (res: Result<(), AttachError>)
    ensures
        decides(res, transfer_refusal(*caps, *t)),
{
    match t {
        TransferChoice::Named(name) => match tf_named(name.as_str()) {
            None => Err(AttachError::UnknownTransferFunction(name.clone())),
            Some(tf) => {
                if caps.has_tf(tf) {
                    Ok(())
                } else {
                    proof {
                        assert forall|k: TransferFunction| #[trigger]
                            k.name_text() == name@ implies !caps.advertises_tf(k) by {
                            tf_names_are_distinct(tf, k);
                        }
                    }
                    Err(AttachError::TfNotAdvertised(name.clone()))
                }
            },
        },
        TransferChoice::Power(e) => {
            if e.bits < ONE_BITS || e.bits > TEN_BITS {
                Err(AttachError::PowerExponentOutOfRange(*e))
            } else {
                require_feature(caps, Feature::SetTfPower, "set_tf_power")
            }
        },
    }
}

fn check_primaries(caps: &ColorCapabilities, p: &PrimariesChoice) -> (res: Result<(), AttachError>)
    ensures
        decides(res, primaries_refusal(*caps, *p)),
{
    match p {
        PrimariesChoice::Named(name) => match primaries_named(name.as_str()) {
            None => Err(AttachError::UnknownPrimaries(name.clone())),
            Some(pr) => {
                if caps.has_primaries(pr) {
                    Ok(())
                } else {
                    proof {
                        assert forall|k: Primaries| #[trigger]
                            k.name_text() == name@ implies !caps.advertises_primaries(k) by {
                            primaries_names_are_distinct(pr, k);
                        }
                    }
                    Err(AttachError::PrimariesNotAdvertised(name.clone()))
                }
            },
        },
        PrimariesChoice::Custom(_) => require_feature(caps, Feature::SetPrimaries, "set_primaries"),
    }
}

fn check_parametric(caps: &ColorCapabilities, p: &ParametricDescription) -> (res: Result<
    (),
    AttachError,
>)
    ensures
        decides(res, parametric_refusal(*caps, *p)),
{
    require_feature(caps, Feature::Parametric, "parametric")?;
    check_transfer(caps, &p.transfer_function)?;
    check_primaries(caps, &p.primaries)?;
    if p.luminances.is_some() {
        require_feature(caps, Feature::SetLuminances, "set_luminances")?;
    }
    match &p.mastering {
        Some(m) => {
            if m.luminance_nits.is_some() || m.primaries.is_some() {
                require_feature(
                    caps,
                    Feature::SetMasteringDisplayPrimaries,
                    "set_mastering_display_primaries",
                )
            } else {
                Ok(())
            }
        },
        None => Ok(()),
    }
}

/// Checks a description against what the compositor advertised, without sending
/// anything.
pub fn validate_description(req: &DescriptionRequest, caps: &ColorCapabilities) -> (res: Result<
    (),
    AttachError,
>)
    ensures
        decides(res, refusal(*req, *caps)),
{
    match check_intent(caps, &req.render_intent) {
        Err(e) => Err(e),
        Ok(_) => match &req.kind {
            DescriptionKind::Parametric(p) => check_parametric(caps, p),
            DescriptionKind::WindowsScrgb => require_feature(
                caps,
                Feature::WindowsScrgb,
                "windows_scrgb",
            ),
        },
    }
}

// ---------------------------------------------------------------------------
// Telling why
// ---------------------------------------------------------------------------

impl Refusal {
    /// A short reason.
    pub open spec fn reason_text(self) -> Seq<char> {
        match self {
            Refusal::UnknownTransferFunction(n) => "TF "@ + n + " unsupported"@,
            Refusal::TfNotAdvertised(n) => "TF "@ + n + " unsupported"@,
            Refusal::UnknownPrimaries(n) => "primaries "@ + n + " unsupported"@,
            Refusal::PrimariesNotAdvertised(n) => "primaries "@ + n + " unsupported"@,
            Refusal::UnknownRenderIntent(n) => "intent "@ + n + " unsupported"@,
            Refusal::IntentNotAdvertised(n) => "intent "@ + n + " unsupported"@,
            Refusal::FeatureNotAdvertised(f) => "no "@ + f + " feature"@,
            Refusal::PowerExponentOutOfRange(_) => "power exponent out of range"@,
        }
    }

    /// The full message, with the exponent as it is printed.
    pub open spec fn message_text(self, exponent: Seq<char>) -> Seq<char> {
        match self {
            Refusal::UnknownTransferFunction(n) =>
                "transfer function name not mapped by this build: "@ + debug_text(n),
            Refusal::UnknownPrimaries(n) => "primaries name not mapped by this build: "@
                + debug_text(n),
            Refusal::UnknownRenderIntent(n) => "render intent name not mapped by this build: "@
                + debug_text(n),
            Refusal::TfNotAdvertised(n) => "compositor doesn't advertise transfer function "@
                + debug_text(n),
            Refusal::PrimariesNotAdvertised(n) => "compositor doesn't advertise primaries "@
                + debug_text(n),
            Refusal::IntentNotAdvertised(n) => "compositor doesn't advertise render intent "@
                + debug_text(n),
            Refusal::FeatureNotAdvertised(n) => "compositor doesn't advertise the "@ + debug_text(n)
                + " feature"@,
            Refusal::PowerExponentOutOfRange(_) => "power-TF exponent "@ + exponent
                + " outside the protocol range 1.0..=10.0"@,
        }
    }
}

impl AttachError {
    /// A short reason, fit to stand next to a disabled mode toggle.
    pub fn reason(&self) -> (res: String)
        ensures
            res@ == self@.reason_text(),
    {
        match self {
            AttachError::UnknownTransferFunction(n) => between("TF ", n.as_str(), " unsupported"),
            AttachError::TfNotAdvertised(n) => between("TF ", n.as_str(), " unsupported"),
            AttachError::UnknownPrimaries(n) => between("primaries ", n.as_str(), " unsupported"),
            AttachError::PrimariesNotAdvertised(n) => between(
                "primaries ",
                n.as_str(),
                " unsupported",
            ),
            AttachError::UnknownRenderIntent(n) => between("intent ", n.as_str(), " unsupported"),
            AttachError::IntentNotAdvertised(n) => between("intent ", n.as_str(), " unsupported"),
            AttachError::FeatureNotAdvertised(f) => between("no ", f, " feature"),
            AttachError::PowerExponentOutOfRange(_) => "power exponent out of range".to_owned(),
        }
    }

    /// The full message. `exponent` is how a refused exponent is printed.
    pub fn message(&self, exponent: &str) -> (res: String)
        ensures
            res@ == self@.message_text(exponent@),
    {
        match self {
            AttachError::UnknownTransferFunction(n) => ahead_of(
                "transfer function name not mapped by this build: ",
                n.as_str(),
            ),
            AttachError::UnknownPrimaries(n) => ahead_of(
                "primaries name not mapped by this build: ",
                n.as_str(),
            ),
            AttachError::UnknownRenderIntent(n) => ahead_of(
                "render intent name not mapped by this build: ",
                n.as_str(),
            ),
            AttachError::TfNotAdvertised(n) => ahead_of(
                "compositor doesn't advertise transfer function ",
                n.as_str(),
            ),
            AttachError::PrimariesNotAdvertised(n) => ahead_of(
                "compositor doesn't advertise primaries ",
                n.as_str(),
            ),
            AttachError::IntentNotAdvertised(n) => ahead_of(
                "compositor doesn't advertise render intent ",
                n.as_str(),
            ),
            AttachError::FeatureNotAdvertised(n) => around(
                "compositor doesn't advertise the ",
                n,
                " feature",
            ),
            AttachError::PowerExponentOutOfRange(_) => between(
                "power-TF exponent ",
                exponent,
                " outside the protocol range 1.0..=10.0",
            ),
        }
    }
}

// ---------------------------------------------------------------------------
// Attaching
// ---------------------------------------------------------------------------

/// The least luminance in the protocol's units, ten-thousandths of a nit.
pub fn nits_to_min_ticks(nits: Double) -> (res: u32)
    ensures
        res == to_unsigned(nits, 10_000, u32::MAX as u64),
{
    unsigned(nits, 10_000, u32::MAX as u64) as u32
}

/// A luminance in the protocol's units, whole nits.
pub fn nits_to_lum(nits: Double) -> (res: u32)
    ensures
        res == to_unsigned(nits, 1, u32::MAX as u64),
{
    unsigned(nits, 1, u32::MAX as u64) as u32
}

/// A chromaticity coordinate in the protocol's units, millionths.
pub fn coord_to_protocol(v: Double) -> (res: i32)
    ensures
        res == to_signed(v, 1_000_000),
{
    signed(v, 1_000_000)
}

/// An exponent in the protocol's units, ten-thousandths.
pub fn power_to_protocol(exponent: Double) -> (res: u32)
    ensures
        res == to_unsigned(exponent, 10_000, u32::MAX as u64),
{
    unsigned(exponent, 10_000, u32::MAX as u64) as u32
}

/// One request to the parametric description creator.
#[derive(Clone, Copy, Debug, PartialEq, Eq, Structural)]
pub enum CreatorRequest {
    SetTfNamed(TransferFunction),
    SetTfPower(Double),
    SetPrimariesNamed(Primaries),
    SetPrimaries(PrimaryCoords),
    SetLuminances(Luminances),
    SetMasteringLuminance(Pair),
    SetMasteringDisplayPrimaries(PrimaryCoords),
    SetMaxCll(Double),
    SetMaxFall(Double),
}

/// How to build and attach a description: the creator's requests in order, or
/// none for the built-in description, and the render intent.
#[derive(Debug)]
pub struct AttachPlan {
    pub creator: Option<Vec<CreatorRequest>>,
    pub intent: RenderIntent,
}

/// The request as a sequence of at most one.
pub open spec fn at_most_one<A, B>(x: Option<A>, f: spec_fn(A) -> B) -> Seq<B> {
    match x {
        Some(a) => seq![f(a)],
        None => seq![],
    }
}

pub open spec fn transfer_named(name: Seq<char>) -> TransferFunction {
    choose|f: TransferFunction| #[trigger] f.name_text() == name
}

pub open spec fn primaries_of_name(name: Seq<char>) -> Primaries {
    choose|f: Primaries| #[trigger] f.name_text() == name
}

pub open spec fn transfer_request(t: TransferChoice) -> CreatorRequest {
    match t {
        TransferChoice::Named(name) => CreatorRequest::SetTfNamed(transfer_named(name@)),
        TransferChoice::Power(e) => CreatorRequest::SetTfPower(e),
    }
}

pub open spec fn primaries_request(p: PrimariesChoice) -> CreatorRequest {
    match p {
        PrimariesChoice::Named(name) => CreatorRequest::SetPrimariesNamed(primaries_of_name(name@)),
        PrimariesChoice::Custom(c) => CreatorRequest::SetPrimaries(c),
    }
}

pub open spec fn luminance_requests(l: Option<Luminances>) -> Seq<CreatorRequest> {
    at_most_one(l, |l: Luminances| CreatorRequest::SetLuminances(l))
}

pub open spec fn mastering_requests(m: Mastering) -> Seq<CreatorRequest> {
    at_most_one(m.luminance_nits, |l: Pair| CreatorRequest::SetMasteringLuminance(l)) + at_most_one(
        m.primaries,
        |c: PrimaryCoords| CreatorRequest::SetMasteringDisplayPrimaries(c),
    ) + at_most_one(m.max_cll_nits, |n: Double| CreatorRequest::SetMaxCll(n)) + at_most_one(
        m.max_fall_nits,
        |n: Double| CreatorRequest::SetMaxFall(n),
    )
}

/// The requests that build a parametric description.
pub open spec fn creator_requests(p: ParametricDescription) -> Seq<CreatorRequest> {
    seq![transfer_request(p.transfer_function), primaries_request(p.primaries)] + luminance_requests(
        p.luminances,
    ) + match p.mastering {
        None => seq![],
        Some(m) => mastering_requests(m),
    }
}

/// The plan that attaches an allowed description.
pub open spec fn attaches(plan: AttachPlan, req: DescriptionRequest) -> bool {
    &&& plan.intent.name_text() == req.render_intent@
    &&& match req.kind {
        DescriptionKind::Parametric(p) => plan.creator matches Some(c) && c@ == creator_requests(p),
        DescriptionKind::WindowsScrgb => plan.creator is None,
    }
}

fn push_some(out: &mut Vec<CreatorRequest>, r: Option<CreatorRequest>)
    ensures
        final(out)@ == old(out)@ + at_most_one(r, |x: CreatorRequest| x),
{
    if let Some(r) = r {
        out.push(r);
    }
    assert(out@ == old(out)@ + at_most_one(r, |x: CreatorRequest| x));
}

fn list_transfer(t: &TransferChoice, caps: &ColorCapabilities) -> (res: CreatorRequest)
    requires
        transfer_refusal(*caps, *t) is None,
    ensures
        res == transfer_request(*t),
{
    match t {
        TransferChoice::Named(name) => {
            let tf: TransferFunction = match tf_named(name.as_str()) {
                Some(tf) => tf,
                None => TransferFunction::Srgb,
            };
            proof {
                tf_names_are_distinct(tf, transfer_named(name@));
            }
            CreatorRequest::SetTfNamed(tf)
        },
        TransferChoice::Power(e) => CreatorRequest::SetTfPower(*e),
    }
}

fn list_primaries(p: &PrimariesChoice, caps: &ColorCapabilities) -> (res: CreatorRequest)
    requires
        primaries_refusal(*caps, *p) is None,
    ensures
        res == primaries_request(*p),
{
    match p {
        PrimariesChoice::Named(name) => {
            let pr: Primaries = match primaries_named(name.as_str()) {
                Some(pr) => pr,
                None => Primaries::Srgb,
            };
            proof {
                primaries_names_are_distinct(pr, primaries_of_name(name@));
            }
            CreatorRequest::SetPrimariesNamed(pr)
        },
        PrimariesChoice::Custom(c) => CreatorRequest::SetPrimaries(*c),
    }
}

fn list_mastering(out: &mut Vec<CreatorRequest>, m: Mastering)
    ensures
        final(out)@ == old(out)@ + mastering_requests(m),
{
    let ghost start = out@;
    push_some(
        out,
        match m.luminance_nits {
            Some(l) => Some(CreatorRequest::SetMasteringLuminance(l)),
            None => None,
        },
    );
    let ghost a = at_most_one(m.luminance_nits, |l: Pair| CreatorRequest::SetMasteringLuminance(l));
    assert(out@ == start + a);
    push_some(
        out,
        match m.primaries {
            Some(c) => Some(CreatorRequest::SetMasteringDisplayPrimaries(c)),
            None => None,
        },
    );
    let ghost b = at_most_one(
        m.primaries,
        |c: PrimaryCoords| CreatorRequest::SetMasteringDisplayPrimaries(c),
    );
    assert(out@ == start + a + b);
    push_some(
        out,
        match m.max_cll_nits {
            Some(n) => Some(CreatorRequest::SetMaxCll(n)),
            None => None,
        },
    );
    let ghost c = at_most_one(m.max_cll_nits, |n: Double| CreatorRequest::SetMaxCll(n));
    assert(out@ == start + a + b + c);
    push_some(
        out,
        match m.max_fall_nits {
            Some(n) => Some(CreatorRequest::SetMaxFall(n)),
            None => None,
        },
    );
    let ghost d = at_most_one(m.max_fall_nits, |n: Double| CreatorRequest::SetMaxFall(n));
    assert(out@ == start + a + b + c + d);
    assert(start + a + b + c + d == start + (a + b + c + d));
}

fn list_requests(p: &ParametricDescription, caps: &ColorCapabilities) -> (res: Vec<CreatorRequest>)
    requires
        parametric_refusal(*caps, *p) is None,
    ensures
        res@ == creator_requests(*p),
{
    let mut out: Vec<CreatorRequest> = Vec::new();
    out.push(list_transfer(&p.transfer_function, caps));
    out.push(list_primaries(&p.primaries, caps));
    let ghost head = seq![transfer_request(p.transfer_function), primaries_request(p.primaries)];
    assert(out@ == head);
    push_some(
        &mut out,
        match p.luminances {
            Some(l) => Some(CreatorRequest::SetLuminances(l)),
            None => None,
        },
    );
    assert(out@ == head + luminance_requests(p.luminances));
    if let Some(m) = p.mastering {
        list_mastering(&mut out, m);
    }
    assert(out@ == creator_requests(*p));
    out
}

/// Plans how to attach a description, refusing what the compositor does not
/// support. Everything is checked before anything is sent.
pub fn attach_plan(req: &DescriptionRequest, caps: &ColorCapabilities) -> (res: Result<
    AttachPlan,
    AttachError,
>)
    ensures
        match res {
            Ok(plan) => refusal(*req, *caps) is None && attaches(plan, *req),
            Err(e) => refusal(*req, *caps) == Some(e@),
        },
{
    match check_intent(caps, &req.render_intent) {
        Err(e) => Err(e),
        Ok(intent) => match validate_description(req, caps) {
            Err(e) => Err(e),
            Ok(_) => match &req.kind {
                DescriptionKind::Parametric(p) => Ok(
                    AttachPlan { creator: Some(list_requests(p, caps)), intent },
                ),
                DescriptionKind::WindowsScrgb => Ok(AttachPlan { creator: None, intent }),
            },
        },
    }
}

/// A request that the compositor's advertisements allow.
pub open spec fn allowed(r: CreatorRequest, caps: ColorCapabilities) -> bool {
    match r {
        CreatorRequest::SetTfNamed(t) => caps.advertises_tf(t),
        CreatorRequest::SetTfPower(e) => caps.advertises_feature(Feature::SetTfPower) && ONE_BITS
            <= e.bits <= TEN_BITS,
        CreatorRequest::SetPrimariesNamed(p) => caps.advertises_primaries(p),
        CreatorRequest::SetPrimaries(_) => caps.advertises_feature(Feature::SetPrimaries),
        CreatorRequest::SetLuminances(_) => caps.advertises_feature(Feature::SetLuminances),
        CreatorRequest::SetMasteringLuminance(_) => caps.advertises_feature(
            Feature::SetMasteringDisplayPrimaries,
        ),
        CreatorRequest::SetMasteringDisplayPrimaries(_) => caps.advertises_feature(
            Feature::SetMasteringDisplayPrimaries,
        ),
        CreatorRequest::SetMaxCll(_) => true,
        CreatorRequest::SetMaxFall(_) => true,
    }
}

/// Nothing is sent that the compositor did not advertise: every request of an
/// allowed description is allowed, and so are its kind and its render intent.
pub proof fn only_advertised_requests_are_sent(
    req: DescriptionRequest,
    caps: ColorCapabilities,
    plan: AttachPlan,
)
    requires
        refusal(req, caps) is None,
        attaches(plan, req),
    ensures
        caps.allows_intent(plan.intent),
        match plan.creator {
            Some(requests) => {
                &&& caps.advertises_feature(Feature::Parametric)
                &&& forall|i: int|
                    0 <= i < requests@.len() ==> allowed(#[trigger] requests@[i], caps)
            },
            None => caps.advertises_feature(Feature::WindowsScrgb),
        },
{
    let k = choose|k: RenderIntent| #[trigger]
        k.name_text() == req.render_intent@ && caps.allows_intent(k);
    intent_names_are_distinct(plan.intent, k);
    if let DescriptionKind::Parametric(p) = req.kind {
        if let TransferChoice::Named(name) = p.transfer_function {
            let t = choose|t: TransferFunction| #[trigger]
                t.name_text() == name@ && caps.advertises_tf(t);
            tf_names_are_distinct(t, transfer_named(name@));
        }
        if let PrimariesChoice::Named(name) = p.primaries {
            let t = choose|t: Primaries| #[trigger]
                t.name_text() == name@ && caps.advertises_primaries(t);
            primaries_names_are_distinct(t, primaries_of_name(name@));
        }
        let head = seq![transfer_request(p.transfer_function), primaries_request(p.primaries)];
        let lum = luminance_requests(p.luminances);
        assert(all_allowed(head, caps));
        assert(all_allowed(lum, caps));
        lemma_all_allowed(head, lum, caps);
        match p.mastering {
            None => {
                lemma_all_allowed(head + lum, seq![], caps);
            },
            Some(m) => {
                lemma_mastering_allowed(m, caps);
                lemma_all_allowed(head + lum, mastering_requests(m), caps);
            },
        }
    }
}

spec fn all_allowed(s: Seq<CreatorRequest>, caps: ColorCapabilities) -> bool {
    forall|i: int| 0 <= i < s.len() ==> allowed(#[trigger] s[i], caps)
}

proof fn lemma_all_allowed(s: Seq<CreatorRequest>, t: Seq<CreatorRequest>, caps: ColorCapabilities)
    requires
        all_allowed(s, caps),
        all_allowed(t, caps),
    ensures
        all_allowed(s + t, caps),
{
    assert forall|i: int| 0 <= i < (s + t).len() implies allowed(#[trigger] (s + t)[i], caps) by {
        if i < s.len() {
            assert((s + t)[i] == s[i]);
        } else {
            assert((s + t)[i] == t[i - s.len()]);
        }
    }
}

proof fn lemma_mastering_allowed(m: Mastering, caps: ColorCapabilities)
    requires
        masters_display(Some(m)) ==> caps.advertises_feature(Feature::SetMasteringDisplayPrimaries),
    ensures
        all_allowed(mastering_requests(m), caps),
{
    let a = at_most_one(m.luminance_nits, |l: Pair| CreatorRequest::SetMasteringLuminance(l));
    let b = at_most_one(
        m.primaries,
        |c: PrimaryCoords| CreatorRequest::SetMasteringDisplayPrimaries(c),
    );
    let c = at_most_one(m.max_cll_nits, |n: Double| CreatorRequest::SetMaxCll(n));
    let d = at_most_one(m.max_fall_nits, |n: Double| CreatorRequest::SetMaxFall(n));
    assert(all_allowed(a, caps));
    assert(all_allowed(b, caps));
    assert(all_allowed(c, caps));
    assert(all_allowed(d, caps));
    lemma_all_allowed(a, b, caps);
    lemma_all_allowed(a + b, c, caps);
    lemma_all_allowed(a + b + c, d, caps);
}

// ---------------------------------------------------------------------------
// Events
// ---------------------------------------------------------------------------

/// A value of an enumeration event: one that has a name, or a bare number.
#[derive(Debug)]
pub enum Advertised {
    Known(String),
    Unknown(u32),
}

/// An enumeration event of the colour manager.
#[derive(Debug)]
pub enum ManagerEvent {
    SupportedIntent(Advertised),
    SupportedFeature(Advertised),
    SupportedTfNamed(Advertised),
    SupportedPrimariesNamed(Advertised),
    Done,
    /// Any other event.
    Other,
}

impl Advertised {
    pub open spec fn text(self) -> Seq<char> {
        match self {
            Advertised::Known(name) => name@,
            Advertised::Unknown(n) => "unknown("@ + decimal_text(n as nat) + ")"@,
        }
    }

    /// The value as capability lists hold it.
    pub fn into_text(self) -> (res: String)
        ensures
            res@ == self.text(),
    {
        match self {
            Advertised::Known(name) => name,
            Advertised::Unknown(n) => between("unknown(", decimal(n as u64).as_str(), ")"),
        }
    }
}

/// The lists of a capability record, by content.
pub ghost struct CapabilityTexts {
    pub transfer_functions: Seq<Seq<char>>,
    pub primaries: Seq<Seq<char>>,
    pub features: Seq<Seq<char>>,
    pub render_intents: Seq<Seq<char>>,
    pub done: bool,
}

impl View for ColorCapabilities {
    type V = CapabilityTexts;

    open spec fn view(&self) -> CapabilityTexts {
        CapabilityTexts {
            transfer_functions: views(self.transfer_functions@),
            primaries: views(self.primaries@),
            features: views(self.features@),
            render_intents: views(self.render_intents@),
            done: self.done,
        }
    }
}

impl CapabilityTexts {
    /// The record after an enumeration event.
    pub open spec fn after(self, event: ManagerEvent) -> CapabilityTexts {
        match event {
            ManagerEvent::SupportedIntent(a) => CapabilityTexts {
                render_intents: self.render_intents.push(a.text()),
                ..self
            },
            ManagerEvent::SupportedFeature(a) => CapabilityTexts {
                features: self.features.push(a.text()),
                ..self
            },
            ManagerEvent::SupportedTfNamed(a) => CapabilityTexts {
                transfer_functions: self.transfer_functions.push(a.text()),
                ..self
            },
            ManagerEvent::SupportedPrimariesNamed(a) => CapabilityTexts {
                primaries: self.primaries.push(a.text()),
                ..self
            },
            ManagerEvent::Done => CapabilityTexts { done: true, ..self },
            ManagerEvent::Other => self,
        }
    }
}

/// Adds an enumeration event of the manager to what is known of the compositor.
pub fn handle_manager_event(event: ManagerEvent, caps: &mut ColorCapabilities)
    ensures
        final(caps)@ == old(caps)@.after(event),
{
    match event {
        ManagerEvent::SupportedIntent(a) => {
            caps.render_intents.push(a.into_text());
        },
        ManagerEvent::SupportedFeature(a) => {
            caps.features.push(a.into_text());
        },
        ManagerEvent::SupportedTfNamed(a) => {
            caps.transfer_functions.push(a.into_text());
        },
        ManagerEvent::SupportedPrimariesNamed(a) => {
            caps.primaries.push(a.into_text());
        },
        ManagerEvent::Done => {
            caps.done = true;
        },
        ManagerEvent::Other => {},
    }
    assert(caps@.render_intents == old(caps)@.after(event).render_intents);
    assert(caps@.features == old(caps)@.after(event).features);
    assert(caps@.transfer_functions == old(caps)@.after(event).transfer_functions);
    assert(caps@.primaries == old(caps)@.after(event).primaries);
}

/// Outcome of building an image description.
#[derive(Debug)]
pub enum DescriptionState {
    Pending,
    /// The compositor accepted the description under this identity.
    Ready { identity: u64 },
    /// The compositor rejected the description, for a cause by the protocol's
    /// name for it.
    Failed { cause: String, message: String },
}

/// The protocol's name for the cause of a failure, by its code.
pub open spec fn cause_text(code: u32) -> Seq<char> {
    if code == 0 {
        "low_version"@
    } else if code == 1 {
        "unsupported"@
    } else if code == 2 {
        "operating_system"@
    } else if code == 3 {
        "no_output"@
    } else {
        "unknown("@ + decimal_text(code as nat) + ")"@
    }
}

/// Names the cause of a failure.
pub fn cause_name(code: u32) -> (res: String)
    ensures
        res@ == cause_text(code),
{
    match code {
        0 => "low_version".to_owned(),
        1 => "unsupported".to_owned(),
        2 => "operating_system".to_owned(),
        3 => "no_output".to_owned(),
        n => between("unknown(", decimal(n as u64).as_str(), ")"),
    }
}

/// An event of an image description.
#[derive(Debug)]
pub enum DescriptionEvent {
    Ready { identity: u32 },
    Ready2 { identity_hi: u32, identity_lo: u32 },
    /// A failure, with the code of its cause.
    Failed { cause: u32, message: String },
    /// Any other event.
    Other,
}

/// Updates the state of a description by an event.
pub fn handle_description_event(event: DescriptionEvent, state: &mut DescriptionState)
    ensures
        match event {
            DescriptionEvent::Ready { identity } => *final(state) == (DescriptionState::Ready {
                identity: identity as u64,
            }),
            DescriptionEvent::Ready2 { identity_hi, identity_lo } => *final(state) matches
                DescriptionState::Ready { identity } && identity == identity_hi * 0x1_0000_0000
                + identity_lo,
            DescriptionEvent::Failed { cause, message } => *final(state) matches
                DescriptionState::Failed { cause: c, message: m } && c@ == cause_text(cause) && m@
                == message@,
            DescriptionEvent::Other => *final(state) == *old(state),
        },
{
    match event {
        DescriptionEvent::Ready { identity } => {
            *state = DescriptionState::Ready { identity: identity as u64 };
        },
        DescriptionEvent::Ready2 { identity_hi, identity_lo } => {
            *state = DescriptionState::Ready {
                identity: identity_hi as u64 * 0x1_0000_0000 + identity_lo as u64,
            };
        },
        DescriptionEvent::Failed { cause, message } => {
            *state = DescriptionState::Failed { cause: cause_name(cause), message };
        },
        DescriptionEvent::Other => {},
    }
}

// ---------------------------------------------------------------------------
// What is asked of the compositor
// ---------------------------------------------------------------------------

/// A compositor advertised the transfer function under one of its names.
pub open spec fn offers_transfer(caps: ColorCapabilities, name: Seq<char>) -> bool {
    exists|t: TransferFunction| #[trigger]
        t.name_text() == name && views(caps.transfer_functions@).contains(t.variant_text())
}

/// A compositor advertised the primaries under one of their names.
pub open spec fn offers_primaries(caps: ColorCapabilities, name: Seq<char>) -> bool {
    exists|p: Primaries| #[trigger]
        p.name_text() == name && views(caps.primaries@).contains(p.variant_text())
}

/// A compositor takes the render intent: the perceptual one always, any other only if
/// it was advertised.
pub open spec fn offers_intent(caps: ColorCapabilities, name: Seq<char>) -> bool {
    name == "perceptual"@ || exists|i: RenderIntent| #[trigger]
        i.name_text() == name && views(caps.render_intents@).contains(i.variant_text())
}

pub open spec fn offers_feature(caps: ColorCapabilities, variant: Seq<char>) -> bool {
    views(caps.features@).contains(variant)
}

/// A description is taken exactly if each of its parts is on offer. What is asked for
/// by name needs that name among those of its own kind, whatever else is on offer;
/// what is given in numbers needs the feature for it.
pub proof fn descriptions_need_all_their_parts(
    req: DescriptionRequest,
    caps: ColorCapabilities,
    res: Result<(), AttachError>,
)
    requires
        call_ensures(validate_description, (&req, &caps), res),
    ensures
        req.kind is WindowsScrgb ==> (res is Ok <==> offers_intent(caps, req.render_intent@)
            && offers_feature(caps, "WindowsScrgb"@)),
        req.kind matches DescriptionKind::Parametric(p) ==> (res is Ok <==> {
            &&& offers_intent(caps, req.render_intent@)
            &&& offers_feature(caps, "Parametric"@)
            &&& match p.transfer_function {
                TransferChoice::Named(n) => offers_transfer(caps, n@),
                TransferChoice::Power(e) => {
                    &&& 0x3ff0_0000_0000_0000 <= e.bits <= 0x4024_0000_0000_0000
                    &&& offers_feature(caps, "SetTfPower"@)
                },
            }
            &&& match p.primaries {
                PrimariesChoice::Named(n) => offers_primaries(caps, n@),
                PrimariesChoice::Custom(_) => offers_feature(caps, "SetPrimaries"@),
            }
            &&& p.luminances is Some ==> offers_feature(caps, "SetLuminances"@)
            &&& p.mastering is Some && (p.mastering->0.luminance_nits is Some
                || p.mastering->0.primaries is Some) ==> offers_feature(
                caps,
                "SetMasteringDisplayPrimaries"@,
            )
        }),
{
    assert(RenderIntent::Perceptual.name_text() == "perceptual"@);
    if req.render_intent@ == "perceptual"@ {
        assert(caps.allows_intent(RenderIntent::Perceptual));
    }
    assert forall|i: RenderIntent| #[trigger]
        i.name_text() == req.render_intent@ && caps.allows_intent(i) implies offers_intent(
        caps,
        req.render_intent@,
    ) by {}
    if offers_intent(caps, req.render_intent@) && req.render_intent@ != "perceptual"@ {
        let i = choose|i: RenderIntent| #[trigger]
            i.name_text() == req.render_intent@ && views(caps.render_intents@).contains(
                i.variant_text(),
            );
        assert(caps.allows_intent(i));
    }
    if let DescriptionKind::Parametric(p) = req.kind {
        if let TransferChoice::Named(n) = p.transfer_function {
            assert forall|t: TransferFunction| #[trigger]
                t.name_text() == n@ && caps.advertises_tf(t) implies offers_transfer(caps, n@) by {}
            if offers_transfer(caps, n@) {
                let t = choose|t: TransferFunction| #[trigger]
                    t.name_text() == n@ && views(caps.transfer_functions@).contains(
                        t.variant_text(),
                    );
                assert(caps.advertises_tf(t));
            }
        }
        if let PrimariesChoice::Named(n) = p.primaries {
            assert forall|t: Primaries| #[trigger]
                t.name_text() == n@ && caps.advertises_primaries(t) implies offers_primaries(
                caps,
                n@,
            ) by {}
            if offers_primaries(caps, n@) {
                let t = choose|t: Primaries| #[trigger]
                    t.name_text() == n@ && views(caps.primaries@).contains(t.variant_text());
                assert(caps.advertises_primaries(t));
            }
        }
    }
}

/// A refusal names what is missing: the intent, the transfer function or the primaries
/// of the request by their own names, as unknown exactly if no value has that name.
pub proof fn refusals_name_what_is_missing(
    req: DescriptionRequest,
    caps: ColorCapabilities,
    e: AttachError,
)
    requires
        call_ensures(validate_description, (&req, &caps), Err::<(), AttachError>(e)),
    ensures
        !offers_intent(caps, req.render_intent@) <==> (e is UnknownRenderIntent
            || e is IntentNotAdvertised),
        e matches AttachError::UnknownRenderIntent(n) ==> n@ == req.render_intent@
            && forall|i: RenderIntent| #[trigger] i.name_text() != n@,
        e matches AttachError::IntentNotAdvertised(n) ==> n@ == req.render_intent@
            && exists|i: RenderIntent| #[trigger] i.name_text() == n@,
        e is UnknownTransferFunction || e is TfNotAdvertised ==> {
            &&& req.kind is Parametric
            &&& req.kind->0.transfer_function is Named
            &&& !offers_transfer(caps, req.kind->0.transfer_function->Named_0@)
        },
        e matches AttachError::UnknownTransferFunction(n) ==> {
            &&& n@ == req.kind->0.transfer_function->Named_0@
            &&& forall|t: TransferFunction| #[trigger] t.name_text() != n@
        },
        e matches AttachError::TfNotAdvertised(n) ==> {
            &&& n@ == req.kind->0.transfer_function->Named_0@
            &&& exists|t: TransferFunction| #[trigger] t.name_text() == n@
        },
        e is UnknownPrimaries || e is PrimariesNotAdvertised ==> {
            &&& req.kind is Parametric
            &&& req.kind->0.primaries is Named
            &&& !offers_primaries(caps, req.kind->0.primaries->Named_0@)
        },
        e matches AttachError::UnknownPrimaries(n) ==> {
            &&& n@ == req.kind->0.primaries->Named_0@
            &&& forall|t: Primaries| #[trigger] t.name_text() != n@
        },
        e matches AttachError::PrimariesNotAdvertised(n) ==> {
            &&& n@ == req.kind->0.primaries->Named_0@
            &&& exists|t: Primaries| #[trigger] t.name_text() == n@
        },
        e matches AttachError::PowerExponentOutOfRange(x) ==> {
            &&& req.kind is Parametric
            &&& req.kind->0.transfer_function == TransferChoice::Power(x)
            &&& !(0x3ff0_0000_0000_0000 <= x.bits <= 0x4024_0000_0000_0000)
        },
        e matches AttachError::FeatureNotAdvertised(n) ==> exists|f: Feature| #[trigger]
            f.name_text() == n@ && !offers_feature(caps, f.variant_text()),
{
    assert(RenderIntent::Perceptual.name_text() == "perceptual"@);
    assert(caps.allows_intent(RenderIntent::Perceptual));
    assert forall|i: RenderIntent| #[trigger]
        i.name_text() == req.render_intent@ && caps.allows_intent(i) implies offers_intent(
        caps,
        req.render_intent@,
    ) by {}
    if offers_intent(caps, req.render_intent@) && req.render_intent@ != "perceptual"@ {
        let i = choose|i: RenderIntent| #[trigger]
            i.name_text() == req.render_intent@ && views(caps.render_intents@).contains(
                i.variant_text(),
            );
        assert(caps.allows_intent(i));
    }
    if let DescriptionKind::Parametric(p) = req.kind {
        if let TransferChoice::Named(n) = p.transfer_function {
            if offers_transfer(caps, n@) {
                let t = choose|t: TransferFunction| #[trigger]
                    t.name_text() == n@ && views(caps.transfer_functions@).contains(
                        t.variant_text(),
                    );
                assert(caps.advertises_tf(t));
            }
        }
        if let PrimariesChoice::Named(n) = p.primaries {
            if offers_primaries(caps, n@) {
                let t = choose|t: Primaries| #[trigger]
                    t.name_text() == n@ && views(caps.primaries@).contains(t.variant_text());
                assert(caps.advertises_primaries(t));
            }
        }
    }
}

/// How many requests a part that may be absent takes.
pub open spec fn one_if<A>(x: Option<A>) -> int {
    if x is Some {
        1
    } else {
        0
    }
}

/// A description is built from all its parts and from nothing else: the transfer
/// function first, then the primaries, each under the name that was asked for, then
/// one request for each part that is there, with its own numbers.
pub proof fn descriptions_are_built_from_their_parts(
    req: DescriptionRequest,
    caps: ColorCapabilities,
    plan: AttachPlan,
)
    requires
        call_ensures(attach_plan, (&req, &caps), Ok::<AttachPlan, AttachError>(plan)),
    ensures
        plan.intent.name_text() == req.render_intent@,
        plan.creator is Some <==> req.kind is Parametric,
        req.kind matches DescriptionKind::Parametric(p) ==> {
            let c = plan.creator->0@;
            &&& c.len() >= 2
            &&& match p.transfer_function {
                TransferChoice::Named(n) => c[0] is SetTfNamed && c[0]->SetTfNamed_0.name_text()
                    == n@,
                TransferChoice::Power(e) => c[0] == CreatorRequest::SetTfPower(e),
            }
            &&& match p.primaries {
                PrimariesChoice::Named(n) => c[1] is SetPrimariesNamed
                    && c[1]->SetPrimariesNamed_0.name_text() == n@,
                PrimariesChoice::Custom(x) => c[1] == CreatorRequest::SetPrimaries(x),
            }
            &&& p.luminances matches Some(l) ==> c.contains(CreatorRequest::SetLuminances(l))
            &&& p.mastering matches Some(m) ==> {
                &&& m.luminance_nits matches Some(l) ==> c.contains(
                    CreatorRequest::SetMasteringLuminance(l),
                )
                &&& m.primaries matches Some(x) ==> c.contains(
                    CreatorRequest::SetMasteringDisplayPrimaries(x),
                )
                &&& m.max_cll_nits matches Some(n) ==> c.contains(CreatorRequest::SetMaxCll(n))
                &&& m.max_fall_nits matches Some(n) ==> c.contains(CreatorRequest::SetMaxFall(n))
                &&& c.len() == 2 + one_if(p.luminances) + one_if(m.luminance_nits) + one_if(
                    m.primaries,
                ) + one_if(m.max_cll_nits) + one_if(m.max_fall_nits)
            }
            &&& p.mastering is None ==> c.len() == 2 + one_if(p.luminances)
        },
{
    if let DescriptionKind::Parametric(p) = req.kind {
        let c = plan.creator->0@;
        if let TransferChoice::Named(n) = p.transfer_function {
            let t = choose|t: TransferFunction| #[trigger]
                t.name_text() == n@ && caps.advertises_tf(t);
            assert(t.name_text() == n@);
            assert(transfer_named(n@).name_text() == n@);
        }
        if let PrimariesChoice::Named(n) = p.primaries {
            let t = choose|t: Primaries| #[trigger]
                t.name_text() == n@ && caps.advertises_primaries(t);
            assert(t.name_text() == n@);
            assert(primaries_of_name(n@).name_text() == n@);
        }
        let head = 2int;
        if let Some(l) = p.luminances {
            assert(c[2] == CreatorRequest::SetLuminances(l));
        }
        if let Some(m) = p.mastering {
            let at = 2 + one_if(p.luminances);
            if let Some(l) = m.luminance_nits {
                assert(c[at] == CreatorRequest::SetMasteringLuminance(l));
            }
            let next = at + one_if(m.luminance_nits);
            if let Some(x) = m.primaries {
                assert(c[next] == CreatorRequest::SetMasteringDisplayPrimaries(x));
            }
            let third = next + one_if(m.primaries);
            if let Some(n) = m.max_cll_nits {
                assert(c[third] == CreatorRequest::SetMaxCll(n));
            }
            let fourth = third + one_if(m.max_cll_nits);
            if let Some(n) = m.max_fall_nits {
                assert(c[fourth] == CreatorRequest::SetMaxFall(n));
            }
        }
    }
}

/// What the manager tells goes into the list of its own kind and into no other, in
/// the order in which it comes.
pub proof fn events_go_to_their_own_lists(before: CapabilityTexts, a: Advertised)
    ensures
        ({
            let s = seq![a.text()];
            let intent = before.after(ManagerEvent::SupportedIntent(a));
            let feature = before.after(ManagerEvent::SupportedFeature(a));
            let transfer = before.after(ManagerEvent::SupportedTfNamed(a));
            let primaries = before.after(ManagerEvent::SupportedPrimariesNamed(a));
            let done = before.after(ManagerEvent::Done);
            &&& intent.render_intents == before.render_intents + s
            &&& intent.features == before.features
            &&& intent.transfer_functions == before.transfer_functions
            &&& intent.primaries == before.primaries
            &&& feature.features == before.features + s
            &&& feature.render_intents == before.render_intents
            &&& feature.transfer_functions == before.transfer_functions
            &&& feature.primaries == before.primaries
            &&& transfer.transfer_functions == before.transfer_functions + s
            &&& transfer.render_intents == before.render_intents
            &&& transfer.features == before.features
            &&& transfer.primaries == before.primaries
            &&& primaries.primaries == before.primaries + s
            &&& primaries.render_intents == before.render_intents
            &&& primaries.features == before.features
            &&& primaries.transfer_functions == before.transfer_functions
            &&& intent.done == before.done && feature.done == before.done
            &&& transfer.done == before.done && primaries.done == before.done
            &&& done.done
            &&& done.render_intents == before.render_intents
            &&& done.features == before.features
            &&& done.transfer_functions == before.transfer_functions
            &&& done.primaries == before.primaries
            &&& before.after(ManagerEvent::Other) == before
        }),
        a matches Advertised::Known(name) ==> a.text() == name@,
        a matches Advertised::Unknown(n) ==> a.text() == "unknown("@ + decimal_text(n as nat)
            + ")"@,
{
}

/// A cause keeps its code: no two codes have the same name.
pub proof fn causes_are_told_apart(a: u32, b: u32, ta: String, tb: String)
    requires
        call_ensures(cause_name, (a,), ta),
        call_ensures(cause_name, (b,), tb),
        ta@ == tb@,
    ensures
        a == b,
{
    reveal_strlit("low_version");
    reveal_strlit("unsupported");
    reveal_strlit("operating_system");
    reveal_strlit("no_output");
    reveal_strlit("unknown(");
    reveal_strlit(")");
    if a > 3 {
        assert(ta@[2] == 'k');
    } else {
        assert(ta@[2] != 'k');
    }
    if b > 3 {
        assert(tb@[2] == 'k');
    } else {
        assert(tb@[2] != 'k');
    }
    if a > 3 {
        let (da, db) = (decimal_text(a as nat), decimal_text(b as nat));
        assert(ta@.subrange(8, ta@.len() - 1) == da);
        assert(tb@.subrange(8, tb@.len() - 1) == db);
        decimal_reads_back(a as nat);
        decimal_reads_back(b as nat);
    } else {
        assert(ta@[0] == tb@[0]);
        assert(ta@.len() == tb@.len());
    }
}

/// A whole number of nits is that many units, and that many times ten thousand in the
/// units of the least luminance. An exponent is told in ten-thousandths too.
pub proof fn whole_nits_are_whole_units(
    s: nat,
    k: nat,
    n: u32,
    nits: Double,
    min: u32,
    lum: u32,
    power: u32,
)
    requires
        is_binary_fraction(nits, s, k),
        s == n * pow2(k),
        n * 10_000 <= u32::MAX,
        call_ensures(nits_to_min_ticks, (nits,), min),
        call_ensures(nits_to_lum, (nits,), lum),
        call_ensures(power_to_protocol, (nits,), power),
    ensures
        lum == n,
        min == n * 10_000,
        power == n * 10_000,
{
    whole_values_scale_exactly(nits, s, k, n, 1, u32::MAX as u64);
    whole_values_scale_exactly(nits, s, k, n, 10_000, u32::MAX as u64);
}

/// A coordinate is told as the nearest number of millionths, but for what rounding
/// the product to 53 bits may move it by, and a negative one as its mirror image.
pub proof fn coordinates_are_told_in_millionths(s: nat, k: nat, v: Double, m: Double, n: i32, r: i32)
    requires
        is_binary_fraction(v, s, k),
        k >= 53,
        m.bits == v.bits + 0x8000_0000_0000_0000,
        call_ensures(coord_to_protocol, (v,), n),
        call_ensures(coord_to_protocol, (m,), r),
    ensures
        ({
            let p = s * 1_000_000;
            let slack = p / 0x10_0000_0000_0000;
            &&& 2 * (n * pow2(k)) <= 2 * p + pow2(k) + slack
            &&& 2 * p <= 2 * (n * pow2(k)) + pow2(k) + slack
        }),
        r == -n,
{
    lemma_near(v, s, k, 1_000_000, 0x7fff_ffff);
    lemma2_to64_rest();
    if k > 53 {
        lemma_pow2_strictly_increases(53, k);
    }
    let w = pow2(k);
    assert(n <= 1_000_001) by (nonlinear_arith)
        requires
            2 * (n * w) <= 2 * (s * 1_000_000) + w + (s * 1_000_000) / 0x10_0000_0000_0000,
            s < 0x20_0000_0000_0000,
            w >= 0x20_0000_0000_0000,
    ;
    assert(Double { bits: m.magnitude() } == v);
}

/// Every value has a number of its own, and the numbers of a kind follow one another.
pub proof fn wire_numbers_are_told_apart(
    a: TransferFunction,
    b: TransferFunction,
    p: Primaries,
    q: Primaries,
    f: Feature,
    g: Feature,
    i: RenderIntent,
    j: RenderIntent,
)
    ensures
        1 <= a.wire_code() <= 14,
        1 <= p.wire_code() <= 10,
        0 <= f.wire_code() <= 7,
        0 <= i.wire_code() <= 5,
        a.wire_code() == b.wire_code() <==> a == b,
        p.wire_code() == q.wire_code() <==> p == q,
        f.wire_code() == g.wire_code() <==> f == g,
        i.wire_code() == j.wire_code() <==> i == j,
{
}

/// What is said of a refusal names what was refused: the value by its name, behind
/// the kind of thing that it is.
pub proof fn reasons_name_what_is_refused(e: AttachError, r: String, exponent: &str, m: String)
    requires
        call_ensures(AttachError::reason, (&e,), r),
        call_ensures(AttachError::message, (&e, exponent), m),
    ensures
        match e {
            AttachError::UnknownTransferFunction(n) => r@ == "TF "@ + n@ + " unsupported"@ && m@
                == "transfer function name not mapped by this build: "@ + debug_text(n@),
            AttachError::TfNotAdvertised(n) => r@ == "TF "@ + n@ + " unsupported"@ && m@
                == "compositor doesn't advertise transfer function "@ + debug_text(n@),
            AttachError::UnknownPrimaries(n) => r@ == "primaries "@ + n@ + " unsupported"@ && m@
                == "primaries name not mapped by this build: "@ + debug_text(n@),
            AttachError::PrimariesNotAdvertised(n) => r@ == "primaries "@ + n@ + " unsupported"@
                && m@ == "compositor doesn't advertise primaries "@ + debug_text(n@),
            AttachError::UnknownRenderIntent(n) => r@ == "intent "@ + n@ + " unsupported"@ && m@
                == "render intent name not mapped by this build: "@ + debug_text(n@),
            AttachError::IntentNotAdvertised(n) => r@ == "intent "@ + n@ + " unsupported"@ && m@
                == "compositor doesn't advertise render intent "@ + debug_text(n@),
            AttachError::FeatureNotAdvertised(f) => r@ == "no "@ + f@ + " feature"@ && m@
                == "compositor doesn't advertise the "@ + debug_text(f@) + " feature"@,
            AttachError::PowerExponentOutOfRange(_) => r@ == "power exponent out of range"@ && m@
                == "power-TF exponent "@ + exponent@ + " outside the protocol range 1.0..=10.0"@,
        },
{
}

} // verus!
