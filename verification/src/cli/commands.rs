//! The arguments of each subcommand.
//!
//! Decimal numbers stay the texts they were given as; those that are handed on
//! are known to be numbers.
use vstd::prelude::*;

use crate::cli::args::{
    arg_value, capture_formats, capture_sequences, collect_values, first_non_float, first_operand,
    flag_value, flag_values, format_views, formats_in, given, has_flag, integration_times, is_flag,
    lemma_formats, lemma_given, lemma_takes_number, list_problem, number_opt, number_up_to, numbers_in, parse_f64_list, parse_fast_ms, parse_levels,
    parse_opt, parse_rgb, parse_usize_list, repeats_of, scatter_total, sequences_in, speed_modes,
    speed_repeats, takes_number, text_of_option, SweepPlan,
};
use crate::gather::format::{parse_format, spec_says, FormatSpec};
use crate::gather::sequence::SCATTER_SEED;
use crate::gather::session::ScatterRequest;
use crate::text::{
    debug_text, decimal_text, is_float, is_float_text, pieces, trimmed, unsigned_text,
    views,
};

verus! {

/// The message where no output is named.
pub open spec fn no_output_text() -> Seq<char> {
    "--output NAME is required (try `tristim list-outputs`)"@
}

fn required_output(args: &[String]) -> (res: Result<String, String>)
    ensures
        match flag_value(views(args@), "--output"@) {
            Some(v) => res matches Ok(s) && s@ == v,
            None => res matches Err(e) && e@ == no_output_text(),
        },
{
    match arg_value(args, "--output") {
        Some(s) => Ok(s),
        None => Err("--output NAME is required (try `tristim list-outputs`)".to_owned()),
    }
}

/// The decimal number after a flag, if there is one.
pub open spec fn float_opt(args: Seq<Seq<char>>, flag: Seq<char>) -> Option<Seq<char>> {
    match flag_value(args, flag) {
        Some(v) if is_float_text(v) => Some(v),
        _ => None,
    }
}

fn parse_float_opt(args: &[String], flag: &str) -> (res: Option<String>)
    ensures
        text_of_option(res) == float_opt(views(args@), flag@),
{
    match arg_value(args, flag) {
        Some(s) => if is_float(s.as_str()) {
            Some(s)
        } else {
            None
        },
        None => None,
    }
}

/// The texts of a list of numbers.
pub open spec fn list_texts(v: Seq<char>) -> Seq<Seq<char>> {
    pieces(v, ',').map_values(|p: Seq<char>| trimmed(p))
}

/// The contents of an optional list.
pub open spec fn optional_views(v: Option<Vec<String>>) -> Option<Seq<Seq<char>>> {
    match v {
        Some(v) => Some(views(v@)),
        None => None,
    }
}

/// The texts of the list after a flag.
pub open spec fn list_opt(args: Seq<Seq<char>>, flag: Seq<char>) -> Option<Seq<Seq<char>>> {
    match flag_value(args, flag) {
        Some(v) => Some(list_texts(v)),
        None => None,
    }
}

// ---------------------------------------------------------------------------
// characterize
// ---------------------------------------------------------------------------

/// Arguments of `characterize`.
#[derive(Debug)]
pub struct CharacterizeArgs {
    pub output: String,
    pub cal_index: u8,
    pub repeats: usize,
    pub settle_ms: u64,
    pub prep_secs: u64,
    /// Reset once, and not before every reading.
    pub burst: bool,
    /// Print each channel.
    pub verbose: bool,
    /// Grey levels; none for the default ones.
    pub levels: Option<Vec<String>>,
}

/// What is wrong with the arguments of `characterize`.
pub open spec fn characterize_problem(args: Seq<Seq<char>>) -> Option<Seq<char>> {
    if flag_value(args, "--output"@) is None {
        Some(no_output_text())
    } else {
        match flag_value(args, "--levels"@) {
            Some(s) if first_non_float(pieces(s, ',')) is Some => Some(
                "bad --levels list "@ + debug_text(s) + " (expected comma-separated numbers)"@,
            ),
            _ => None,
        }
    }
}

/// Reads the arguments of `characterize`.
pub fn characterize_args(args: &[String]) -> (res: Result<CharacterizeArgs, String>)
    ensures
        match res {
            Err(e) => characterize_problem(views(args@)) == Some(e@),
            Ok(a) => {
                let w = views(args@);
                &&& characterize_problem(w) is None
                &&& flag_value(w, "--output"@) == Some(a.output@)
                &&& a.cal_index == number_opt(w, "--cal"@, 0, 0xff)
                &&& a.repeats == number_opt(w, "--repeats"@, 16, usize::MAX as u64)
                &&& a.settle_ms == number_opt(w, "--settle-ms"@, 400, u64::MAX)
                &&& a.prep_secs == number_opt(w, "--prep-secs"@, 6, u64::MAX)
                &&& a.burst == w.contains("--burst"@)
                &&& a.verbose == (w.contains("--raw"@) || w.contains("--verbose"@))
                &&& optional_views(a.levels) == list_opt(w, "--levels"@)
            },
        },
{
    let output = required_output(args)?;
    let levels = match arg_value(args, "--levels") {
        Some(s) => Some(parse_levels(s.as_str())?),
        None => None,
    };
    Ok(
        CharacterizeArgs {
            output,
            cal_index: parse_opt(args, "--cal", 0, 0xff) as u8,
            repeats: parse_opt(args, "--repeats", 16, usize::MAX as u64) as usize,
            settle_ms: parse_opt(args, "--settle-ms", 400, u64::MAX),
            prep_secs: parse_opt(args, "--prep-secs", 6, u64::MAX),
            burst: has_flag(args, "--burst"),
            verbose: has_flag(args, "--raw") || has_flag(args, "--verbose"),
            levels,
        },
    )
}

// ---------------------------------------------------------------------------
// speed
// ---------------------------------------------------------------------------

/// Arguments of `speed`.
#[derive(Debug)]
pub struct SpeedArgs {
    pub output: String,
    pub cal_index: u8,
    pub shots: usize,
    pub settle_ms: u64,
    pub prep_secs: u64,
    /// Grey levels; none for the default ones.
    pub levels: Option<Vec<String>>,
    /// Repeat counts that trust is derived at.
    pub repeats: Vec<usize>,
    /// Whether to reset before each reading.
    pub modes: Vec<bool>,
}

/// The shots of a speed test.
pub open spec fn shots_of(args: Seq<Seq<char>>) -> usize {
    number_opt(args, "--shots"@, 16, usize::MAX as u64) as usize
}

/// The repeat counts that are asked for.
pub open spec fn asked_repeats(args: Seq<Seq<char>>) -> Result<Seq<usize>, Seq<char>> {
    match flag_value(args, "--repeats"@) {
        Some(s) => numbers_in(pieces(s, ','), s),
        None => Ok(seq![1usize, 2, 4, 8, 16]),
    }
}

/// The mode that is asked for.
pub open spec fn asked_mode(args: Seq<Seq<char>>) -> Seq<char> {
    match flag_value(args, "--mode"@) {
        Some(m) => m,
        None => "both"@,
    }
}

/// The disciplines of a mode.
pub open spec fn modes_of(mode: Seq<char>) -> Option<Seq<bool>> {
    if mode == "auto-zero"@ || mode == "auto"@ {
        Some(seq![true])
    } else if mode == "burst"@ {
        Some(seq![false])
    } else if mode == "both"@ {
        Some(seq![true, false])
    } else {
        None
    }
}

/// None of the repeat counts can be had with the shots.
pub open spec fn no_repeats(list: Seq<usize>, shots: usize) -> bool {
    forall|n: usize| #[trigger] list.contains(n) ==> !(1 <= n <= shots)
}

/// What is wrong with the arguments of `speed`.
pub open spec fn speed_problem(args: Seq<Seq<char>>) -> Option<Seq<char>> {
    if flag_value(args, "--output"@) is None {
        Some(no_output_text())
    } else if levels_problem(args) is Some {
        levels_problem(args)
    } else {
        match asked_repeats(args) {
            Err(e) => Some(e),
            Ok(list) => if no_repeats(list, shots_of(args)) {
                Some(
                    "--repeats: no valid N values (must be 1..="@ + decimal_text(
                        shots_of(args) as nat,
                    ) + ")"@,
                )
            } else if modes_of(asked_mode(args)) is None {
                Some(
                    "--mode: expected auto-zero|burst|both, got "@ + debug_text(asked_mode(args)),
                )
            } else {
                None
            },
        }
    }
}

/// What is wrong with the levels of a speed test.
pub open spec fn levels_problem(args: Seq<Seq<char>>) -> Option<Seq<char>> {
    match flag_value(args, "--levels"@) {
        Some(s) => match first_non_float(pieces(s, ',')) {
            Some(p) => Some(list_problem("bad number "@, p, s)),
            None => None,
        },
        None => None,
    }
}

fn default_repeats() -> (res: Vec<usize>)
    ensures
        res@ == seq![1usize, 2, 4, 8, 16],
{
    let mut v: Vec<usize> = Vec::new();
    v.push(1);
    v.push(2);
    v.push(4);
    v.push(8);
    v.push(16);
    v
}

/// Reads the arguments of `speed`.
pub fn speed_args(args: &[String]) -> (res: Result<SpeedArgs, String>)
    ensures
        match res {
            Err(e) => speed_problem(views(args@)) == Some(e@),
            Ok(a) => {
                let w = views(args@);
                &&& speed_problem(w) is None
                &&& flag_value(w, "--output"@) == Some(a.output@)
                &&& a.cal_index == number_opt(w, "--cal"@, 0, 0xff)
                &&& a.shots == shots_of(w)
                &&& a.settle_ms == number_opt(w, "--settle-ms"@, 400, u64::MAX)
                &&& a.prep_secs == number_opt(w, "--prep-secs"@, 6, u64::MAX)
                &&& optional_views(a.levels) == list_opt(w, "--levels"@)
                &&& asked_repeats(w) matches Ok(list) && repeats_of(a.repeats@, list, a.shots)
                &&& modes_of(asked_mode(w)) == Some(a.modes@)
            },
        },
{
    let output = required_output(args)?;
    let shots: usize = parse_opt(args, "--shots", 16, usize::MAX as u64) as usize;
    let levels = match arg_value(args, "--levels") {
        Some(s) => Some(parse_f64_list(s.as_str())?),
        None => None,
    };
    let list = match arg_value(args, "--repeats") {
        Some(s) => parse_usize_list(s.as_str())?,
        None => default_repeats(),
    };
    let repeats = speed_repeats(&list, shots)?;
    proof {
        assert(repeats@.contains(repeats@[0]));
        assert(list@.contains(repeats@[0]));
        assert(!no_repeats(list@, shots));
    }
    let mode: String = match arg_value(args, "--mode") {
        Some(m) => m,
        None => "both".to_owned(),
    };
    let modes = speed_modes(mode.as_str())?;
    Ok(
        SpeedArgs {
            output,
            cal_index: parse_opt(args, "--cal", 0, 0xff) as u8,
            shots,
            settle_ms: parse_opt(args, "--settle-ms", 400, u64::MAX),
            prep_secs: parse_opt(args, "--prep-secs", 6, u64::MAX),
            levels,
            repeats,
            modes,
        },
    )
}

// ---------------------------------------------------------------------------
// integration
// ---------------------------------------------------------------------------

/// Arguments of `integration`.
#[derive(Debug)]
pub struct IntegrationArgs {
    pub output: String,
    /// Integration times to try, in milliseconds.
    pub integrations: Vec<u16>,
    pub cal_index: u8,
    /// Grey level; none for full white.
    pub level: Option<String>,
    pub repeats: usize,
    pub settle_ms: u64,
    pub prep_secs: u64,
}

/// A number that fits into 16 bits, the greatest one for anything larger.
pub open spec fn capped_ms(n: usize) -> u16 {
    if n > 0xffff {
        0xffffu16
    } else {
        n as u16
    }
}

/// What is wrong with the arguments of `integration`.
pub open spec fn integration_problem(args: Seq<Seq<char>>) -> Option<Seq<char>> {
    if flag_value(args, "--output"@) is None {
        Some(no_output_text())
    } else {
        match flag_value(args, "--integrations"@) {
            None => Some(
                "--integrations LIST is required (e.g. --integrations 100,300,714)"@,
            ),
            Some(s) => match numbers_in(pieces(s, ','), s) {
                Err(e) => Some(e),
                Ok(list) => if list.len() == 0 {
                    Some("--integrations: empty list"@)
                } else {
                    None
                },
            },
        }
    }
}

/// Reads the arguments of `integration`.
pub fn integration_args(args: &[String]) -> (res: Result<IntegrationArgs, String>)
    ensures
        match res {
            Err(e) => integration_problem(views(args@)) == Some(e@),
            Ok(a) => {
                let w = views(args@);
                &&& integration_problem(w) is None
                &&& flag_value(w, "--output"@) == Some(a.output@)
                &&& (flag_value(w, "--integrations"@) matches Some(s) && numbers_in(
                    pieces(s, ','),
                    s,
                ) matches Ok(list) && a.integrations@ == list.map_values(|n: usize| capped_ms(n)))
                &&& a.cal_index == number_opt(w, "--cal"@, 0, 0xff)
                &&& text_of_option(a.level) == float_opt(w, "--level"@)
                &&& a.repeats == number_opt(w, "--repeats"@, 8, usize::MAX as u64)
                &&& a.settle_ms == number_opt(w, "--settle-ms"@, 400, u64::MAX)
                &&& a.prep_secs == number_opt(w, "--prep-secs"@, 6, u64::MAX)
            },
        },
{
    let output = required_output(args)?;
    let text: String = match arg_value(args, "--integrations") {
        Some(s) => s,
        None => {
            return Err(
                "--integrations LIST is required (e.g. --integrations 100,300,714)".to_owned(),
            );
        },
    };
    let list = parse_usize_list(text.as_str())?;
    if list.len() == 0 {
        return Err("--integrations: empty list".to_owned());
    }
    let integrations = integration_times(&list);
    assert(integrations@ == list@.map_values(|n: usize| capped_ms(n)));
    Ok(
        IntegrationArgs {
            output,
            integrations,
            cal_index: parse_opt(args, "--cal", 0, 0xff) as u8,
            level: parse_float_opt(args, "--level"),
            repeats: parse_opt(args, "--repeats", 8, usize::MAX as u64) as usize,
            settle_ms: parse_opt(args, "--settle-ms", 400, u64::MAX),
            prep_secs: parse_opt(args, "--prep-secs", 6, u64::MAX),
        },
    )
}

// ---------------------------------------------------------------------------
// gamut
// ---------------------------------------------------------------------------

/// Arguments of `gamut`.
#[derive(Debug)]
pub struct GamutArgs {
    pub output: String,
    /// The format as it was given.
    pub format_spec: String,
    pub format: FormatSpec,
    pub cal_index: u8,
    pub repeats: usize,
    pub settle_ms: u64,
    pub prep_secs: u64,
    /// Window area fraction; none for the whole output.
    pub window: Option<String>,
    /// Surround code values.
    pub border: Option<Vec<String>>,
    pub fast_integration_ms: Option<u16>,
    /// Subdivide adaptively.
    pub refine: bool,
    pub max_depth: u32,
}

/// What is wrong with the surround of a window.
pub open spec fn border_problem(args: Seq<Seq<char>>) -> Option<Seq<char>> {
    match flag_value(args, "--border"@) {
        Some(s) => if first_non_float(pieces(s, ',')) is Some {
            Some("bad RGB triple "@ + debug_text(s))
        } else if pieces(s, ',').len() != 3 {
            Some("expected R,G,B (three values), got "@ + debug_text(s))
        } else {
            None
        },
        None => None,
    }
}

/// What is wrong with an integration time.
pub open spec fn fast_problem(args: Seq<Seq<char>>, flag: Seq<char>) -> Option<Seq<char>> {
    match flag_value(args, flag) {
        Some(v) if number_up_to(v, 0xffff) is None => Some(flag + ": expected integer ms"@),
        _ => None,
    }
}

/// The integration time after a flag.
pub open spec fn fast_opt(args: Seq<Seq<char>>, flag: Seq<char>) -> Option<u16> {
    match flag_value(args, flag) {
        Some(v) => Some(number_up_to(v, 0xffff)->0 as u16),
        None => None,
    }
}

fn parse_border(args: &[String]) -> (res: Result<Option<Vec<String>>, String>)
    ensures
        match res {
            Err(e) => border_problem(views(args@)) == Some(e@),
            Ok(v) => border_problem(views(args@)) is None && optional_views(v) == list_opt(
                views(args@),
                "--border"@,
            ),
        },
{
    match arg_value(args, "--border") {
        Some(s) => Ok(Some(parse_rgb(s.as_str())?)),
        None => Ok(None),
    }
}

/// What is wrong with the arguments of `gamut`.
pub open spec fn gamut_problem(args: Seq<Seq<char>>) -> Option<Seq<char>> {
    if flag_value(args, "--output"@) is None {
        Some(no_output_text())
    } else {
        match flag_value(args, "--format"@) {
            None => Some("--format SPEC is required (see `tristim help`)"@),
            Some(f) => if border_problem(args) is Some {
                border_problem(args)
            } else if fast_problem(args, "--fast-integration"@) is Some {
                fast_problem(args, "--fast-integration"@)
            } else {
                match spec_says(f) {
                    Err(e) => Some(e),
                    Ok(_) => None,
                }
            },
        }
    }
}

/// Reads the arguments of `gamut`.
pub fn gamut_args(args: &[String]) -> (res: Result<GamutArgs, String>)
    ensures
        match res {
            Err(e) => gamut_problem(views(args@)) == Some(e@),
            Ok(a) => {
                let w = views(args@);
                &&& gamut_problem(w) is None
                &&& flag_value(w, "--output"@) == Some(a.output@)
                &&& flag_value(w, "--format"@) == Some(a.format_spec@)
                &&& (spec_says(a.format_spec@) matches Ok(f) && a.format@ == f)
                &&& a.cal_index == number_opt(w, "--cal"@, 0, 0xff)
                &&& a.repeats == number_opt(w, "--repeats"@, 4, usize::MAX as u64)
                &&& a.settle_ms == number_opt(w, "--settle-ms"@, 250, u64::MAX)
                &&& a.prep_secs == number_opt(w, "--prep-secs"@, 6, u64::MAX)
                &&& text_of_option(a.window) == float_opt(w, "--window"@)
                &&& optional_views(a.border) == list_opt(w, "--border"@)
                &&& a.fast_integration_ms == fast_opt(w, "--fast-integration"@)
                &&& a.refine == w.contains("--refine"@)
                &&& a.max_depth == number_opt(w, "--max-depth"@, 3, u32::MAX as u64)
            },
        },
{
    let output = required_output(args)?;
    let format_spec: String = match arg_value(args, "--format") {
        Some(s) => s,
        None => return Err("--format SPEC is required (see `tristim help`)".to_owned()),
    };
    let border = parse_border(args)?;
    let fast_integration_ms = parse_fast_ms(args, "--fast-integration")?;
    let format = parse_format(format_spec.as_str())?;
    Ok(
        GamutArgs {
            output,
            format_spec,
            format,
            cal_index: parse_opt(args, "--cal", 0, 0xff) as u8,
            repeats: parse_opt(args, "--repeats", 4, usize::MAX as u64) as usize,
            settle_ms: parse_opt(args, "--settle-ms", 250, u64::MAX),
            prep_secs: parse_opt(args, "--prep-secs", 6, u64::MAX),
            window: parse_float_opt(args, "--window"),
            border,
            fast_integration_ms,
            refine: has_flag(args, "--refine"),
            max_depth: parse_opt(args, "--max-depth", 3, u32::MAX as u64) as u32,
        },
    )
}

// ---------------------------------------------------------------------------
// capture
// ---------------------------------------------------------------------------

/// How a capture is to probe gamuts.
#[derive(Clone, Copy, Debug, PartialEq, Eq)]
pub struct ProbeArgs {
    pub repeats: usize,
    pub fast_integration_ms: Option<u16>,
    pub max_depth: u32,
}

/// Arguments of `capture`.
#[derive(Debug)]
pub struct CaptureArgs {
    pub output: String,
    /// File to write.
    pub out_path: String,
    pub cal_index: u8,
    pub settle_ms: u64,
    pub prep_secs: u64,
    /// Window area fraction; none for the whole output.
    pub window: Option<String>,
    /// Surround code values.
    pub border: Option<Vec<String>>,
    pub formats: Vec<FormatSpec>,
    pub plan: SweepPlan,
    /// Whether and how to probe gamuts.
    pub gamut: Option<ProbeArgs>,
}

/// What is wrong with the arguments of `capture`.
pub open spec fn capture_problem(args: Seq<Seq<char>>) -> Option<Seq<char>> {
    let seqs = flag_values(args, "--seq"@);
    if flag_value(args, "--output"@) is None {
        Some(no_output_text())
    } else if border_problem(args) is Some {
        border_problem(args)
    } else {
        match formats_in(flag_values(args, "--format"@)) {
            Err(e) => Some(e),
            Ok(fs) => if fs.len() == 0 {
                Some("at least one --format is required (see `tristim help`)"@)
            } else if seqs.len() == 0 {
                Some("at least one --seq is required (see `tristim help`)"@)
            } else {
                match sequences_in(seqs) {
                    Err(e) => Some(e),
                    Ok(_) => if args.contains("--probe-gamut"@) {
                        fast_problem(args, "--gamut-fast-integration"@)
                    } else {
                        None
                    },
                }
            },
        }
    }
}

/// The file that is written.
pub open spec fn out_path_of(args: Seq<Seq<char>>, default: Seq<char>) -> Seq<char> {
    match flag_value(args, "--out"@) {
        Some(p) => p,
        None => default,
    }
}

/// How gamuts are to be probed.
pub open spec fn probe_of(args: Seq<Seq<char>>) -> Option<ProbeArgs> {
    if args.contains("--probe-gamut"@) {
        Some(
            ProbeArgs {
                repeats: number_opt(args, "--gamut-repeats"@, 4, usize::MAX as u64) as usize,
                fast_integration_ms: fast_opt(args, "--gamut-fast-integration"@),
                max_depth: number_opt(args, "--gamut-max-depth"@, 3, u32::MAX as u64) as u32,
            },
        )
    } else {
        None
    }
}

fn parse_out_path(args: &[String], default: &str) -> (res: String)
    ensures
        res@ == out_path_of(views(args@), default@),
{
    match arg_value(args, "--out") {
        Some(p) => p,
        None => default.to_owned(),
    }
}

/// Reads the arguments of `capture`.
pub fn capture_args(args: &[String]) -> (res: Result<CaptureArgs, String>)
    requires
        scatter_total(flag_values(views(args@), "--seq"@)) <= usize::MAX,
    ensures
        match res {
            Err(e) => capture_problem(views(args@)) == Some(e@),
            Ok(a) => {
                let w = views(args@);
                let total = scatter_total(flag_values(w, "--seq"@));
                &&& capture_problem(w) is None
                &&& flag_value(w, "--output"@) == Some(a.output@)
                &&& a.out_path@ == out_path_of(w, "capture.json"@)
                &&& a.cal_index == number_opt(w, "--cal"@, 0, 0xff)
                &&& a.settle_ms == number_opt(w, "--settle-ms"@, 250, u64::MAX)
                &&& a.prep_secs == number_opt(w, "--prep-secs"@, 6, u64::MAX)
                &&& text_of_option(a.window) == float_opt(w, "--window"@)
                &&& optional_views(a.border) == list_opt(w, "--border"@)
                &&& (formats_in(flag_values(w, "--format"@)) matches Ok(fs) && format_views(
                    a.formats@,
                ) == fs)
                &&& (sequences_in(flag_values(w, "--seq"@)) matches Ok(cs) && a.plan.sequence@
                    == cs)
                &&& a.plan.scatter == if total > 0 {
                    Some(ScatterRequest { count: total as usize, seed: SCATTER_SEED })
                } else {
                    None
                }
                &&& a.gamut == probe_of(w)
            },
        },
{
    let output = required_output(args)?;
    let border = parse_border(args)?;
    let formats = capture_formats(&collect_values(args, "--format"))?;
    assert(formats@.len() == format_views(formats@).len());
    let seqs = collect_values(args, "--seq");
    assert(views(seqs@).len() == seqs@.len());
    let plan = capture_sequences(&seqs)?;
    let gamut = if has_flag(args, "--probe-gamut") {
        let fast = parse_fast_ms(args, "--gamut-fast-integration")?;
        Some(
            ProbeArgs {
                repeats: parse_opt(args, "--gamut-repeats", 4, usize::MAX as u64) as usize,
                fast_integration_ms: fast,
                max_depth: parse_opt(args, "--gamut-max-depth", 3, u32::MAX as u64) as u32,
            },
        )
    } else {
        None
    };
    Ok(
        CaptureArgs {
            output,
            out_path: parse_out_path(args, "capture.json"),
            cal_index: parse_opt(args, "--cal", 0, 0xff) as u8,
            settle_ms: parse_opt(args, "--settle-ms", 250, u64::MAX),
            prep_secs: parse_opt(args, "--prep-secs", 6, u64::MAX),
            window: parse_float_opt(args, "--window"),
            border,
            formats,
            plan,
            gamut,
        },
    )
}

// ---------------------------------------------------------------------------
// report and sweep
// ---------------------------------------------------------------------------

/// Arguments of `report`.
#[derive(Debug)]
pub struct ReportArgs {
    pub path: String,
    /// How many of the worst samples to list.
    pub top: usize,
}

/// Argument `i` is the first that is not a flag.
pub open spec fn is_operand(args: Seq<Seq<char>>, i: int) -> bool {
    &&& 0 <= i < args.len()
    &&& !is_flag(args[i])
    &&& forall|j: int| 0 <= j < i ==> is_flag(#[trigger] args[j])
}

/// Reads the arguments of `report`.
pub fn report_args(args: &[String]) -> (res: Result<ReportArgs, String>)
    ensures
        match res {
            Ok(a) => {
                &&& exists|i: int|
                    #[trigger] is_operand(views(args@), i) && views(args@)[i] == a.path@
                &&& a.top == number_opt(views(args@), "--top"@, 8, usize::MAX as u64)
            },
            Err(e) => {
                &&& forall|i: int| !#[trigger] is_operand(views(args@), i)
                &&& e@ == "usage: tristim report FILE.json [--top N]"@
            },
        },
{
    let ghost w = views(args@);
    match first_operand(args) {
        Some(i) => {
            assert forall|j: int| 0 <= j < i implies is_flag(#[trigger] w[j]) by {
                assert(is_flag(args@[j]@));
            }
            assert(is_operand(w, i as int));
            Ok(
                ReportArgs {
                    path: args[i].clone(),
                    top: parse_opt(args, "--top", 8, usize::MAX as u64) as usize,
                },
            )
        },
        None => {
            assert forall|i: int| !#[trigger] is_operand(w, i) by {
                if 0 <= i < w.len() {
                    assert(is_flag(args@[i]@));
                }
            }
            Err("usage: tristim report FILE.json [--top N]".to_owned())
        },
    }
}

/// Arguments of `sweep`.
#[derive(Debug)]
pub struct SweepArgs {
    pub output: String,
    /// File to write.
    pub out_path: String,
    pub cal_index: u8,
    pub grey_steps: usize,
    pub prep_secs: u64,
    pub settle_ms: u64,
}

/// Reads the arguments of `sweep`.
pub fn sweep_args(args: &[String]) -> (res: Result<SweepArgs, String>)
    ensures
        match res {
            Err(e) => flag_value(views(args@), "--output"@) is None && e@ == no_output_text(),
            Ok(a) => {
                let w = views(args@);
                &&& flag_value(w, "--output"@) == Some(a.output@)
                &&& a.out_path@ == out_path_of(w, "sweep.csv"@)
                &&& a.cal_index == number_opt(w, "--cal"@, 0, 0xff)
                &&& a.grey_steps == number_opt(w, "--grey-steps"@, 11, usize::MAX as u64)
                &&& a.prep_secs == number_opt(w, "--prep-secs"@, 6, u64::MAX)
                &&& a.settle_ms == number_opt(w, "--settle-ms"@, 250, u64::MAX)
            },
        },
{
    let output = required_output(args)?;
    Ok(
        SweepArgs {
            output,
            out_path: parse_out_path(args, "sweep.csv"),
            cal_index: parse_opt(args, "--cal", 0, 0xff) as u8,
            grey_steps: parse_opt(args, "--grey-steps", 11, usize::MAX as u64) as usize,
            prep_secs: parse_opt(args, "--prep-secs", 6, u64::MAX),
            settle_ms: parse_opt(args, "--settle-ms", 250, u64::MAX),
        },
    )
}

// ---------------------------------------------------------------------------
// What each subcommand is told
// ---------------------------------------------------------------------------

/// What a flag with a text comes to: the text behind it, or nothing.
pub open spec fn takes_text(args: Seq<Seq<char>>, flag: Seq<char>, value: Option<Seq<char>>) -> bool {
    match value {
        Some(v) => given(args, flag, v),
        None => forall|v: Seq<char>| !#[trigger] given(args, flag, v),
    }
}

/// What a flag with a decimal number comes to: the text behind it if it is a number,
/// and nothing otherwise.
pub open spec fn takes_decimal(args: Seq<Seq<char>>, flag: Seq<char>, value: Option<Seq<char>>) -> bool {
    &&& value matches Some(v) ==> given(args, flag, v) && is_float_text(v)
    &&& value is None ==> forall|v: Seq<char>| #[trigger]
        given(args, flag, v) ==> !is_float_text(v)
}

/// What a flag with a list comes to: as many texts as there are pieces between the
/// commas, each without the blanks around it, or nothing.
pub open spec fn takes_list(args: Seq<Seq<char>>, flag: Seq<char>, value: Option<Vec<String>>) -> bool {
    match value {
        Some(l) => exists|v: Seq<char>|
            {
                &&& #[trigger] given(args, flag, v)
                &&& l@.len() == pieces(v, ',').len()
                &&& forall|i: int|
                    0 <= i < l@.len() ==> (#[trigger] l@[i])@ == trimmed(pieces(v, ',')[i])
            },
        None => forall|v: Seq<char>| !#[trigger] given(args, flag, v),
    }
}

proof fn lemma_takes_decimal(args: Seq<Seq<char>>, flag: Seq<char>)
    ensures
        takes_decimal(args, flag, float_opt(args, flag)),
{
    lemma_given(args, flag);
}

proof fn lemma_takes_list(args: Seq<Seq<char>>, flag: Seq<char>, value: Option<Vec<String>>)
    requires
        optional_views(value) == list_opt(args, flag),
    ensures
        takes_list(args, flag, value),
{
    lemma_given(args, flag);
    if let Some(l) = value {
        let v = flag_value(args, flag)->0;
        assert(given(args, flag, v));
        assert(views(l@).len() == l@.len());
        assert forall|i: int| 0 <= i < l@.len() implies (#[trigger] l@[i])@ == trimmed(
            pieces(v, ',')[i],
        ) by {
            assert(views(l@)[i] == l@[i]@);
        }
    }
}

/// `characterize` takes each of its figures from the flag that is named for it, and
/// has a default for each.
pub proof fn characterize_is_told_by_its_flags(args: &[String], a: CharacterizeArgs)
    requires
        call_ensures(characterize_args, (args,), Ok::<CharacterizeArgs, String>(a)),
    ensures
        ({
            let w = views(args@);
            &&& given(w, "--output"@, a.output@)
            &&& takes_number(w, "--cal"@, a.cal_index as int, 0, 255)
            &&& takes_number(w, "--repeats"@, a.repeats as int, 16, usize::MAX as int)
            &&& takes_number(w, "--settle-ms"@, a.settle_ms as int, 400, u64::MAX as int)
            &&& takes_number(w, "--prep-secs"@, a.prep_secs as int, 6, u64::MAX as int)
            &&& a.burst <==> w.contains("--burst"@)
            &&& a.verbose <==> w.contains("--raw"@) || w.contains("--verbose"@)
            &&& takes_list(w, "--levels"@, a.levels)
        }),
{
    let w = views(args@);
    lemma_given(w, "--output"@);
    lemma_takes_number(w, "--cal"@, 0, 0xff);
    lemma_takes_number(w, "--repeats"@, 16, usize::MAX as u64);
    lemma_takes_number(w, "--settle-ms"@, 400, u64::MAX);
    lemma_takes_number(w, "--prep-secs"@, 6, u64::MAX);
    lemma_takes_list(w, "--levels"@, a.levels);
}

/// `speed` takes each of its figures from the flag that is named for it. Its repeat
/// counts are never more than its shots, and it runs in both disciplines unless it is
/// told otherwise.
pub proof fn speed_is_told_by_its_flags(args: &[String], a: SpeedArgs, n: usize)
    requires
        call_ensures(speed_args, (args,), Ok::<SpeedArgs, String>(a)),
    ensures
        ({
            let w = views(args@);
            &&& given(w, "--output"@, a.output@)
            &&& takes_number(w, "--cal"@, a.cal_index as int, 0, 255)
            &&& takes_number(w, "--shots"@, a.shots as int, 16, usize::MAX as int)
            &&& takes_number(w, "--settle-ms"@, a.settle_ms as int, 400, u64::MAX as int)
            &&& takes_number(w, "--prep-secs"@, a.prep_secs as int, 6, u64::MAX as int)
            &&& takes_list(w, "--levels"@, a.levels)
            &&& a.repeats@.contains(n) ==> 1 <= n <= a.shots
            &&& takes_text(w, "--repeats"@, None) ==> (a.repeats@.contains(n) <==> (n == 1 || n
                == 2 || n == 4 || n == 8 || n == 16) && n <= a.shots)
            &&& takes_text(w, "--mode"@, None) || given(w, "--mode"@, "both"@) ==> a.modes@
                == seq![true, false]
            &&& given(w, "--mode"@, "burst"@) ==> a.modes@ == seq![false]
            &&& given(w, "--mode"@, "auto-zero"@) || given(w, "--mode"@, "auto"@) ==> a.modes@
                == seq![true]
        }),
{
    let w = views(args@);
    lemma_given(w, "--output"@);
    lemma_given(w, "--repeats"@);
    lemma_given(w, "--mode"@);
    lemma_takes_number(w, "--cal"@, 0, 0xff);
    lemma_takes_number(w, "--shots"@, 16, usize::MAX as u64);
    lemma_takes_number(w, "--settle-ms"@, 400, u64::MAX);
    lemma_takes_number(w, "--prep-secs"@, 6, u64::MAX);
    lemma_takes_list(w, "--levels"@, a.levels);
    reveal_strlit("both");
    reveal_strlit("burst");
    reveal_strlit("auto-zero");
    reveal_strlit("auto");
    assert("both"@[0] == 'b' && "both"@.len() == 4);
    assert("burst"@.len() == 5 && "auto-zero"@.len() == 9);
    assert("auto"@[0] == 'a');
    let list = seq![1usize, 2, 4, 8, 16];
    assert(list[0] == 1 && list[1] == 2 && list[2] == 4 && list[3] == 8 && list[4] == 16);
    assert(list.contains(n) <==> n == 1 || n == 2 || n == 4 || n == 8 || n == 16) by {
        if n == 1 {
            assert(list[0] == n);
        } else if n == 2 {
            assert(list[1] == n);
        } else if n == 4 {
            assert(list[2] == n);
        } else if n == 8 {
            assert(list[3] == n);
        } else if n == 16 {
            assert(list[4] == n);
        }
    }
}

/// `integration` takes each of its figures from the flag that is named for it, and
/// tries the times of its list one by one.
pub proof fn integration_is_told_by_its_flags(
    args: &[String],
    a: IntegrationArgs,
    text: &str,
    list: Vec<usize>,
    i: int,
)
    requires
        call_ensures(integration_args, (args,), Ok::<IntegrationArgs, String>(a)),
        given(views(args@), "--integrations"@, text@),
        call_ensures(parse_usize_list, (text,), Ok::<Vec<usize>, String>(list)),
        0 <= i < list@.len(),
    ensures
        ({
            let w = views(args@);
            &&& given(w, "--output"@, a.output@)
            &&& a.integrations@.len() == list@.len()
            &&& list@[i] <= 65535 ==> a.integrations@[i] == list@[i]
            &&& list@[i] > 65535 ==> a.integrations@[i] == 65535
            &&& takes_number(w, "--cal"@, a.cal_index as int, 0, 255)
            &&& takes_decimal(w, "--level"@, text_of_option(a.level))
            &&& takes_number(w, "--repeats"@, a.repeats as int, 8, usize::MAX as int)
            &&& takes_number(w, "--settle-ms"@, a.settle_ms as int, 400, u64::MAX as int)
            &&& takes_number(w, "--prep-secs"@, a.prep_secs as int, 6, u64::MAX as int)
        }),
{
    let w = views(args@);
    lemma_given(w, "--output"@);
    lemma_given(w, "--integrations"@);
    lemma_takes_number(w, "--cal"@, 0, 0xff);
    lemma_takes_number(w, "--repeats"@, 8, usize::MAX as u64);
    lemma_takes_number(w, "--settle-ms"@, 400, u64::MAX);
    lemma_takes_number(w, "--prep-secs"@, 6, u64::MAX);
    lemma_takes_decimal(w, "--level"@);
}

/// `gamut` takes each of its figures from the flag that is named for it.
pub proof fn gamut_is_told_by_its_flags(args: &[String], a: GamutArgs)
    requires
        call_ensures(gamut_args, (args,), Ok::<GamutArgs, String>(a)),
    ensures
        ({
            let w = views(args@);
            &&& given(w, "--output"@, a.output@)
            &&& given(w, "--format"@, a.format_spec@)
            &&& a.format.token@ == a.format_spec@
            &&& takes_number(w, "--cal"@, a.cal_index as int, 0, 255)
            &&& takes_number(w, "--repeats"@, a.repeats as int, 4, usize::MAX as int)
            &&& takes_number(w, "--settle-ms"@, a.settle_ms as int, 250, u64::MAX as int)
            &&& takes_number(w, "--prep-secs"@, a.prep_secs as int, 6, u64::MAX as int)
            &&& takes_decimal(w, "--window"@, text_of_option(a.window))
            &&& takes_list(w, "--border"@, a.border)
            &&& a.border matches Some(b) ==> b@.len() == 3
            &&& a.fast_integration_ms is None <==> takes_text(w, "--fast-integration"@, None)
            &&& a.fast_integration_ms matches Some(ms) ==> exists|v: Seq<char>| #[trigger]
                given(w, "--fast-integration"@, v) && unsigned_text(v) == Some(ms as nat)
            &&& a.refine <==> w.contains("--refine"@)
            &&& takes_number(w, "--max-depth"@, a.max_depth as int, 3, u32::MAX as int)
        }),
{
    let w = views(args@);
    lemma_given(w, "--output"@);
    lemma_given(w, "--format"@);
    lemma_given(w, "--border"@);
    lemma_given(w, "--fast-integration"@);
    lemma_takes_number(w, "--cal"@, 0, 0xff);
    lemma_takes_number(w, "--repeats"@, 4, usize::MAX as u64);
    lemma_takes_number(w, "--settle-ms"@, 250, u64::MAX);
    lemma_takes_number(w, "--prep-secs"@, 6, u64::MAX);
    lemma_takes_number(w, "--max-depth"@, 3, u32::MAX as u64);
    lemma_takes_decimal(w, "--window"@);
    lemma_takes_list(w, "--border"@, a.border);
    if let Some(b) = a.border {
        assert(views(b@).len() == b@.len());
    }
    if a.fast_integration_ms is Some {
        let v = flag_value(w, "--fast-integration"@)->0;
        assert(given(w, "--fast-integration"@, v));
    }
}

/// `capture` takes each of its figures from the flag that is named for it, writes to
/// its own file unless it is told otherwise, and probes gamuts only if it is asked to.
pub proof fn capture_is_told_by_its_flags(args: &[String], a: CaptureArgs)
    requires
        scatter_total(flag_values(views(args@), "--seq"@)) <= usize::MAX,
        call_ensures(capture_args, (args,), Ok::<CaptureArgs, String>(a)),
    ensures
        ({
            let w = views(args@);
            &&& given(w, "--output"@, a.output@)
            &&& given(w, "--out"@, a.out_path@) || (takes_text(w, "--out"@, None) && a.out_path@
                == "capture.json"@)
            &&& takes_number(w, "--cal"@, a.cal_index as int, 0, 255)
            &&& takes_number(w, "--settle-ms"@, a.settle_ms as int, 250, u64::MAX as int)
            &&& takes_number(w, "--prep-secs"@, a.prep_secs as int, 6, u64::MAX as int)
            &&& takes_decimal(w, "--window"@, text_of_option(a.window))
            &&& takes_list(w, "--border"@, a.border)
            &&& a.border matches Some(b) ==> b@.len() == 3
            &&& a.formats@.len() == flag_values(w, "--format"@).len()
            &&& a.formats@.len() > 0
            &&& flag_values(w, "--seq"@).len() > 0
            &&& a.gamut is Some <==> w.contains("--probe-gamut"@)
            &&& a.gamut matches Some(g) ==> {
                &&& takes_number(w, "--gamut-repeats"@, g.repeats as int, 4, usize::MAX as int)
                &&& takes_number(w, "--gamut-max-depth"@, g.max_depth as int, 3, u32::MAX as int)
                &&& g.fast_integration_ms is None <==> takes_text(
                    w,
                    "--gamut-fast-integration"@,
                    None,
                )
                &&& g.fast_integration_ms matches Some(ms) ==> exists|v: Seq<char>| #[trigger]
                    given(w, "--gamut-fast-integration"@, v) && unsigned_text(v) == Some(ms as nat)
            }
        }),
{
    let w = views(args@);
    lemma_given(w, "--output"@);
    lemma_given(w, "--out"@);
    lemma_given(w, "--border"@);
    lemma_given(w, "--gamut-fast-integration"@);
    lemma_takes_number(w, "--cal"@, 0, 0xff);
    lemma_takes_number(w, "--settle-ms"@, 250, u64::MAX);
    lemma_takes_number(w, "--prep-secs"@, 6, u64::MAX);
    lemma_takes_number(w, "--gamut-repeats"@, 4, usize::MAX as u64);
    lemma_takes_number(w, "--gamut-max-depth"@, 3, u32::MAX as u64);
    lemma_takes_decimal(w, "--window"@);
    lemma_takes_list(w, "--border"@, a.border);
    if let Some(b) = a.border {
        assert(views(b@).len() == b@.len());
    }
    let specs = flag_values(w, "--format"@);
    assert(format_views(a.formats@).len() == a.formats@.len());
    assert(formats_in(specs)->Ok_0.len() > 0);
    if specs.len() > 0 {
        lemma_formats(specs, 0);
    }
    if let Some(g) = a.gamut {
        if g.fast_integration_ms is Some {
            let v = flag_value(w, "--gamut-fast-integration"@)->0;
            assert(given(w, "--gamut-fast-integration"@, v));
        }
    }
}

/// `sweep` takes each of its figures from the flag that is named for it, and needs
/// nothing but an output. `report` takes its file from the first argument that is no
/// flag.
pub proof fn sweep_and_report_are_told_by_their_flags(
    args: &[String],
    res: Result<SweepArgs, String>,
    r: Result<ReportArgs, String>,
    i: int,
)
    requires
        call_ensures(sweep_args, (args,), res),
        call_ensures(report_args, (args,), r),
        0 <= i < args@.len(),
        forall|j: int| 0 <= j < i ==> is_flag((#[trigger] args@[j])@),
        !is_flag(args@[i]@),
    ensures
        ({
            let w = views(args@);
            &&& res is Err <==> takes_text(w, "--output"@, None)
            &&& res matches Ok(a) ==> {
                &&& given(w, "--output"@, a.output@)
                &&& given(w, "--out"@, a.out_path@) || (takes_text(w, "--out"@, None)
                    && a.out_path@ == "sweep.csv"@)
                &&& takes_number(w, "--cal"@, a.cal_index as int, 0, 255)
                &&& takes_number(w, "--grey-steps"@, a.grey_steps as int, 11, usize::MAX as int)
                &&& takes_number(w, "--prep-secs"@, a.prep_secs as int, 6, u64::MAX as int)
                &&& takes_number(w, "--settle-ms"@, a.settle_ms as int, 250, u64::MAX as int)
            }
            &&& r is Ok
            &&& r matches Ok(a) ==> {
                &&& a.path@ == args@[i]@
                &&& takes_number(w, "--top"@, a.top as int, 8, usize::MAX as int)
            }
        }),
{
    let w = views(args@);
    lemma_given(w, "--output"@);
    lemma_given(w, "--out"@);
    lemma_takes_number(w, "--cal"@, 0, 0xff);
    lemma_takes_number(w, "--grey-steps"@, 11, usize::MAX as u64);
    lemma_takes_number(w, "--prep-secs"@, 6, u64::MAX);
    lemma_takes_number(w, "--settle-ms"@, 250, u64::MAX);
    lemma_takes_number(w, "--top"@, 8, usize::MAX as u64);
    assert forall|j: int| 0 <= j < i implies is_flag(#[trigger] w[j]) by {
        assert(is_flag(args@[j]@));
    }
    assert(is_operand(w, i));
    if let Ok(a) = r {
        let k = choose|k: int| #[trigger] is_operand(w, k) && w[k] == a.path@;
        assert(w[i] == args@[i]@);
        if k > i {
            assert(is_flag(w[i]));
        }
        if k < i {
            assert(is_flag(args@[k]@));
        }
    }
}

} // verus!
