//! Arguments of the command line.
use vstd::prelude::*;

use crate::gather::format::{parse_format, spec_says, FormatName, FormatSpec, SpecView};
use crate::gather::sequence::{
    count_of, parse_scatter, parse_sequence, sequence_of, sequences_are_fractions, spec_arg,
    spec_name, SCATTER_SEED,
};
use crate::gather::session::{are_fractions, ScatterRequest};
use crate::number::CodeValue;
use crate::text::{
    ahead_of, around, chars_of, debug_text, decimal, decimal_reads_back, decimal_text, is_float,
    is_float_text, joined_by, lemma_decimal_digit, lemma_decimal_is_plain, parse_u64, pieces,
    same_text, split, split_undoes_join, text_between, trim, trimmed, trimming_takes_what_is_around,
    unsigned_text, views,
};

verus! {

// ---------------------------------------------------------------------------
// Subcommands
// ---------------------------------------------------------------------------

/// What is to be done.
#[derive(Debug)]
pub enum Command {
    ListOutputs,
    Info,
    Measure,
    Characterize,
    Speed,
    Integration,
    Gamut,
    Capture,
    Report,
    Sweep,
    Analyze,
    Help,
    /// A name that stands for nothing.
    Unknown(String),
}

/// The command of a name.
pub open spec fn names_command(name: Seq<char>, c: Command) -> bool {
    if name == "list-outputs"@ || name == "outputs"@ || name == "ls"@ {
        c is ListOutputs
    } else if name == "info"@ {
        c is Info
    } else if name == "measure"@ {
        c is Measure
    } else if name == "characterize"@ || name == "char"@ {
        c is Characterize
    } else if name == "speed"@ {
        c is Speed
    } else if name == "integration"@ {
        c is Integration
    } else if name == "gamut"@ {
        c is Gamut
    } else if name == "capture"@ {
        c is Capture
    } else if name == "report"@ {
        c is Report
    } else if name == "sweep"@ {
        c is Sweep
    } else if name == "analyze"@ || name == "analyse"@ {
        c is Analyze
    } else if name == "help"@ || name == "-h"@ || name == "--help"@ {
        c is Help
    } else {
        c matches Command::Unknown(n) && n@ == name
    }
}

/// The command that a name stands for.
pub fn command_named(name: &str) -> (res: Command)
    ensures
        names_command(name@, res),
{
    if same_text(name, "list-outputs") || same_text(name, "outputs") || same_text(name, "ls") {
        Command::ListOutputs
    } else if same_text(name, "info") {
        Command::Info
    } else if same_text(name, "measure") {
        Command::Measure
    } else if same_text(name, "characterize") || same_text(name, "char") {
        Command::Characterize
    } else if same_text(name, "speed") {
        Command::Speed
    } else if same_text(name, "integration") {
        Command::Integration
    } else if same_text(name, "gamut") {
        Command::Gamut
    } else if same_text(name, "capture") {
        Command::Capture
    } else if same_text(name, "report") {
        Command::Report
    } else if same_text(name, "sweep") {
        Command::Sweep
    } else if same_text(name, "analyze") || same_text(name, "analyse") {
        Command::Analyze
    } else if same_text(name, "help") || same_text(name, "-h") || same_text(name, "--help") {
        Command::Help
    } else {
        Command::Unknown(name.to_owned())
    }
}

/// The command of a command line, whose first word is the program; help if
/// there is no other.
pub fn command_of(argv: &[String]) -> (res: Command)
    ensures
        argv@.len() >= 2 ==> names_command(argv@[1]@, res),
        argv@.len() < 2 ==> res is Help,
{
    if argv.len() < 2 {
        Command::Help
    } else {
        command_named(argv[1].as_str())
    }
}

// ---------------------------------------------------------------------------
// Flags
// ---------------------------------------------------------------------------

/// The place of the first argument that is a flag; past the end if none is.
pub open spec fn flag_place(args: Seq<Seq<char>>, flag: Seq<char>) -> int
    decreases args.len(),
{
    if args.len() == 0 || args.first() == flag {
        0
    } else {
        1 + flag_place(args.skip(1), flag)
    }
}

/// The argument after the first occurrence of a flag.
pub open spec fn flag_value(args: Seq<Seq<char>>, flag: Seq<char>) -> Option<Seq<char>> {
    let i = flag_place(args, flag);
    if i + 1 < args.len() {
        Some(args[i + 1])
    } else {
        None
    }
}

proof fn lemma_flag_place(args: Seq<Seq<char>>, flag: Seq<char>, i: int)
    requires
        0 <= i <= args.len(),
        forall|j: int| 0 <= j < i ==> #[trigger] args[j] != flag,
        i < args.len() ==> args[i] == flag,
    ensures
        flag_place(args, flag) == i,
    decreases i,
{
    if i > 0 {
        assert(args[0] != flag);
        let rest = args.skip(1);
        assert forall|j: int| 0 <= j < i - 1 implies #[trigger] rest[j] != flag by {
            assert(rest[j] == args[j + 1]);
        }
        lemma_flag_place(rest, flag, i - 1);
    }
}

fn find_flag(args: &[String], flag: &str) -> (res: usize)
    ensures
        res == flag_place(views(args@), flag@),
        res <= args@.len(),
        forall|j: int| 0 <= j < res ==> #[trigger] args@[j]@ != flag@,
        res < args@.len() ==> args@[res as int]@ == flag@,
{
    let mut i: usize = 0;
    while i < args.len() && !same_text(args[i].as_str(), flag)
        invariant
            i <= args@.len(),
            forall|j: int| 0 <= j < i ==> #[trigger] args@[j]@ != flag@,
        decreases args@.len() - i,
    {
        i += 1;
    }
    proof {
        assert forall|j: int| 0 <= j < i implies #[trigger] views(args@)[j] != flag@ by {
            assert(args@[j]@ != flag@);
        }
        lemma_flag_place(views(args@), flag@, i as int);
    }
    i
}

/// A text's contents, if there is one.
pub open spec fn text_of_option(s: Option<String>) -> Option<Seq<char>> {
    match s {
        Some(s) => Some(s@),
        None => None,
    }
}

/// The argument after the first occurrence of a flag.
pub fn arg_value(args: &[String], flag: &str) -> (res: Option<String>)
    ensures
        text_of_option(res) == flag_value(views(args@), flag@),
{
    let i: usize = find_flag(args, flag);
    let n: usize = args.len();
    if i < n && i + 1 < n {
        assert(views(args@)[i + 1] == args@[i + 1]@);
        Some(args[i + 1].clone())
    } else {
        None
    }
}

/// Whether a flag is among the arguments.
pub fn has_flag(args: &[String], flag: &str) -> (res: bool)
    ensures
        res == views(args@).contains(flag@),
{
    let i: usize = find_flag(args, flag);
    proof {
        if i < args@.len() {
            assert(views(args@)[i as int] == flag@);
        } else if views(args@).contains(flag@) {
            let j = choose|j: int| 0 <= j < views(args@).len() && views(args@)[j] == flag@;
            assert(args@[j]@ != flag@);
        }
    }
    i < args.len()
}

/// The values of a flag that may be repeated. A flag right after a flag is its
/// value.
pub open spec fn flag_values(args: Seq<Seq<char>>, flag: Seq<char>) -> Seq<Seq<char>>
    decreases args.len(),
{
    if args.len() == 0 {
        seq![]
    } else if args[0] == flag && args.len() >= 2 {
        seq![args[1]] + flag_values(args.skip(2), flag)
    } else {
        flag_values(args.skip(1), flag)
    }
}

/// Collects the values of a flag that may be repeated.
pub fn collect_values(args: &[String], flag: &str) -> (res: Vec<String>)
    ensures
        views(res@) == flag_values(views(args@), flag@),
{
    let mut out: Vec<String> = Vec::new();
    let mut i: usize = 0;
    let ghost all = views(args@);
    assert(all.skip(0) == all);
    assert(views(out@) + flag_values(all, flag@) == flag_values(all, flag@));
    while i < args.len()
        invariant
            i <= args@.len(),
            all == views(args@),
            all.len() == args@.len(),
            views(out@) + flag_values(all.skip(i as int), flag@) == flag_values(all, flag@),
        decreases args@.len() - i,
    {
        let n: usize = args.len();
        assert(all.skip(i as int)[0] == args@[i as int]@);
        if same_text(args[i].as_str(), flag) && i + 1 < n {
            let ghost before = views(out@);
            let v = args[i + 1].clone();
            out.push(v);
            proof {
                let rest = all.skip(i as int);
                assert(rest[1] == args@[i + 1]@);
                assert(rest.skip(2) == all.skip(i + 2));
                assert(views(out@) == before.push(rest[1]));
                assert(before + (seq![rest[1]] + flag_values(rest.skip(2), flag@)) == views(out@)
                    + flag_values(all.skip(i + 2), flag@));
            }
            i += 2;
        } else {
            assert(all.skip(i as int).skip(1) == all.skip(i + 1));
            i += 1;
        }
    }
    assert(all.skip(i as int).len() == 0);
    assert(views(out@) + flag_values(all.skip(i as int), flag@) == views(out@));
    out
}

/// A number up to `max` as text.
pub open spec fn number_up_to(s: Seq<char>, max: u64) -> Option<u64> {
    match unsigned_text(s) {
        Some(n) if n <= max => Some(n as u64),
        _ => None,
    }
}

/// The number after a flag; the default where there is none, or it is not one
/// of the numbers up to `max`.
pub open spec fn number_opt(args: Seq<Seq<char>>, flag: Seq<char>, default: u64, max: u64) -> u64 {
    match flag_value(args, flag) {
        Some(v) => match number_up_to(v, max) {
            Some(n) => n,
            None => default,
        },
        None => default,
    }
}

/// Reads the number after a flag.
pub fn parse_opt(args: &[String], flag: &str, default: u64, max: u64) -> (res: u64)
    ensures
        res == number_opt(views(args@), flag@, default, max),
{
    match arg_value(args, flag) {
        Some(s) => match parse_u64(s.as_str()) {
            Some(n) if n <= max => n,
            _ => default,
        },
        None => default,
    }
}

/// The optional integration time after a flag: none without the flag, and an
/// error for anything but a number of 16 bits.
pub fn parse_fast_ms(args: &[String], flag: &str) -> (res: Result<Option<u16>, String>)
    ensures
        match flag_value(views(args@), flag@) {
            None => res == Ok::<Option<u16>, String>(None),
            Some(v) => match number_up_to(v, 0xffff) {
                Some(n) => res == Ok::<Option<u16>, String>(Some(n as u16)),
                None => res matches Err(e) && e@ == flag@ + ": expected integer ms"@,
            },
        },
{
    match arg_value(args, flag) {
        None => Ok(None),
        Some(s) => match parse_u64(s.as_str()) {
            Some(n) if n <= 0xffff => Ok(Some(n as u16)),
            _ => {
                let mut e = flag.to_owned();
                e.append(": expected integer ms");
                Err(e)
            },
        },
    }
}

/// A text that starts like a flag.
pub open spec fn is_flag(s: Seq<char>) -> bool {
    s.len() >= 2 && s[0] == '-' && s[1] == '-'
}

/// The first argument that does not start like a flag.
pub fn first_operand(args: &[String]) -> (res: Option<usize>)
    ensures
        match res {
            Some(i) => {
                &&& i < args@.len()
                &&& !is_flag(args@[i as int]@)
                &&& forall|j: int| 0 <= j < i ==> is_flag(#[trigger] args@[j]@)
            },
            None => forall|j: int| 0 <= j < args@.len() ==> is_flag(#[trigger] args@[j]@),
        },
{
    let mut i: usize = 0;
    while i < args.len()
        invariant
            i <= args@.len(),
            forall|j: int| 0 <= j < i ==> is_flag(#[trigger] args@[j]@),
        decreases args@.len() - i,
    {
        let v = chars_of(args[i].as_str());
        if !(v.len() >= 2 && v[0] == '-' && v[1] == '-') {
            return Some(i);
        }
        i += 1;
    }
    None
}

// ---------------------------------------------------------------------------
// Lists
// ---------------------------------------------------------------------------

/// A number of a list.
pub open spec fn list_number(p: Seq<char>) -> Option<usize> {
    match unsigned_text(trimmed(p)) {
        Some(n) if n <= usize::MAX => Some(n as usize),
        _ => None,
    }
}

/// The message about a bad entry of a list.
pub open spec fn list_problem(kind: Seq<char>, p: Seq<char>, list: Seq<char>) -> Seq<char> {
    kind + debug_text(p) + " in list "@ + debug_text(list)
}

/// The numbers of a list's pieces, or the message about the first bad one.
pub open spec fn numbers_in(ps: Seq<Seq<char>>, list: Seq<char>) -> Result<Seq<usize>, Seq<char>>
    decreases ps.len(),
{
    if ps.len() == 0 {
        Ok(seq![])
    } else {
        match numbers_in(ps.drop_last(), list) {
            Err(e) => Err(e),
            Ok(ns) => match list_number(ps.last()) {
                Some(n) => Ok(ns.push(n)),
                None => Err(list_problem("bad integer "@, ps.last(), list)),
            },
        }
    }
}

fn list_error(kind: &str, p: &str, list: &str) -> (res: String)
    ensures
        res@ == list_problem(kind@, p@, list@),
{
    let head = around(kind, p, " in list ");
    ahead_of(head.as_str(), list)
}

/// A bad piece makes the whole list bad, with the message about it.
proof fn lemma_bad_number(ps: Seq<Seq<char>>, i: int, list: Seq<char>)
    requires
        0 <= i < ps.len(),
        numbers_in(ps.take(i), list) is Ok,
        list_number(ps[i]) is None,
    ensures
        numbers_in(ps, list) == Err::<Seq<usize>, Seq<char>>(
            list_problem("bad integer "@, ps[i], list),
        ),
    decreases ps.len(),
{
    if i == ps.len() - 1 {
        assert(ps.drop_last() == ps.take(i));
    } else {
        assert(ps.drop_last().take(i) == ps.take(i));
        lemma_bad_number(ps.drop_last(), i, list);
    }
}

/// Reads a list of numbers with commas between them.
pub fn parse_usize_list(s: &str) -> (res: Result<Vec<usize>, String>)
    ensures
        match (res, numbers_in(pieces(s@, ','), s@)) {
            (Ok(v), Ok(w)) => v@ == w,
            (Err(a), Err(b)) => a@ == b,
            _ => false,
        },
{
    let parts = split(s, ',');
    let ghost ps = views(parts@);
    let mut out: Vec<usize> = Vec::new();
    let mut i: usize = 0;
    assert(ps.take(0).len() == 0);
    while i < parts.len()
        invariant
            i <= parts@.len(),
            ps == views(parts@),
            ps == pieces(s@, ','),
            numbers_in(ps.take(i as int), s@) == Ok::<Seq<usize>, Seq<char>>(out@),
        decreases parts@.len() - i,
    {
        assert(ps[i as int] == parts@[i as int]@);
        assert(ps.take(i + 1).drop_last() == ps.take(i as int));
        let t = trim(parts[i].as_str());
        match parse_u64(t.as_str()) {
            Some(n) if n <= usize::MAX as u64 => {
                out.push(n as usize);
            },
            _ => {
                proof {
                    lemma_bad_number(ps, i as int, s@);
                }
                return Err(list_error("bad integer ", parts[i].as_str(), s));
            },
        }
        i += 1;
    }
    assert(ps.take(i as int) == ps);
    Ok(out)
}

/// The first piece that is no number, if there is one.
pub open spec fn first_non_float(ps: Seq<Seq<char>>) -> Option<Seq<char>>
    decreases ps.len(),
{
    if ps.len() == 0 {
        None
    } else if !is_float_text(trimmed(ps[0])) {
        Some(ps[0])
    } else {
        first_non_float(ps.skip(1))
    }
}

/// Splits a list of decimal numbers into their texts; in the error case the
/// first piece that is none.
fn float_texts(s: &str) -> (res: Result<Vec<String>, String>)
    ensures
        match res {
            Ok(v) => first_non_float(pieces(s@, ',')) is None && views(v@) == pieces(
                s@,
                ',',
            ).map_values(|p: Seq<char>| trimmed(p)),
            Err(e) => first_non_float(pieces(s@, ',')) == Some(e@),
        },
{
    let parts = split(s, ',');
    let ghost ps = views(parts@);
    let mut out: Vec<String> = Vec::new();
    let mut i: usize = 0;
    assert(ps.skip(0) == ps);
    while i < parts.len()
        invariant
            i <= parts@.len(),
            ps == views(parts@),
            ps == pieces(s@, ','),
            first_non_float(ps) == first_non_float(ps.skip(i as int)),
            views(out@) == ps.take(i as int).map_values(|p: Seq<char>| trimmed(p)),
        decreases parts@.len() - i,
    {
        assert(ps.skip(i as int)[0] == parts@[i as int]@);
        assert(ps.skip(i as int).skip(1) == ps.skip(i + 1));
        let t = trim(parts[i].as_str());
        if !is_float(t.as_str()) {
            return Err(parts[i].clone());
        }
        let ghost before = out@;
        out.push(t);
        i += 1;
        assert(views(out@) == views(before).push(out@.last()@));
        assert(views(out@) == ps.take(i as int).map_values(|p: Seq<char>| trimmed(p)));
    }
    assert(ps.take(i as int) == ps);
    assert(ps.skip(i as int).len() == 0);
    Ok(out)
}

/// Reads a list of decimal numbers, as their texts.
pub fn parse_f64_list(s: &str) -> (res: Result<Vec<String>, String>)
    ensures
        match first_non_float(pieces(s@, ',')) {
            None => res matches Ok(v) && views(v@) == pieces(s@, ',').map_values(
                |p: Seq<char>| trimmed(p),
            ),
            Some(p) => res matches Err(e) && e@ == list_problem("bad number "@, p, s@),
        },
{
    match float_texts(s) {
        Ok(v) => Ok(v),
        Err(p) => Err(list_error("bad number ", p.as_str(), s)),
    }
}

/// Reads the levels of a sweep, as their texts.
pub fn parse_levels(s: &str) -> (res: Result<Vec<String>, String>)
    ensures
        match first_non_float(pieces(s@, ',')) {
            None => res matches Ok(v) && views(v@) == pieces(s@, ',').map_values(
                |p: Seq<char>| trimmed(p),
            ),
            Some(p) => res matches Err(e) && e@ == "bad --levels list "@ + debug_text(s@)
                + " (expected comma-separated numbers)"@,
        },
{
    match float_texts(s) {
        Ok(v) => Ok(v),
        Err(_) => Err(
            around("bad --levels list ", s, " (expected comma-separated numbers)"),
        ),
    }
}

/// Reads three decimal numbers, as their texts.
pub fn parse_rgb(s: &str) -> (res: Result<Vec<String>, String>)
    ensures
        match first_non_float(pieces(s@, ',')) {
            Some(p) => res matches Err(e) && e@ == "bad RGB triple "@ + debug_text(s@),
            None => if pieces(s@, ',').len() == 3 {
                res matches Ok(v) && views(v@) == pieces(s@, ',').map_values(
                    |p: Seq<char>| trimmed(p),
                )
            } else {
                res matches Err(e) && e@ == "expected R,G,B (three values), got "@ + debug_text(s@)
            },
        },
{
    match float_texts(s) {
        Ok(v) => {
            assert(views(v@).len() == v@.len());
            if v.len() == 3 {
                Ok(v)
            } else {
                Err(ahead_of("expected R,G,B (three values), got ", s))
            }
        },
        Err(_) => Err(ahead_of("bad RGB triple ", s)),
    }
}

// ---------------------------------------------------------------------------
// The speed test
// ---------------------------------------------------------------------------

/// The numbers of a list that lie in `1..=shots`, each once and in order.
pub open spec fn repeats_of(res: Seq<usize>, list: Seq<usize>, shots: usize) -> bool {
    &&& forall|n: usize| #[trigger] res.contains(n) <==> list.contains(n) && 1 <= n <= shots
    &&& forall|i: int, j: int| 0 <= i < j < res.len() ==> #[trigger] res[i] < #[trigger] res[j]
}

/// Adds a number to an increasing list, unless it is there.
fn insert_number(v: &mut Vec<usize>, n: usize)
    requires
        forall|i: int, j: int|
            0 <= i < j < old(v)@.len() ==> #[trigger] old(v)@[i] < #[trigger] old(v)@[j],
    ensures
        forall|i: int, j: int|
            0 <= i < j < final(v)@.len() ==> #[trigger] final(v)@[i] < #[trigger] final(v)@[j],
        forall|m: usize| #[trigger] final(v)@.contains(m) <==> old(v)@.contains(m) || m == n,
{
    let ghost before = v@;
    let mut at: usize = 0;
    while at < v.len() && v[at] < n
        invariant
            at <= v@.len(),
            v@ == before,
            forall|i: int| 0 <= i < at ==> #[trigger] v@[i] < n,
        decreases v@.len() - at,
    {
        at += 1;
    }
    if at < v.len() && v[at] == n {
        assert(before[at as int] == n);
        return;
    }
    v.insert(at, n);
    assert(v@ == before.insert(at as int, n));
    assert forall|i: int, j: int| 0 <= i < j < v@.len() implies #[trigger] v@[i]
        < #[trigger] v@[j] by {
        if i < at {
            assert(v@[i] == before[i]);
        } else if i > at {
            assert(v@[i] == before[i - 1]);
        }
        if j < at {
            assert(v@[j] == before[j]);
        } else if j > at {
            assert(v@[j] == before[j - 1]);
            if at < before.len() {
                assert(before[at as int] <= before[j - 1]);
            }
        }
    }
    assert forall|m: usize| #[trigger] v@.contains(m) <==> before.contains(m) || m == n by {
        if v@.contains(m) {
            let k = choose|k: int| 0 <= k < v@.len() && v@[k] == m;
            if k < at {
                assert(before[k] == m);
            } else if k > at {
                assert(before[k - 1] == m);
            }
        }
        if before.contains(m) {
            let k = choose|k: int| 0 <= k < before.len() && before[k] == m;
            if k < at {
                assert(v@[k] == m);
            } else {
                assert(v@[k + 1] == m);
            }
        }
        if m == n {
            assert(v@[at as int] == n);
        }
    }
}

/// Chooses the repeat counts of a speed test: those that the shots allow, in
/// order; an error if none is left.
pub fn speed_repeats(list: &Vec<usize>, shots: usize) -> (res: Result<Vec<usize>, String>)
    ensures
        match res {
            Ok(v) => v@.len() > 0 && repeats_of(v@, list@, shots),
            Err(e) => {
                &&& forall|n: usize| #[trigger] list@.contains(n) ==> !(1 <= n <= shots)
                &&& e@ == "--repeats: no valid N values (must be 1..="@ + decimal_text(
                    shots as nat,
                ) + ")"@
            },
        },
{
    let mut v: Vec<usize> = Vec::new();
    let mut i: usize = 0;
    while i < list.len()
        invariant
            i <= list@.len(),
            repeats_of(v@, list@.take(i as int), shots),
        decreases list@.len() - i,
    {
        let n: usize = list[i];
        let ghost before = v@;
        let ghost t = list@.take(i as int);
        let ghost u = list@.take(i + 1);
        assert(u == t.push(n));
        assert forall|m: usize| #[trigger] u.contains(m) <==> t.contains(m) || m == n by {
            if t.contains(m) {
                let k = choose|k: int| 0 <= k < t.len() && t[k] == m;
                assert(u[k] == m);
            }
            if m == n {
                assert(u[i as int] == m);
            }
            if u.contains(m) && m != n {
                let k = choose|k: int| 0 <= k < u.len() && u[k] == m;
                assert(t[k] == m);
            }
        }
        if 1 <= n && n <= shots {
            insert_number(&mut v, n);
        }
        assert forall|m: usize| #[trigger] v@.contains(m) <==> u.contains(m) && 1 <= m <= shots by {
            assert(before.contains(m) <==> t.contains(m) && 1 <= m <= shots);
        }
        i += 1;
    }
    assert(list@.take(i as int) == list@);
    if v.len() == 0 {
        assert forall|n: usize| #[trigger] list@.contains(n) implies !(1 <= n <= shots) by {
            assert(!v@.contains(n));
        }
        let mut e = "--repeats: no valid N values (must be 1..=".to_owned();
        e.append(decimal(shots as u64).as_str());
        e.append(")");
        return Err(e);
    }
    Ok(v)
}

/// The reset disciplines of a speed test, `true` for a reset before each
/// reading.
pub fn speed_modes(mode: &str) -> (res: Result<Vec<bool>, String>)
    ensures
        if mode@ == "auto-zero"@ || mode@ == "auto"@ {
            res matches Ok(v) && v@ == seq![true]
        } else if mode@ == "burst"@ {
            res matches Ok(v) && v@ == seq![false]
        } else if mode@ == "both"@ {
            res matches Ok(v) && v@ == seq![true, false]
        } else {
            res matches Err(e) && e@ == "--mode: expected auto-zero|burst|both, got "@ + debug_text(
                mode@,
            )
        },
{
    let mut v: Vec<bool> = Vec::new();
    if same_text(mode, "auto-zero") || same_text(mode, "auto") {
        v.push(true);
    } else if same_text(mode, "burst") {
        v.push(false);
    } else if same_text(mode, "both") {
        v.push(true);
        v.push(false);
    } else {
        return Err(ahead_of("--mode: expected auto-zero|burst|both, got ", mode));
    }
    Ok(v)
}

/// The integration times of a list, each capped at what 16 bits hold.
pub fn integration_times(list: &Vec<usize>) -> (res: Vec<u16>)
    ensures
        res@ == list@.map_values(
            |n: usize|
                if n > 0xffff {
                    0xffffu16
                } else {
                    n as u16
                },
        ),
{
    let mut v: Vec<u16> = Vec::new();
    let mut i: usize = 0;
    let ghost cap = |n: usize|
        if n > 0xffff {
            0xffffu16
        } else {
            n as u16
        };
    while i < list.len()
        invariant
            i <= list@.len(),
            cap == (|n: usize|
                if n > 0xffff {
                    0xffffu16
                } else {
                    n as u16
                }),
            v@ == list@.take(i as int).map_values(cap),
        decreases list@.len() - i,
    {
        let n: usize = list[i];
        v.push(
            if n > 0xffff {
                0xffff
            } else {
                n as u16
            },
        );
        i += 1;
        assert(v@ == list@.take(i as int).map_values(cap));
    }
    assert(list@.take(i as int) == list@);
    v
}

// ---------------------------------------------------------------------------
// Captures
// ---------------------------------------------------------------------------

/// The formats of some specs, or the message about the first bad one.
pub open spec fn formats_in(specs: Seq<Seq<char>>) -> Result<Seq<SpecView>, Seq<char>>
    decreases specs.len(),
{
    if specs.len() == 0 {
        Ok(seq![])
    } else {
        match formats_in(specs.drop_last()) {
            Err(e) => Err(e),
            Ok(fs) => match spec_says(specs.last()) {
                Ok(f) => Ok(fs.push(f)),
                Err(e) => Err(e),
            },
        }
    }
}

proof fn lemma_bad_format(specs: Seq<Seq<char>>, i: int)
    requires
        0 <= i < specs.len(),
        formats_in(specs.take(i)) is Ok,
        spec_says(specs[i]) is Err,
    ensures
        formats_in(specs) == Err::<Seq<SpecView>, Seq<char>>(spec_says(specs[i])->Err_0),
    decreases specs.len(),
{
    if i == specs.len() - 1 {
        assert(specs.drop_last() == specs.take(i));
    } else {
        assert(specs.drop_last().take(i) == specs.take(i));
        lemma_bad_format(specs.drop_last(), i);
    }
}

/// Format specs by their contents.
pub open spec fn format_views(fs: Seq<FormatSpec>) -> Seq<SpecView> {
    fs.map_values(|f: FormatSpec| f@)
}

/// Reads the formats of a capture; there has to be one.
pub fn capture_formats(specs: &Vec<String>) -> (res: Result<Vec<FormatSpec>, String>)
    ensures
        match formats_in(views(specs@)) {
            Err(e) => res matches Err(a) && a@ == e,
            Ok(fs) => if fs.len() == 0 {
                res matches Err(a) && a@
                    == "at least one --format is required (see `tristim help`)"@
            } else {
                res matches Ok(v) && format_views(v@) == fs
            },
        },
{
    let mut out: Vec<FormatSpec> = Vec::new();
    let ghost all = views(specs@);
    let mut i: usize = 0;
    assert(all.take(0).len() == 0);
    assert(format_views(out@) == Seq::<SpecView>::empty());
    while i < specs.len()
        invariant
            i <= specs@.len(),
            all == views(specs@),
            all.len() == specs@.len(),
            formats_in(all.take(i as int)) == Ok::<Seq<SpecView>, Seq<char>>(format_views(out@)),
        decreases specs@.len() - i,
    {
        assert(all[i as int] == specs@[i as int]@);
        assert(all.take(i + 1).drop_last() == all.take(i as int));
        match parse_format(specs[i].as_str()) {
            Ok(f) => {
                let ghost before = format_views(out@);
                out.push(f);
                assert(format_views(out@) == before.push(f@));
            },
            Err(e) => {
                proof {
                    lemma_bad_format(all, i as int);
                }
                return Err(e);
            },
        }
        i += 1;
    }
    assert(all.take(i as int) == all);
    if out.len() == 0 {
        return Err("at least one --format is required (see `tristim help`)".to_owned());
    }
    Ok(out)
}

/// The count of a scatter spec; none for another spec.
pub open spec fn scatter_count(spec: Seq<char>) -> Result<Option<usize>, Seq<char>> {
    if spec_name(spec) == "scatter"@ {
        match count_of(spec_arg(spec), 32) {
            Ok(n) => Ok(Some(n)),
            Err(e) => Err(e),
        }
    } else {
        Ok(None)
    }
}

/// All the scatter points that some specs ask for.
pub open spec fn scatter_total(specs: Seq<Seq<char>>) -> nat
    decreases specs.len(),
{
    if specs.len() == 0 {
        0
    } else {
        scatter_total(specs.drop_last()) + match scatter_count(specs.last()) {
            Ok(Some(n)) => n as nat,
            _ => 0nat,
        }
    }
}

/// The code values of the sequence specs among some, one after the other, or the
/// message about the first bad spec.
pub open spec fn sequences_in(specs: Seq<Seq<char>>) -> Result<Seq<CodeValue>, Seq<char>>
    decreases specs.len(),
{
    if specs.len() == 0 {
        Ok(seq![])
    } else {
        match sequences_in(specs.drop_last()) {
            Err(e) => Err(e),
            Ok(cs) => match scatter_count(specs.last()) {
                Err(e) => Err(e),
                Ok(Some(_)) => Ok(cs),
                Ok(None) => match sequence_of(specs.last()) {
                    Ok(more) => Ok(cs + more),
                    Err(e) => Err(e),
                },
            },
        }
    }
}

/// What the sequence specs of a capture ask for is made of fractions, as a session
/// needs it.
pub proof fn asked_sequences_are_fractions(specs: Seq<Seq<char>>)
    ensures
        sequences_in(specs) matches Ok(s) ==> are_fractions(s),
    decreases specs.len(),
{
    if specs.len() > 0 {
        asked_sequences_are_fractions(specs.drop_last());
        sequences_are_fractions(specs.last());
    }
}

proof fn lemma_bad_sequence(specs: Seq<Seq<char>>, i: int)
    requires
        0 <= i < specs.len(),
        sequences_in(specs.take(i + 1)) is Err,
    ensures
        sequences_in(specs) == sequences_in(specs.take(i + 1)),
    decreases specs.len(),
{
    if i == specs.len() - 1 {
        assert(specs.take(i + 1) == specs);
    } else {
        assert(specs.drop_last().take(i + 1) == specs.take(i + 1));
        lemma_bad_sequence(specs.drop_last(), i);
    }
}

proof fn lemma_scatter_total_grows(specs: Seq<Seq<char>>, i: int)
    requires
        0 <= i <= specs.len(),
    ensures
        scatter_total(specs.take(i)) <= scatter_total(specs),
    decreases specs.len(),
{
    if i < specs.len() {
        assert(specs.drop_last().take(i) == specs.take(i));
        lemma_scatter_total_grows(specs.drop_last(), i);
    } else {
        assert(specs.take(i) == specs);
    }
}

/// Whether all the scatter points that some specs ask for can be counted.
pub fn scatter_fits(specs: &Vec<String>) -> (res: bool)
    ensures
        res == (scatter_total(views(specs@)) <= usize::MAX),
{
    let mut count: usize = 0;
    let ghost all = views(specs@);
    let mut i: usize = 0;
    assert(all.take(0).len() == 0);
    while i < specs.len()
        invariant
            i <= specs@.len(),
            all == views(specs@),
            all.len() == specs@.len(),
            count == scatter_total(all.take(i as int)),
        decreases specs@.len() - i,
    {
        assert(all[i as int] == specs@[i as int]@);
        assert(all.take(i + 1).drop_last() == all.take(i as int));
        proof {
            lemma_scatter_total_grows(all, i + 1);
        }
        if let Ok(Some(n)) = parse_scatter(specs[i].as_str()) {
            if n > usize::MAX - count {
                return false;
            }
            count += n;
        }
        i += 1;
    }
    assert(all.take(i as int) == all);
    true
}

/// What a capture steps through.
#[derive(Debug)]
pub struct SweepPlan {
    pub sequence: Vec<CodeValue>,
    pub scatter: Option<ScatterRequest>,
}

/// Reads the sequences of a capture; there has to be one. Scatter points are
/// only counted: they are drawn for each format.
pub fn capture_sequences(specs: &Vec<String>) -> (res: Result<SweepPlan, String>)
    requires
        scatter_total(views(specs@)) <= usize::MAX,
    ensures
        if specs@.len() == 0 {
            res matches Err(e) && e@ == "at least one --seq is required (see `tristim help`)"@
        } else {
            match sequences_in(views(specs@)) {
                Err(e) => res matches Err(a) && a@ == e,
                Ok(cs) => res matches Ok(p) && p.sequence@ == cs && p.scatter == if scatter_total(
                    views(specs@),
                ) > 0 {
                    Some(
                        ScatterRequest {
                            count: scatter_total(views(specs@)) as usize,
                            seed: SCATTER_SEED,
                        },
                    )
                } else {
                    None
                },
            }
        },
{
    if specs.len() == 0 {
        return Err("at least one --seq is required (see `tristim help`)".to_owned());
    }
    let mut sequence: Vec<CodeValue> = Vec::new();
    let mut count: usize = 0;
    let ghost all = views(specs@);
    let mut i: usize = 0;
    assert(all.take(0).len() == 0);
    while i < specs.len()
        invariant
            i <= specs@.len(),
            all == views(specs@),
            all.len() == specs@.len(),
            scatter_total(all) <= usize::MAX,
            count == scatter_total(all.take(i as int)),
            sequences_in(all.take(i as int)) == Ok::<Seq<CodeValue>, Seq<char>>(sequence@),
        decreases specs@.len() - i,
    {
        assert(all[i as int] == specs@[i as int]@);
        assert(all.take(i + 1).drop_last() == all.take(i as int));
        proof {
            lemma_scatter_total_grows(all, i + 1);
        }
        match parse_scatter(specs[i].as_str()) {
            Err(e) => {
                proof {
                    lemma_bad_sequence(all, i as int);
                }
                return Err(e);
            },
            Ok(Some(n)) => {
                count += n;
            },
            Ok(None) => match parse_sequence(specs[i].as_str()) {
                Err(e) => {
                    proof {
                        lemma_bad_sequence(all, i as int);
                    }
                    return Err(e);
                },
                Ok(more) => {
                    let ghost before = sequence@;
                    let mut more = more;
                    let ghost added = more@;
                    sequence.append(&mut more);
                    assert(sequence@ == before + added);
                },
            },
        }
        i += 1;
    }
    assert(all.take(i as int) == all);
    Ok(
        SweepPlan {
            sequence,
            scatter: if count > 0 {
                Some(ScatterRequest { count, seed: SCATTER_SEED })
            } else {
                None
            },
        },
    )
}

// ---------------------------------------------------------------------------
// Short names
// ---------------------------------------------------------------------------

/// Bytes that a character takes in UTF-8.
pub open spec fn char_bytes(c: char) -> nat {
    if (c as u32) < 0x80 {
        1
    } else if (c as u32) < 0x800 {
        2
    } else if (c as u32) < 0x1_0000 {
        3
    } else {
        4
    }
}

/// Bytes that a text takes in UTF-8.
pub open spec fn text_bytes(s: Seq<char>) -> nat
    decreases s.len(),
{
    if s.len() == 0 {
        0
    } else {
        text_bytes(s.drop_last()) + char_bytes(s.last())
    }
}

proof fn lemma_text_bytes_grow(s: Seq<char>, i: int, j: int)
    requires
        0 <= i <= j <= s.len(),
    ensures
        text_bytes(s.take(i)) + (j - i) <= text_bytes(s.take(j)),
    decreases j,
{
    if i < j {
        assert(s.take(j).drop_last() == s.take(j - 1));
        lemma_text_bytes_grow(s, i, j - 1);
    }
}

fn char_width(c: char) -> (res: usize)
    ensures
        res == char_bytes(c),
{
    let n: u32 = c as u32;
    if n < 0x80 {
        1
    } else if n < 0x800 {
        2
    } else if n < 0x1_0000 {
        3
    } else {
        4
    }
}

/// Shortens a text to a number of bytes, the last of them for an ellipsis.
pub fn abbrev(s: &str, max: usize) -> (res: String)
    requires
        max >= 1,
        text_bytes(s@) > max ==> exists|k: int|
            0 <= k <= s@.len() && text_bytes(#[trigger] s@.take(k)) == max - 1,
    ensures
        text_bytes(s@) <= max ==> res@ == s@,
        text_bytes(s@) > max ==> exists|k: int|
            0 <= k <= s@.len() && text_bytes(#[trigger] s@.take(k)) == max - 1 && res@ == s@.take(k)
                + seq!['\u{2026}'],
{
    let v = chars_of(s);
    let mut i: usize = 0;
    let mut bytes: usize = 0;
    let mut cut: usize = 0;
    assert(s@.take(0).len() == 0);
    while i < v.len()
        invariant
            i <= v@.len(),
            v@ == s@,
            max >= 1,
            bytes == text_bytes(s@.take(i as int)),
            bytes <= max,
            cut <= i,
            text_bytes(s@.take(cut as int)) <= max - 1,
            forall|k: int|
                0 <= k <= i && text_bytes(#[trigger] s@.take(k)) == max - 1 ==> cut == k,
            text_bytes(s@) > max ==> exists|k: int|
                0 <= k <= s@.len() && text_bytes(#[trigger] s@.take(k)) == max - 1,
        decreases v@.len() - i,
    {
        assert(s@.take(i + 1).drop_last() == s@.take(i as int));
        let w: usize = char_width(v[i]);
        if w > max - bytes {
            proof {
                lemma_text_bytes_grow(s@, i + 1, s@.len() as int);
                assert(s@.take(s@.len() as int) == s@);
                let k = choose|k: int|
                    0 <= k <= s@.len() && text_bytes(#[trigger] s@.take(k)) == max - 1;
                if k > i {
                    lemma_text_bytes_grow(s@, i + 1, k);
                }
                assert(cut == k);
                assert(s@.take(cut as int) == v@.subrange(0, cut as int));
            }
            let mut out = text_between(&v, 0, cut);
            out.push('\u{2026}');
            assert(out@ == s@.take(cut as int) + seq!['\u{2026}']);
            return out;
        }
        bytes += w;
        i += 1;
        if bytes == max - 1 {
            proof {
                assert forall|k: int| 0 <= k <= i && text_bytes(#[trigger] s@.take(k)) == max - 1
                    implies k == i by {
                    if k < i {
                        lemma_text_bytes_grow(s@, k, i as int);
                    }
                }
            }
            cut = i;
        }
    }
    assert(s@.take(i as int) == s@);
    s.to_owned()
}

// ---------------------------------------------------------------------------
// What is read
// ---------------------------------------------------------------------------

/// A command answers to its name and to its short forms, and to nothing else.
pub proof fn commands_answer_to_their_names(argv: &[String], res: Command)
    requires
        call_ensures(command_of, (argv,), res),
        argv@.len() >= 2,
    ensures
        ({
            let n = argv@[1]@;
            &&& res is ListOutputs <==> n == "list-outputs"@ || n == "outputs"@ || n == "ls"@
            &&& res is Info <==> n == "info"@
            &&& res is Measure <==> n == "measure"@
            &&& res is Characterize <==> n == "characterize"@ || n == "char"@
            &&& res is Speed <==> n == "speed"@
            &&& res is Integration <==> n == "integration"@
            &&& res is Gamut <==> n == "gamut"@
            &&& res is Capture <==> n == "capture"@
            &&& res is Report <==> n == "report"@
            &&& res is Sweep <==> n == "sweep"@
            &&& res is Analyze <==> n == "analyze"@ || n == "analyse"@
            &&& res is Help <==> n == "help"@ || n == "-h"@ || n == "--help"@
            &&& res matches Command::Unknown(u) ==> u@ == n
        }),
{
    reveal_strlit("list-outputs");
    reveal_strlit("outputs");
    reveal_strlit("ls");
    reveal_strlit("info");
    reveal_strlit("measure");
    reveal_strlit("characterize");
    reveal_strlit("char");
    reveal_strlit("speed");
    reveal_strlit("integration");
    reveal_strlit("gamut");
    reveal_strlit("capture");
    reveal_strlit("report");
    reveal_strlit("sweep");
    reveal_strlit("analyze");
    reveal_strlit("analyse");
    reveal_strlit("help");
    reveal_strlit("-h");
    reveal_strlit("--help");
    assert("list-outputs"@.len() == 12 && "list-outputs"@[0] == 'l');
    assert("outputs"@.len() == 7 && "outputs"@[0] == 'o');
    assert("ls"@.len() == 2 && "ls"@[0] == 'l');
    assert("info"@.len() == 4 && "info"@[0] == 'i');
    assert("measure"@.len() == 7 && "measure"@[0] == 'm');
    assert("characterize"@.len() == 12 && "characterize"@[0] == 'c');
    assert("char"@.len() == 4 && "char"@[0] == 'c');
    assert("speed"@.len() == 5 && "speed"@[0] == 's' && "speed"@[1] == 'p');
    assert("integration"@.len() == 11 && "integration"@[0] == 'i');
    assert("gamut"@.len() == 5 && "gamut"@[0] == 'g');
    assert("capture"@.len() == 7 && "capture"@[0] == 'c');
    assert("report"@.len() == 6 && "report"@[0] == 'r');
    assert("sweep"@.len() == 5 && "sweep"@[0] == 's' && "sweep"@[1] == 'w');
    assert("analyze"@.len() == 7 && "analyze"@[0] == 'a');
    assert("analyse"@.len() == 7 && "analyse"@[0] == 'a');
    assert("help"@.len() == 4 && "help"@[0] == 'h');
    assert("-h"@.len() == 2 && "-h"@[0] == '-');
    assert("--help"@.len() == 6 && "--help"@[0] == '-');
}

/// A flag stands at a place for the first time.
pub open spec fn first_at(args: Seq<Seq<char>>, flag: Seq<char>, i: int) -> bool {
    &&& 0 <= i < args.len()
    &&& args[i] == flag
    &&& forall|j: int| 0 <= j < i ==> #[trigger] args[j] != flag
}

/// The value of a flag is what stands right behind its first occurrence.
pub open spec fn given(args: Seq<Seq<char>>, flag: Seq<char>, value: Seq<char>) -> bool {
    exists|i: int| #[trigger] first_at(args, flag, i) && i + 1 < args.len() && args[i + 1] == value
}

pub(crate) proof fn lemma_given(args: Seq<Seq<char>>, flag: Seq<char>)
    ensures
        match flag_value(args, flag) {
            Some(v) => given(args, flag, v),
            None => forall|v: Seq<char>| !#[trigger] given(args, flag, v),
        },
        forall|v: Seq<char>| #[trigger] given(args, flag, v) ==> flag_value(args, flag) == Some(v),
{
    lemma_first_place(args, flag);
    let i = flag_place(args, flag);
    if i < args.len() {
        assert(first_at(args, flag, i));
    }
    assert forall|v: Seq<char>| #[trigger] given(args, flag, v) implies flag_value(args, flag)
        == Some(v) by {
        let k = choose|k: int| #[trigger]
            first_at(args, flag, k) && k + 1 < args.len() && args[k + 1] == v;
        lemma_flag_place(args, flag, k);
    }
}

proof fn lemma_first_place(args: Seq<Seq<char>>, flag: Seq<char>)
    ensures
        ({
            let i = flag_place(args, flag);
            &&& 0 <= i <= args.len()
            &&& i < args.len() ==> args[i] == flag
            &&& forall|j: int| 0 <= j < i ==> #[trigger] args[j] != flag
        }),
    decreases args.len(),
{
    if args.len() > 0 && args.first() != flag {
        let rest = args.skip(1);
        lemma_first_place(rest, flag);
        assert forall|j: int| 0 <= j < flag_place(args, flag) implies #[trigger] args[j] != flag by {
            if j > 0 {
                assert(args[j] == rest[j - 1]);
            }
        }
    }
}

/// The value of a flag is found where it stands; a flag that is missing, or that has
/// nothing behind it, has none.
pub proof fn flags_have_the_value_behind_them(
    args: &[String],
    flag: &str,
    v: Seq<char>,
    res: Option<String>,
)
    requires
        call_ensures(arg_value, (args, flag), res),
    ensures
        given(views(args@), flag@, v) ==> res is Some && res->0@ == v,
        res matches Some(s) ==> given(views(args@), flag@, s@),
        !views(args@).contains(flag@) ==> res is None,
{
    let w = views(args@);
    lemma_given(w, flag@);
    if let Some(s) = res {
        let i = choose|i: int| #[trigger]
            first_at(w, flag@, i) && i + 1 < w.len() && w[i + 1] == s@;
        assert(w[i] == flag@);
    }
}

/// What a flag with a number comes to: the number behind it if there is one that is
/// small enough, and otherwise the default.
pub open spec fn takes_number(
    args: Seq<Seq<char>>,
    flag: Seq<char>,
    value: int,
    default: int,
    max: int,
) -> bool {
    &&& forall|v: Seq<char>| #[trigger]
        given(args, flag, v) ==> match unsigned_text(v) {
            Some(n) => value == if n <= max {
                n as int
            } else {
                default
            },
            None => value == default,
        }
    &&& (forall|v: Seq<char>| !#[trigger] given(args, flag, v)) ==> value == default
}

pub(crate) proof fn lemma_takes_number(
    args: Seq<Seq<char>>,
    flag: Seq<char>,
    default: u64,
    max: u64,
)
    ensures
        takes_number(
            args,
            flag,
            number_opt(args, flag, default, max) as int,
            default as int,
            max as int,
        ),
{
    lemma_given(args, flag);
}

/// The number behind a flag is taken, whatever it is up to the greatest; anything else
/// leaves the default.
pub proof fn numbers_behind_flags_are_taken(
    args: &[String],
    flag: &str,
    default: u64,
    max: u64,
    n: nat,
    res: u64,
)
    requires
        call_ensures(parse_opt, (args, flag, default, max), res),
    ensures
        takes_number(views(args@), flag@, res as int, default as int, max as int),
        given(views(args@), flag@, decimal_text(n)) && n <= max ==> res == n,
        given(views(args@), flag@, decimal_text(n)) && n > max ==> res == default,
        !views(args@).contains(flag@) ==> res == default,
{
    let w = views(args@);
    lemma_takes_number(w, flag@, default, max);
    lemma_given(w, flag@);
    decimal_reads_back(n);
    if !w.contains(flag@) {
        assert forall|v: Seq<char>| !#[trigger] given(w, flag@, v) by {
            if given(w, flag@, v) {
                let i = choose|i: int| #[trigger]
                    first_at(w, flag@, i) && i + 1 < w.len() && w[i + 1] == v;
                assert(w[i] == flag@);
            }
        }
    }
}

/// An integration time is taken from behind its flag if it has 16 bits, refused if it
/// is anything else, and absent without the flag.
pub proof fn integration_times_have_16_bits(
    args: &[String],
    flag: &str,
    n: nat,
    res: Result<Option<u16>, String>,
)
    requires
        call_ensures(parse_fast_ms, (args, flag), res),
    ensures
        given(views(args@), flag@, decimal_text(n)) && n <= 65535 ==> res is Ok
            && res->Ok_0 is Some && res->Ok_0->0 == n,
        given(views(args@), flag@, decimal_text(n)) && n > 65535 ==> res is Err,
        !views(args@).contains(flag@) ==> res is Ok && res->Ok_0 is None,
{
    let w = views(args@);
    lemma_given(w, flag@);
    decimal_reads_back(n);
    if !w.contains(flag@) {
        assert forall|v: Seq<char>| !#[trigger] given(w, flag@, v) by {
            if given(w, flag@, v) {
                let i = choose|i: int| #[trigger]
                    first_at(w, flag@, i) && i + 1 < w.len() && w[i + 1] == v;
                assert(w[i] == flag@);
            }
        }
    }
}

/// The values of a repeated flag are collected in the order in which they stand:
/// whatever else stands in front of the first pair is passed over.
pub proof fn values_are_collected_in_order(
    before: Seq<Seq<char>>,
    flag: Seq<char>,
    value: Seq<char>,
    rest: Seq<Seq<char>>,
)
    requires
        !before.contains(flag),
    ensures
        flag_values(before + seq![flag, value] + rest, flag) == seq![value] + flag_values(
            rest,
            flag,
        ),
        flag_values(before, flag).len() == 0,
        flag_values(before.push(flag), flag).len() == 0,
    decreases before.len(),
{
    let all = before + seq![flag, value] + rest;
    if before.len() == 0 {
        assert(all.skip(2) == rest);
        assert(before.push(flag).skip(1).len() == 0);
        assert(flag_values(before.push(flag).skip(1), flag).len() == 0);
    } else {
        assert(before.contains(before[0]));
        let more = before.skip(1);
        assert(all[0] == before[0]);
        assert(all.skip(1) == more + seq![flag, value] + rest);
        assert(before.push(flag)[0] == before[0]);
        assert(before.push(flag).skip(1) == more.push(flag));
        if more.contains(flag) {
            let k = choose|k: int| 0 <= k < more.len() && more[k] == flag;
            assert(before[k + 1] == flag);
        }
        values_are_collected_in_order(more, flag, value, rest);
    }
}

proof fn lemma_numbers(ps: Seq<Seq<char>>, ns: Seq<usize>, list: Seq<char>)
    requires
        ps.len() == ns.len(),
        forall|i: int| 0 <= i < ps.len() ==> list_number(#[trigger] ps[i]) == Some(ns[i]),
    ensures
        numbers_in(ps, list) == Ok::<Seq<usize>, Seq<char>>(ns),
    decreases ps.len(),
{
    if ps.len() > 0 {
        let front = ps.drop_last();
        let nf = ns.drop_last();
        assert forall|i: int| 0 <= i < front.len() implies list_number(#[trigger] front[i]) == Some(
            nf[i],
        ) by {
            assert(front[i] == ps[i]);
        }
        lemma_numbers(front, nf, list);
        assert(list_number(ps[ps.len() - 1]) == Some(ns[ns.len() - 1]));
        assert(nf.push(ns.last()) == ns);
    } else {
        assert(ns == Seq::<usize>::empty());
    }
}

proof fn lemma_decimal_is_trimmed(n: nat)
    ensures
        trimmed(decimal_text(n)) == decimal_text(n),
{
    let d = decimal_text(n);
    decimal_reads_back(n);
    lemma_decimal_digit(n, 0);
    lemma_decimal_digit(n, d.len() - 1);
    let e = Seq::<char>::empty();
    trimming_takes_what_is_around(e, d, e);
    assert(e + d + e == d);
}

/// Numbers that are written with commas between them are read back, all of them and in
/// their order.
pub proof fn written_lists_are_read(ns: Seq<usize>, s: &str, res: Result<Vec<usize>, String>)
    requires
        ns.len() > 0,
        s@ == joined_by(ns.map_values(|n: usize| decimal_text(n as nat)), ','),
        call_ensures(parse_usize_list, (s,), res),
    ensures
        res is Ok && res->Ok_0@ == ns,
{
    let ps = ns.map_values(|n: usize| decimal_text(n as nat));
    assert forall|i: int| 0 <= i < ps.len() implies !(#[trigger] ps[i]).contains(',') by {
        lemma_decimal_is_plain(ns[i] as nat, ',');
    }
    split_undoes_join(ps, ',');
    assert forall|i: int| 0 <= i < ps.len() implies list_number(#[trigger] ps[i]) == Some(
        ns[i],
    ) by {
        lemma_decimal_is_trimmed(ns[i] as nat);
        decimal_reads_back(ns[i] as nat);
    }
    lemma_numbers(ps, ns, s@);
}

proof fn lemma_non_float(ps: Seq<Seq<char>>, i: int)
    requires
        0 <= i < ps.len(),
        first_non_float(ps) is None,
    ensures
        is_float_text(trimmed(ps[i])),
    decreases ps.len(),
{
    if i > 0 {
        lemma_non_float(ps.skip(1), i - 1);
        assert(ps.skip(1)[i - 1] == ps[i]);
    }
}

proof fn lemma_some_non_float(ps: Seq<Seq<char>>, i: int)
    requires
        0 <= i < ps.len(),
        !is_float_text(trimmed(ps[i])),
    ensures
        first_non_float(ps) is Some,
    decreases ps.len(),
{
    if i > 0 {
        assert(ps.skip(1)[i - 1] == ps[i]);
        lemma_some_non_float(ps.skip(1), i - 1);
    }
}

/// A list of decimal numbers is taken piece by piece, each without the blanks around
/// it, exactly if each of them is a number; a triple has three of them.
pub proof fn decimal_lists_are_taken_piece_by_piece(
    s: &str,
    numbers: Result<Vec<String>, String>,
    levels: Result<Vec<String>, String>,
    rgb: Result<Vec<String>, String>,
    i: int,
)
    requires
        call_ensures(parse_f64_list, (s,), numbers),
        call_ensures(parse_levels, (s,), levels),
        call_ensures(parse_rgb, (s,), rgb),
        0 <= i < pieces(s@, ',').len(),
    ensures
        numbers matches Ok(v) ==> {
            &&& v@.len() == pieces(s@, ',').len()
            &&& v@[i]@ == trimmed(pieces(s@, ',')[i])
            &&& is_float_text(v@[i]@)
        },
        !is_float_text(trimmed(pieces(s@, ',')[i])) ==> numbers is Err && levels is Err && rgb is Err,
        levels is Ok <==> numbers is Ok,
        levels matches Ok(v) ==> v@.len() == pieces(s@, ',').len() && v@[i]@ == trimmed(
            pieces(s@, ',')[i],
        ),
        rgb is Ok <==> numbers is Ok && pieces(s@, ',').len() == 3,
        rgb matches Ok(v) ==> v@.len() == 3 && v@[i]@ == trimmed(pieces(s@, ',')[i]),
{
    let ps = pieces(s@, ',');
    if first_non_float(ps) is None {
        lemma_non_float(ps, i);
    }
    if !is_float_text(trimmed(ps[i])) {
        lemma_some_non_float(ps, i);
    }
    if let Ok(v) = numbers {
        assert(views(v@).len() == v@.len());
        assert(views(v@)[i] == v@[i]@);
    }
    if let Ok(v) = levels {
        assert(views(v@).len() == v@.len());
        assert(views(v@)[i] == v@[i]@);
    }
    if let Ok(v) = rgb {
        assert(views(v@).len() == v@.len());
        assert(views(v@)[i] == v@[i]@);
    }
}

/// The repeat counts of a speed test are those of the list that the shots allow, each
/// once, from the least to the greatest.
pub proof fn repeat_counts_are_sorted(
    list: Vec<usize>,
    shots: usize,
    v: Vec<usize>,
    n: usize,
    i: int,
    j: int,
)
    requires
        call_ensures(speed_repeats, (&list, shots), Ok::<Vec<usize>, String>(v)),
    ensures
        v@.len() > 0,
        v@.contains(n) <==> list@.contains(n) && 1 <= n <= shots,
        0 <= i < j < v@.len() ==> v@[i] < v@[j],
{
}

/// Every integration time of a list is kept in its place, cut to 16 bits.
pub proof fn integration_times_keep_their_places(list: Vec<usize>, v: Vec<u16>, i: int)
    requires
        call_ensures(integration_times, (&list,), v),
        0 <= i < list@.len(),
    ensures
        v@.len() == list@.len(),
        list@[i] <= 65535 ==> v@[i] == list@[i],
        list@[i] > 65535 ==> v@[i] == 65535,
{
}

/// A mode of the speed test resets before each reading, once, or does both in this
/// order.
pub proof fn modes_say_when_to_reset(mode: &str, v: Vec<bool>)
    requires
        call_ensures(speed_modes, (mode,), Ok::<Vec<bool>, String>(v)),
    ensures
        v@.len() == 2 <==> mode@ == "both"@,
        mode@ == "both"@ ==> v@[0] && !v@[1],
        mode@ == "burst"@ ==> v@.len() == 1 && !v@[0],
        mode@ == "auto-zero"@ || mode@ == "auto"@ ==> v@.len() == 1 && v@[0],
{
    reveal_strlit("both");
    reveal_strlit("burst");
    reveal_strlit("auto-zero");
    reveal_strlit("auto");
    assert("both"@[0] == 'b' && "both"@.len() == 4);
    assert("burst"@.len() == 5 && "auto-zero"@.len() == 9);
    assert("auto"@[0] == 'a');
}

pub(crate) proof fn lemma_formats(specs: Seq<Seq<char>>, i: int)
    requires
        formats_in(specs) is Ok,
        0 <= i < specs.len(),
    ensures
        formats_in(specs)->Ok_0.len() == specs.len(),
        spec_says(specs[i]) == Ok::<SpecView, Seq<char>>(formats_in(specs)->Ok_0[i]),
    decreases specs.len(),
{
    let front = specs.drop_last();
    reveal_with_fuel(formats_in, 2);
    if front.len() > 0 {
        if i < front.len() {
            lemma_formats(front, i);
        } else {
            lemma_formats(front, 0);
        }
    }
}

/// The formats of a capture are read one by one and kept in their order.
pub proof fn formats_keep_their_order(
    specs: Vec<String>,
    res: Result<Vec<FormatSpec>, String>,
    i: int,
)
    requires
        call_ensures(capture_formats, (&specs,), res),
        0 <= i < specs@.len(),
    ensures
        res matches Ok(v) ==> {
            &&& v@.len() == specs@.len()
            &&& v@[i].token@ == specs@[i]@
            &&& v@[i].name.text() == spec_name(specs@[i]@)
        },
{
    let all = views(specs@);
    if let Ok(v) = res {
        assert(all.len() == specs@.len());
        lemma_formats(all, i);
        assert(all[i] == specs@[i]@);
        assert(format_views(v@).len() == v@.len());
        assert(format_views(v@)[i] == v@[i]@);
        let name = choose|n: FormatName| #[trigger] n.text() == spec_name(specs@[i]@);
        assert(name.text() == spec_name(specs@[i]@));
    }
}

/// One more sequence is stepped through after those before it, and one more scatter
/// spec adds to the number of points and to nothing else.
pub proof fn sequences_are_stepped_through_in_order(
    specs: Vec<String>,
    more: Vec<String>,
    spec: &str,
    p: SweepPlan,
    q: SweepPlan,
    scattered: Option<usize>,
    codes: Vec<CodeValue>,
)
    requires
        specs@.len() > 0,
        views(more@) == views(specs@).push(spec@),
        call_ensures(capture_sequences, (&specs,), Ok::<SweepPlan, String>(p)),
        call_ensures(capture_sequences, (&more,), Ok::<SweepPlan, String>(q)),
        call_ensures(parse_scatter, (spec,), Ok::<Option<usize>, String>(scattered)),
        scattered is None ==> call_ensures(
            parse_sequence,
            (spec,),
            Ok::<Vec<CodeValue>, String>(codes),
        ),
        scatter_total(views(more@)) <= usize::MAX,
    ensures
        scattered is None ==> q.sequence@ == p.sequence@ + codes@ && q.scatter == p.scatter,
        scattered matches Some(n) ==> {
            &&& q.sequence@ == p.sequence@
            &&& scatter_points(q) == scatter_points(p) + n
        },
        p.scatter matches Some(s) ==> s.seed == SCATTER_SEED && s.count > 0,
{
    let a = views(specs@);
    let b = views(more@);
    assert(a.len() == specs@.len() && b.len() == more@.len());
    assert(b.drop_last() == a);
    assert(b.last() == spec@);
}

/// How many scatter points a plan has.
pub open spec fn scatter_points(p: SweepPlan) -> int {
    match p.scatter {
        Some(s) => s.count as int,
        None => 0,
    }
}

/// A single spec is stepped through by itself.
pub proof fn single_sequences_are_stepped_through(
    specs: Vec<String>,
    spec: &str,
    p: SweepPlan,
    scattered: Option<usize>,
    codes: Vec<CodeValue>,
)
    requires
        views(specs@) == seq![spec@],
        call_ensures(capture_sequences, (&specs,), Ok::<SweepPlan, String>(p)),
        call_ensures(parse_scatter, (spec,), Ok::<Option<usize>, String>(scattered)),
        scattered is None ==> call_ensures(
            parse_sequence,
            (spec,),
            Ok::<Vec<CodeValue>, String>(codes),
        ),
    ensures
        scattered is None ==> p.sequence@ == codes@ && p.scatter is None,
        scattered matches Some(n) ==> p.sequence@.len() == 0 && scatter_points(p) == n,
{
    let a = views(specs@);
    assert(a.len() == specs@.len());
    assert(a.drop_last().len() == 0 && a.last() == spec@);
    reveal_with_fuel(scatter_total, 2);
    reveal_with_fuel(sequences_in, 2);
}

/// A text takes as many bytes as its characters do, and a character below 128 takes
/// one.
pub proof fn bytes_add_up(s: Seq<char>, t: Seq<char>, c: char)
    ensures
        text_bytes(s + t) == text_bytes(s) + text_bytes(t),
        (c as u32) < 128 ==> text_bytes(seq![c]) == 1,
        128 <= (c as u32) < 2048 ==> text_bytes(seq![c]) == 2,
        2048 <= (c as u32) < 65536 ==> text_bytes(seq![c]) == 3,
        65536 <= (c as u32) ==> text_bytes(seq![c]) == 4,
    decreases t.len(),
{
    reveal_with_fuel(text_bytes, 2);
    assert(seq![c].drop_last().len() == 0);
    if t.len() == 0 {
        assert(s + t == s);
    } else {
        bytes_add_up(s, t.drop_last(), c);
        assert((s + t).drop_last() == s + t.drop_last());
    }
}

} // verus!
