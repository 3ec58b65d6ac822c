//! Renderings of a capture's facts in interchange formats: one trial as CGATS
//! `.ti3` display measurement data, and every sample as one flat CSV table.
//!
//! Both are text built from the recorded facts. Numbers come in as the cells
//! they are printed in.
use vstd::arithmetic::power2::{
    lemma2_to64_rest, lemma_pow2_adds, lemma_pow2_pos, lemma_pow2_unfold, pow2,
};
use vstd::prelude::*;

use crate::capture::{AdaptiveTier, Capture, FormatTrial, Negotiation, Sample, SampleSource};
use crate::number::{Double, Triple, ONE_BITS};
use crate::quotient::{
    distance, finite, lemma_units_of, lemma_units_signed, magnitudes_order_the_numbers, units,
};
use crate::text::{
    decimal, decimal_reads_back, decimal_text, join, joined_by, lemma_decimal_is_plain,
    lemma_joined_is_plain, lemma_lines_append, lines_read_back, lines_text, pieces,
    split_undoes_join, unsigned_text, views,
};

verus! {

/// How many patterns above 1.0 are within a billionth of it.
pub const NEAR_ABOVE: u64 = 4503599;

/// How many patterns below 1.0 are within a billionth of it.
pub const NEAR_BELOW: u64 = 9007199;

/// Within a billionth of 1.0.
pub open spec fn near_one(d: Double) -> bool {
    ONE_BITS - NEAR_BELOW <= d.bits <= ONE_BITS + NEAR_ABOVE
}

/// A request for full white.
pub open spec fn asks_white(t: Triple) -> bool {
    near_one(t.a) && near_one(t.b) && near_one(t.c)
}

fn is_near_one(d: Double) -> (res: bool)
    ensures
        res == near_one(d),
{
    ONE_BITS - NEAR_BELOW <= d.bits && d.bits <= ONE_BITS + NEAR_ABOVE
}

/// Sample `i` is the last of the brightest: none has a greater luminance, and
/// none after it an equal one.
pub open spec fn is_brightest(samples: Seq<Sample>, i: int) -> bool {
    &&& 0 <= i < samples.len()
    &&& forall|j: int|
        0 <= j < samples.len() ==> (#[trigger] samples[j]).measured.xyz.b.rank()
            <= samples[i].measured.xyz.b.rank()
    &&& forall|j: int|
        i < j < samples.len() ==> (#[trigger] samples[j]).measured.xyz.b.rank()
            < samples[i].measured.xyz.b.rank()
}

/// Sample `i` is the white of a trial: the first that asked for full white, or
/// without one the last of the brightest.
pub open spec fn is_white(samples: Seq<Sample>, i: int) -> bool {
    &&& 0 <= i < samples.len()
    &&& if exists|j: int| 0 <= j < samples.len() && asks_white((#[trigger] samples[j]).requested) {
        &&& asks_white(samples[i].requested)
        &&& forall|j: int| 0 <= j < i ==> !asks_white((#[trigger] samples[j]).requested)
    } else {
        is_brightest(samples, i)
    }
}

/// A trial has only one white.
pub proof fn white_is_unique(samples: Seq<Sample>, i: int, k: int)
    requires
        is_white(samples, i),
        is_white(samples, k),
    ensures
        i == k,
{
    if i < k {
        assert(samples[i].measured.xyz.b.rank() <= samples[k].measured.xyz.b.rank());
    }
    if k < i {
        assert(samples[k].measured.xyz.b.rank() <= samples[i].measured.xyz.b.rank());
    }
}

/// The last of the brightest samples.
pub fn brightest(samples: &Vec<Sample>) -> (res: Option<usize>)
    ensures
        match res {
            Some(i) => is_brightest(samples@, i as int),
            None => samples@.len() == 0,
        },
{
    if samples.len() == 0 {
        return None;
    }
    let mut best: usize = 0;
    let mut k: usize = 1;
    while k < samples.len()
        invariant
            best < k <= samples@.len(),
            forall|j: int|
                0 <= j < k ==> (#[trigger] samples@[j]).measured.xyz.b.rank()
                    <= samples@[best as int].measured.xyz.b.rank(),
            forall|j: int|
                best < j < k ==> (#[trigger] samples@[j]).measured.xyz.b.rank()
                    < samples@[best as int].measured.xyz.b.rank(),
        decreases samples@.len() - k,
    {
        if !samples[k].measured.xyz.b.precedes(&samples[best].measured.xyz.b) {
            best = k;
        }
        k += 1;
    }
    Some(best)
}

fn white_of(samples: &Vec<Sample>) -> (res: Option<usize>)
    ensures
        match res {
            Some(i) => is_white(samples@, i as int),
            None => samples@.len() == 0,
        },
{
    let mut i: usize = 0;
    while i < samples.len()
        invariant
            i <= samples@.len(),
            forall|j: int| 0 <= j < i ==> !asks_white((#[trigger] samples@[j]).requested),
        decreases samples@.len() - i,
    {
        let r = samples[i].requested;
        if is_near_one(r.a) && is_near_one(r.b) && is_near_one(r.c) {
            assert(asks_white(samples@[i as int].requested));
            return Some(i);
        }
        i += 1;
    }
    brightest(samples)
}

/// Trial `t` of a capture can be normalised to sample `i`: it is the trial's
/// white, and it is not black.
pub open spec fn normalizes_to(capture: Capture, t: int, i: int) -> bool {
    &&& 0 <= t < capture.trials@.len()
    &&& is_white(capture.trials@[t].samples@, i)
    &&& !capture.trials@[t].samples@[i].measured.xyz.b.at_most_zero()
}

/// There is a sample that the export of trial `t` is normalised to.
pub open spec fn has_white(capture: Capture, t: int) -> bool {
    exists|i: int| normalizes_to(capture, t, i)
}

/// The sample that a trial's export is normalised to; none if there is no such
/// trial, if it has no samples, or if its white measured black.
pub fn ti3_white(capture: &Capture, trial_index: usize) -> (res: Option<usize>)
    ensures
        match res {
            Some(i) => normalizes_to(*capture, trial_index as int, i as int),
            None => forall|i: int| !normalizes_to(*capture, trial_index as int, i),
        },
{
    if trial_index >= capture.trials.len() {
        return None;
    }
    let trial = &capture.trials[trial_index];
    match white_of(&trial.samples) {
        None => None,
        Some(i) => {
            if trial.samples[i].measured.xyz.b.is_at_most_zero() {
                assert forall|k: int| !normalizes_to(*capture, trial_index as int, k) by {
                    if is_white(trial.samples@, k) {
                        white_is_unique(trial.samples@, i as int, k);
                    }
                }
                None
            } else {
                Some(i)
            }
        },
    }
}

// ---------------------------------------------------------------------------
// CGATS
// ---------------------------------------------------------------------------

/// One CGATS keyword line.
pub open spec fn keyword_line(sym: Seq<char>, value: Seq<char>) -> Seq<char> {
    sym + " \""@ + value + "\"\n"@
}

/// Appends one CGATS keyword line.
pub fn kword(o: &mut String, sym: &str, value: &str)
    ensures
        final(o)@ == old(o)@ + keyword_line(sym@, value@),
{
    o.append(sym);
    o.append(" \"");
    o.append(value);
    o.append("\"\n");
    assert(o@ == old(o)@ + keyword_line(sym@, value@));
}

/// The encoding of a trial, as a descriptor names it.
pub open spec fn encoding_text(trial: FormatTrial) -> Seq<char> {
    match trial.requested {
        Some(d) => d.transfer_function@ + " / "@ + d.primaries@,
        None => "unmanaged"@,
    }
}

pub open spec fn descriptor_text(capture: Capture, trial: FormatTrial) -> Seq<char> {
    "tristim measurement of "@ + capture.output.name@ + " ("@ + encoding_text(trial) + ", "@
        + trial.pixel_format@ + ")"@
}

/// The printed numbers of a `.ti3` export.
#[derive(Debug)]
pub struct Ti3Figures {
    /// The absolute XYZ of the white sample.
    pub luminance: String,
    /// For each sample the device RGB and the normalised XYZ, six numbers with
    /// spaces between them.
    pub rows: Vec<String>,
}

/// The data lines of the first `n` samples.
pub open spec fn ti3_rows(rows: Seq<String>, n: int) -> Seq<char>
    decreases n,
{
    if n <= 0 {
        seq![]
    } else {
        ti3_rows(rows, n - 1) + decimal_text(n as nat) + " "@ + rows[n - 1]@ + "\n"@
    }
}

/// The keyword lines of an export.
pub open spec fn ti3_keywords(capture: Capture, trial: FormatTrial, luminance: Seq<char>) -> Seq<char> {
    keyword_line("DESCRIPTOR"@, descriptor_text(capture, trial)) + keyword_line(
        "ORIGINATOR"@,
        capture.tool.name@ + " "@ + capture.tool.version@,
    ) + keyword_line("CREATED"@, capture.timestamp@) + keyword_line("DEVICE_CLASS"@, "DISPLAY"@)
        + keyword_line("TARGET_INSTRUMENT"@, capture.device.product@) + keyword_line(
        "INSTRUMENT_TYPE_SPECTRAL"@,
        "NO"@,
    ) + keyword_line("COLOR_REP"@, "RGB_XYZ"@) + keyword_line("LUMINANCE_XYZ_CDM2"@, luminance)
        + keyword_line("NORMALIZED_TO_Y_100"@, "YES"@)
}

/// A whole `.ti3` file.
pub open spec fn ti3_text(capture: Capture, trial: FormatTrial, figures: Ti3Figures) -> Seq<char> {
    "CTI3   \n\n"@ + ti3_keywords(capture, trial, figures.luminance@)
        + "\nNUMBER_OF_FIELDS 7\nBEGIN_DATA_FORMAT\n"@
        + "SAMPLE_ID RGB_R RGB_G RGB_B XYZ_X XYZ_Y XYZ_Z \nEND_DATA_FORMAT\n"@
        + "\nNUMBER_OF_SETS "@ + decimal_text(trial.samples@.len()) + "\nBEGIN_DATA\n"@ + ti3_rows(
        figures.rows@,
        trial.samples@.len() as int,
    ) + "END_DATA\n"@
}

fn push_keywords(o: &mut String, capture: &Capture, trial: &FormatTrial, luminance: &str)
    ensures
        final(o)@ == old(o)@ + ti3_keywords(*capture, *trial, luminance@),
{
    let ghost start = o@;
    let mut descriptor: String = "tristim measurement of ".to_owned();
    descriptor.append(capture.output.name.as_str());
    descriptor.append(" (");
    match &trial.requested {
        Some(d) => {
            descriptor.append(d.transfer_function.as_str());
            descriptor.append(" / ");
            descriptor.append(d.primaries.as_str());
        },
        None => {
            descriptor.append("unmanaged");
        },
    }
    descriptor.append(", ");
    descriptor.append(trial.pixel_format.as_str());
    descriptor.append(")");
    assert(descriptor@ == descriptor_text(*capture, *trial));
    let mut originator: String = capture.tool.name.clone();
    originator.append(" ");
    originator.append(capture.tool.version.as_str());
    kword(o, "DESCRIPTOR", descriptor.as_str());
    kword(o, "ORIGINATOR", originator.as_str());
    kword(o, "CREATED", capture.timestamp.as_str());
    kword(o, "DEVICE_CLASS", "DISPLAY");
    kword(o, "TARGET_INSTRUMENT", capture.device.product.as_str());
    kword(o, "INSTRUMENT_TYPE_SPECTRAL", "NO");
    kword(o, "COLOR_REP", "RGB_XYZ");
    kword(o, "LUMINANCE_XYZ_CDM2", luminance);
    kword(o, "NORMALIZED_TO_Y_100", "YES");
    assert(o@ == start + ti3_keywords(*capture, *trial, luminance@));
}

/// One trial's samples as a CGATS `.ti3` file, or nothing where there is no
/// white to normalise to. The figures hold one row per sample.
pub fn trial_to_ti3(capture: &Capture, trial_index: usize, figures: &Ti3Figures) -> (res: Option<
    String,
>)
    requires
        trial_index < capture.trials@.len() ==> figures.rows@.len()
            == capture.trials@[trial_index as int].samples@.len(),
    ensures
        res is Some <==> exists|i: int| normalizes_to(*capture, trial_index as int, i),
        res is Some <==> has_white(*capture, trial_index as int),
        res matches Some(s) ==> s@ == ti3_text(
            *capture,
            capture.trials@[trial_index as int],
            *figures,
        ),
{
    match ti3_white(capture, trial_index) {
        None => return None,
        Some(i) => {
            assert(normalizes_to(*capture, trial_index as int, i as int));
        },
    }
    let trial = &capture.trials[trial_index];
    let mut o: String = "CTI3   \n\n".to_owned();
    push_keywords(&mut o, capture, trial, figures.luminance.as_str());
    o.append("\nNUMBER_OF_FIELDS 7\nBEGIN_DATA_FORMAT\n");
    o.append("SAMPLE_ID RGB_R RGB_G RGB_B XYZ_X XYZ_Y XYZ_Z \nEND_DATA_FORMAT\n");
    o.append("\nNUMBER_OF_SETS ");
    o.append(decimal(trial.samples.len() as u64).as_str());
    o.append("\nBEGIN_DATA\n");
    let ghost start = o@;
    let mut i: usize = 0;
    assert(start + ti3_rows(figures.rows@, 0) == start);
    while i < figures.rows.len()
        invariant
            i <= figures.rows@.len(),
            o@ == start + ti3_rows(figures.rows@, i as int),
        decreases figures.rows@.len() - i,
    {
        o.append(decimal(i as u64 + 1).as_str());
        o.append(" ");
        o.append(figures.rows[i].as_str());
        o.append("\n");
        i += 1;
        assert(o@ == start + ti3_rows(figures.rows@, i as int));
    }
    o.append("END_DATA\n");
    assert(o@ == ti3_text(*capture, *trial, *figures));
    Some(o)
}

// ---------------------------------------------------------------------------
// CSV
// ---------------------------------------------------------------------------

impl Negotiation {
    pub open spec fn status_name(self) -> Seq<char> {
        match self {
            Negotiation::Accepted { .. } => "accepted"@,
            Negotiation::Rejected { .. } => "rejected"@,
            Negotiation::Unmanaged => "unmanaged"@,
        }
    }

    /// The name of the outcome.
    pub fn status(&self) -> (res: &'static str)
        ensures
            res@ == self.status_name(),
    {
        match self {
            Negotiation::Accepted { .. } => "accepted",
            Negotiation::Rejected { .. } => "rejected",
            Negotiation::Unmanaged => "unmanaged",
        }
    }
}

impl SampleSource {
    pub open spec fn name(self) -> Seq<char> {
        match self {
            SampleSource::Sweep => "sweep"@,
            SampleSource::GamutProbe => "gamut_probe"@,
        }
    }

    /// The name of the source.
    pub fn as_str(&self) -> (res: &'static str)
        ensures
            res@ == self.name(),
    {
        match self {
            SampleSource::Sweep => "sweep",
            SampleSource::GamutProbe => "gamut_probe",
        }
    }
}

impl AdaptiveTier {
    pub open spec fn name(self) -> Seq<char> {
        match self {
            AdaptiveTier::Fast => "fast"@,
            AdaptiveTier::EscalatedFull => "escalated_full"@,
            AdaptiveTier::SingleFull => "single_full"@,
        }
    }

    /// The name of the tier.
    pub fn as_str(&self) -> (res: &'static str)
        ensures
            res@ == self.name(),
    {
        match self {
            AdaptiveTier::Fast => "fast",
            AdaptiveTier::EscalatedFull => "escalated_full",
            AdaptiveTier::SingleFull => "single_full",
        }
    }
}

/// The printed numbers of one CSV row.
#[derive(Debug)]
pub struct SampleCells {
    pub window_fraction: String,
    pub req_r: String,
    pub req_g: String,
    pub req_b: String,
    pub xyz_x: String,
    pub xyz_y: String,
    pub xyz_z: String,
    /// Chromaticity; not used where the sample has none.
    pub xy_x: String,
    pub xy_y: String,
}

/// The names of the columns.
pub open spec fn csv_header() -> Seq<char> {
    "trial,pixel_format,transfer_function,primaries,outcome,source,repeats,adaptive_tier,elapsed_ms,window_fraction,settle_ms,req_r,req_g,req_b,xyz_x,xyz_y,xyz_z,xy_x,xy_y,raw\n"@
}

pub open spec fn tier_cell(tier: Option<AdaptiveTier>) -> Seq<char> {
    match tier {
        Some(t) => t.name(),
        None => seq![],
    }
}

pub open spec fn count_cell(n: Option<u64>) -> Seq<char> {
    match n {
        Some(v) => decimal_text(v as nat),
        None => seq![],
    }
}

pub open spec fn raw_fields(raw: Seq<u16>) -> Seq<Seq<char>> {
    raw.map_values(|c: u16| decimal_text(c as nat))
}

/// The cells of one row. Optional values are empty cells; raw counts share one
/// cell.
pub open spec fn row_fields(t: int, trial: FormatTrial, s: Sample, cells: SampleCells) -> Seq<
    Seq<char>,
> {
    seq![
        decimal_text(t as nat),
        trial.pixel_format@,
        match trial.requested {
            Some(d) => d.transfer_function@,
            None => seq![],
        },
        match trial.requested {
            Some(d) => d.primaries@,
            None => seq![],
        },
        trial.outcome.status_name(),
        s.source.name(),
        decimal_text(s.repeats as nat),
        tier_cell(s.adaptive_tier),
        count_cell(s.elapsed_ms),
        cells.window_fraction@,
        decimal_text(s.context.settle_ms as nat),
        cells.req_r@,
        cells.req_g@,
        cells.req_b@,
        cells.xyz_x@,
        cells.xyz_y@,
        cells.xyz_z@,
        if s.measured.xy is Some {
            cells.xy_x@
        } else {
            seq![]
        },
        if s.measured.xy is Some {
            cells.xy_y@
        } else {
            seq![]
        },
        joined_by(raw_fields(s.measured.raw@), ';'),
    ]
}

pub open spec fn row_text(t: int, trial: FormatTrial, s: Sample, cells: SampleCells) -> Seq<char> {
    joined_by(row_fields(t, trial, s, cells), ',') + "\n"@
}

/// The rows of the first `n` samples of a trial.
pub open spec fn trial_rows(t: int, trial: FormatTrial, cells: Seq<SampleCells>, n: int) -> Seq<char>
    decreases n,
{
    if n <= 0 {
        seq![]
    } else {
        trial_rows(t, trial, cells, n - 1) + row_text(t, trial, trial.samples@[n - 1], cells[n - 1])
    }
}

/// The rows of the first `n` trials.
pub open spec fn all_rows(trials: Seq<FormatTrial>, cells: Seq<Vec<SampleCells>>, n: int) -> Seq<char>
    decreases n,
{
    if n <= 0 {
        seq![]
    } else {
        all_rows(trials, cells, n - 1) + trial_rows(
            n - 1,
            trials[n - 1],
            cells[n - 1]@,
            trials[n - 1].samples@.len() as int,
        )
    }
}

/// Every row has the header's number of cells, and reads back as the cells that
/// were written, as long as no name or number in it holds a comma.
pub proof fn rows_have_the_headers_columns(t: int, trial: FormatTrial, s: Sample, cells: SampleCells)
    requires
        forall|i: int|
            0 <= i < 20 ==> !(#[trigger] row_fields(t, trial, s, cells)[i]).contains(','),
    ensures
        row_fields(t, trial, s, cells).len() == 20,
        pieces(joined_by(row_fields(t, trial, s, cells), ','), ',') == row_fields(
            t,
            trial,
            s,
            cells,
        ),
{
    split_undoes_join(row_fields(t, trial, s, cells), ',');
}

fn raw_cell(raw: &Vec<u16>) -> (res: String)
    ensures
        res@ == joined_by(raw_fields(raw@), ';'),
{
    let mut fields: Vec<String> = Vec::new();
    let mut i: usize = 0;
    while i < raw.len()
        invariant
            i <= raw@.len(),
            views(fields@) == raw_fields(raw@).take(i as int),
        decreases raw@.len() - i,
    {
        let ghost before = fields@;
        let cell = decimal(raw[i] as u64);
        fields.push(cell);
        i += 1;
        assert(views(fields@) == views(before).push(cell@));
        assert(raw_fields(raw@).take(i as int) == raw_fields(raw@).take(i - 1).push(
            raw_fields(raw@)[i - 1],
        ));
    }
    assert(raw_fields(raw@).take(i as int) == raw_fields(raw@));
    join(&fields, ';')
}

fn csv_row(t: usize, trial: &FormatTrial, s: &Sample, cells: &SampleCells) -> (res: String)
    ensures
        res@ == row_text(t as int, *trial, *s, *cells),
{
    let tf: String = match &trial.requested {
        Some(d) => d.transfer_function.clone(),
        None => String::new(),
    };
    let prim: String = match &trial.requested {
        Some(d) => d.primaries.clone(),
        None => String::new(),
    };
    let tier: String = match s.adaptive_tier {
        Some(tier) => tier.as_str().to_owned(),
        None => String::new(),
    };
    let elapsed: String = match s.elapsed_ms {
        Some(v) => decimal(v),
        None => String::new(),
    };
    let has_xy: bool = s.measured.xy.is_some();
    let xy_x: String = if has_xy {
        cells.xy_x.clone()
    } else {
        String::new()
    };
    let xy_y: String = if has_xy {
        cells.xy_y.clone()
    } else {
        String::new()
    };
    let mut f: Vec<String> = Vec::new();
    f.push(decimal(t as u64));
    f.push(trial.pixel_format.clone());
    f.push(tf);
    f.push(prim);
    f.push(trial.outcome.status().to_owned());
    f.push(s.source.as_str().to_owned());
    f.push(decimal(s.repeats as u64));
    f.push(tier);
    f.push(elapsed);
    f.push(cells.window_fraction.clone());
    f.push(decimal(s.context.settle_ms));
    f.push(cells.req_r.clone());
    f.push(cells.req_g.clone());
    f.push(cells.req_b.clone());
    f.push(cells.xyz_x.clone());
    f.push(cells.xyz_y.clone());
    f.push(cells.xyz_z.clone());
    f.push(xy_x);
    f.push(xy_y);
    f.push(raw_cell(&s.measured.raw));
    assert(views(f@) == row_fields(t as int, *trial, *s, *cells));
    join(&f, ',').concat("\n")
}

/// Every sample of every trial as one flat CSV table, with a header row. There
/// are cells for each sample of each trial.
pub fn to_csv(capture: &Capture, cells: &Vec<Vec<SampleCells>>) -> (res: String)
    requires
        cells@.len() == capture.trials@.len(),
        forall|t: int|
            0 <= t < cells@.len() ==> (#[trigger] cells@[t])@.len()
                == capture.trials@[t].samples@.len(),
    ensures
        res@ == csv_header() + all_rows(
            capture.trials@,
            cells@,
            capture.trials@.len() as int,
        ),
{
    let mut o: String =
        "trial,pixel_format,transfer_function,primaries,outcome,source,repeats,adaptive_tier,elapsed_ms,window_fraction,settle_ms,req_r,req_g,req_b,xyz_x,xyz_y,xyz_z,xy_x,xy_y,raw\n".to_owned();
    let mut t: usize = 0;
    while t < capture.trials.len()
        invariant
            t <= capture.trials@.len(),
            cells@.len() == capture.trials@.len(),
            forall|t: int|
                0 <= t < cells@.len() ==> (#[trigger] cells@[t])@.len()
                    == capture.trials@[t].samples@.len(),
            o@ == csv_header() + all_rows(capture.trials@, cells@, t as int),
        decreases capture.trials@.len() - t,
    {
        let trial = &capture.trials[t];
        let row_cells = &cells[t];
        let ghost start = o@;
        let mut i: usize = 0;
        while i < trial.samples.len()
            invariant
                i <= trial.samples@.len(),
                row_cells@.len() == trial.samples@.len(),
                o@ == start + trial_rows(t as int, *trial, row_cells@, i as int),
            decreases trial.samples@.len() - i,
        {
            o.append(csv_row(t, trial, &trial.samples[i], &row_cells[i]).as_str());
            i += 1;
            assert(o@ == start + trial_rows(t as int, *trial, row_cells@, i as int));
        }
        t += 1;
        assert(o@ == csv_header() + all_rows(capture.trials@, cells@, t as int));
    }
    o
}

// ---------------------------------------------------------------------------
// What the tables hold
// ---------------------------------------------------------------------------

/// A text that can stand in a cell: without a comma or a line end.
pub open spec fn plain(s: Seq<char>) -> bool {
    !s.contains(',') && !s.contains('\n')
}

/// The names that a trial's rows give can stand in cells.
pub open spec fn plain_trial(trial: FormatTrial) -> bool {
    &&& plain(trial.pixel_format@)
    &&& trial.requested matches Some(d) ==> plain(d.transfer_function@) && plain(d.primaries@)
}

/// The printed numbers of a row can stand in cells.
pub open spec fn plain_cells(c: SampleCells) -> bool {
    &&& plain(c.window_fraction@)
    &&& plain(c.req_r@) && plain(c.req_g@) && plain(c.req_b@)
    &&& plain(c.xyz_x@) && plain(c.xyz_y@) && plain(c.xyz_z@)
    &&& plain(c.xy_x@) && plain(c.xy_y@)
}

/// How many samples the first `t` trials have.
pub open spec fn samples_before(trials: Seq<FormatTrial>, t: int) -> nat
    decreases t,
{
    if t <= 0 {
        0
    } else {
        samples_before(trials, t - 1) + trials[t - 1].samples@.len()
    }
}

/// The lines of the first `n` samples of a trial, and those of the first `t` trials.
spec fn sample_lines(t: int, trial: FormatTrial, cells: Seq<SampleCells>, n: int) -> Seq<Seq<char>> {
    Seq::new(
        n as nat,
        |i: int| joined_by(row_fields(t, trial, trial.samples@[i], cells[i]), ','),
    )
}

spec fn trial_lines(trials: Seq<FormatTrial>, cells: Seq<Vec<SampleCells>>, t: int) -> Seq<Seq<char>>
    decreases t,
{
    if t <= 0 {
        seq![]
    } else {
        trial_lines(trials, cells, t - 1) + sample_lines(
            t - 1,
            trials[t - 1],
            cells[t - 1]@,
            trials[t - 1].samples@.len() as int,
        )
    }
}

proof fn lemma_sample_lines(t: int, trial: FormatTrial, cells: Seq<SampleCells>, n: int)
    requires
        0 <= n,
    ensures
        trial_rows(t, trial, cells, n) == lines_text(sample_lines(t, trial, cells, n)),
    decreases n,
{
    reveal_strlit("\n");
    if n > 0 {
        lemma_sample_lines(t, trial, cells, n - 1);
        let l = sample_lines(t, trial, cells, n);
        assert(l.drop_last() == sample_lines(t, trial, cells, n - 1));
        assert("\n"@ == seq!['\n']);
        assert(trial_rows(t, trial, cells, n) == lines_text(l));
    }
}

proof fn lemma_trial_lines(trials: Seq<FormatTrial>, cells: Seq<Vec<SampleCells>>, t: int)
    requires
        0 <= t,
    ensures
        all_rows(trials, cells, t) == lines_text(trial_lines(trials, cells, t)),
        trial_lines(trials, cells, t).len() == samples_before(trials, t),
    decreases t,
{
    if t > 0 {
        let n = trials[t - 1].samples@.len() as int;
        lemma_trial_lines(trials, cells, t - 1);
        lemma_sample_lines(t - 1, trials[t - 1], cells[t - 1]@, n);
        lemma_lines_append(
            trial_lines(trials, cells, t - 1),
            sample_lines(t - 1, trials[t - 1], cells[t - 1]@, n),
        );
    }
}

proof fn lemma_trial_line(
    trials: Seq<FormatTrial>,
    cells: Seq<Vec<SampleCells>>,
    n: int,
    t: int,
    i: int,
)
    requires
        0 <= t < n,
        0 <= i < trials[t].samples@.len(),
    ensures
        samples_before(trials, t) + i < samples_before(trials, n),
        trial_lines(trials, cells, n)[samples_before(trials, t) + i] == joined_by(
            row_fields(t, trials[t], trials[t].samples@[i], cells[t]@[i]),
            ',',
        ),
    decreases n,
{
    lemma_trial_lines(trials, cells, n - 1);
    lemma_trial_lines(trials, cells, t);
    if t < n - 1 {
        lemma_trial_line(trials, cells, n - 1, t, i);
    }
}

proof fn lemma_names_are_plain(trial: FormatTrial, s: Sample)
    ensures
        plain(trial.outcome.status_name()),
        plain(s.source.name()),
        plain(tier_cell(s.adaptive_tier)),
        plain(Seq::<char>::empty()),
{
    reveal_strlit("accepted");
    reveal_strlit("rejected");
    reveal_strlit("unmanaged");
    reveal_strlit("sweep");
    reveal_strlit("gamut_probe");
    reveal_strlit("fast");
    reveal_strlit("escalated_full");
    reveal_strlit("single_full");
}

proof fn lemma_raw_cell(raw: Seq<u16>)
    ensures
        plain(joined_by(raw_fields(raw), ';')),
{
    let f = raw_fields(raw);
    assert forall|i: int| 0 <= i < f.len() implies !(#[trigger] f[i]).contains(',')
        && !f[i].contains('\n') by {
        lemma_decimal_is_plain(raw[i] as nat, ',');
        lemma_decimal_is_plain(raw[i] as nat, '\n');
    }
    lemma_joined_is_plain(f, ';', ',');
    lemma_joined_is_plain(f, ';', '\n');
}

proof fn lemma_row_is_plain(t: int, trial: FormatTrial, s: Sample, cells: SampleCells)
    requires
        plain_trial(trial),
        plain_cells(cells),
    ensures
        forall|k: int| 0 <= k < 20 ==> plain(#[trigger] row_fields(t, trial, s, cells)[k]),
{
    lemma_names_are_plain(trial, s);
    lemma_raw_cell(s.measured.raw@);
    lemma_decimal_is_plain(t as nat, ',');
    lemma_decimal_is_plain(t as nat, '\n');
    lemma_decimal_is_plain(s.repeats as nat, ',');
    lemma_decimal_is_plain(s.repeats as nat, '\n');
    lemma_decimal_is_plain(s.context.settle_ms as nat, ',');
    lemma_decimal_is_plain(s.context.settle_ms as nat, '\n');
    if s.elapsed_ms is Some {
        lemma_decimal_is_plain(s.elapsed_ms->0 as nat, ',');
        lemma_decimal_is_plain(s.elapsed_ms->0 as nat, '\n');
    }
}

/// Every name and number of a table can stand in a cell.
pub open spec fn plain_table(trials: Seq<FormatTrial>, cells: Seq<Vec<SampleCells>>) -> bool {
    forall|t: int, i: int|
        #![trigger cells[t]@[i]]
        0 <= t < trials.len() && 0 <= i < trials[t].samples@.len() ==> plain_trial(trials[t])
            && plain_cells(cells[t]@[i])
}

proof fn lemma_lines_are_plain(trials: Seq<FormatTrial>, cells: Seq<Vec<SampleCells>>, n: int)
    requires
        0 <= n <= trials.len(),
        plain_table(trials, cells),
    ensures
        forall|k: int|
            0 <= k < trial_lines(trials, cells, n).len() ==> !(#[trigger] trial_lines(
                trials,
                cells,
                n,
            )[k]).contains('\n'),
    decreases n,
{
    if n > 0 {
        let t = n - 1;
        let front = trial_lines(trials, cells, t);
        let last = sample_lines(t, trials[t], cells[t]@, trials[t].samples@.len() as int);
        lemma_lines_are_plain(trials, cells, t);
        assert forall|k: int| 0 <= k < trial_lines(trials, cells, n).len() implies !(
        #[trigger] trial_lines(trials, cells, n)[k]).contains('\n') by {
            if k >= front.len() {
                let i = k - front.len();
                assert(trial_lines(trials, cells, n)[k] == last[i]);
                let c = cells[t]@[i];
                let f = row_fields(t, trials[t], trials[t].samples@[i], c);
                lemma_row_is_plain(t, trials[t], trials[t].samples@[i], c);
                assert(forall|j: int| 0 <= j < f.len() ==> plain(#[trigger] f[j]));
                lemma_joined_is_plain(f, ',', '\n');
            } else {
                assert(trial_lines(trials, cells, n)[k] == front[k]);
            }
        }
    }
}

spec fn csv_header_line() -> Seq<char> {
    "trial,pixel_format,transfer_function,primaries,outcome,source,repeats,adaptive_tier,elapsed_ms,window_fraction,settle_ms,req_r,req_g,req_b,xyz_x,xyz_y,xyz_z,xy_x,xy_y,raw"@
}

proof fn lemma_header_line()
    ensures
        csv_header() == csv_header_line() + seq!['\n'],
        !csv_header_line().contains('\n'),
{
    reveal_strlit(
        "trial,pixel_format,transfer_function,primaries,outcome,source,repeats,adaptive_tier,elapsed_ms,window_fraction,settle_ms,req_r,req_g,req_b,xyz_x,xyz_y,xyz_z,xy_x,xy_y,raw\n",
    );
    reveal_strlit(
        "trial,pixel_format,transfer_function,primaries,outcome,source,repeats,adaptive_tier,elapsed_ms,window_fraction,settle_ms,req_r,req_g,req_b,xyz_x,xyz_y,xyz_z,xy_x,xy_y,raw",
    );
}

/// The lines of a CSV table are its header and then one row for each sample, in the
/// order of the trials and of the samples in them.
pub proof fn csv_has_a_line_for_every_sample(
    capture: Capture,
    cells: Vec<Vec<SampleCells>>,
    res: String,
)
    requires
        call_ensures(to_csv, (&capture, &cells), res),
        plain_table(capture.trials@, cells@),
    ensures
        ({
            let lines = pieces(res@, '\n');
            let n = samples_before(capture.trials@, capture.trials@.len() as int);
            &&& lines.len() == n + 2
            &&& lines[0]
                == "trial,pixel_format,transfer_function,primaries,outcome,source,repeats,adaptive_tier,elapsed_ms,window_fraction,settle_ms,req_r,req_g,req_b,xyz_x,xyz_y,xyz_z,xy_x,xy_y,raw"@
            &&& lines[n as int + 1].len() == 0
        }),
{
    lemma_csv_lines(capture, cells, res);
}

proof fn lemma_csv_lines(capture: Capture, cells: Vec<Vec<SampleCells>>, res: String)
    requires
        call_ensures(to_csv, (&capture, &cells), res),
        plain_table(capture.trials@, cells@),
    ensures
        pieces(res@, '\n') == (seq![csv_header_line()] + trial_lines(
            capture.trials@,
            cells@,
            capture.trials@.len() as int,
        )).push(seq![]),
        trial_lines(capture.trials@, cells@, capture.trials@.len() as int).len() == samples_before(
            capture.trials@,
            capture.trials@.len() as int,
        ),
{
    let n = capture.trials@.len() as int;
    let rows = trial_lines(capture.trials@, cells@, n);
    lemma_header_line();
    lemma_trial_lines(capture.trials@, cells@, n);
    lemma_lines_are_plain(capture.trials@, cells@, n);
    let head = seq![csv_header_line()];
    let all = head + rows;
    assert(head.drop_last().len() == 0);
    reveal_with_fuel(lines_text, 2);
    assert(lines_text(head) == csv_header());
    lemma_lines_append(head, rows);
    assert forall|k: int| 0 <= k < all.len() implies !(#[trigger] all[k]).contains('\n') by {
        if k > 0 {
            assert(all[k] == rows[k - 1]);
        }
    }
    lines_read_back(all);
}

/// The row of a sample, which comes after the header and the samples before it,
/// reads back as that sample's facts and that sample's printed numbers, each in the
/// column of its name.
pub proof fn csv_rows_hold_their_samples(
    capture: Capture,
    cells: Vec<Vec<SampleCells>>,
    res: String,
    t: int,
    i: int,
)
    requires
        call_ensures(to_csv, (&capture, &cells), res),
        plain_table(capture.trials@, cells@),
        0 <= t < capture.trials@.len(),
        0 <= i < capture.trials@[t].samples@.len(),
    ensures
        ({
            let lines = pieces(res@, '\n');
            let at = 1 + samples_before(capture.trials@, t) + i;
            let f = pieces(lines[at], ',');
            let trial = capture.trials@[t];
            let s = trial.samples@[i];
            let c = cells@[t]@[i];
            &&& at < lines.len()
            &&& f.len() == 20
            &&& unsigned_text(f[0]) == Some(t as nat)
            &&& f[1] == trial.pixel_format@
            &&& trial.requested matches Some(d) ==> f[2] == d.transfer_function@ && f[3]
                == d.primaries@
            &&& trial.requested is None ==> f[2].len() == 0 && f[3].len() == 0
            &&& f[4] == "accepted"@ <==> trial.outcome is Accepted
            &&& f[4] == "rejected"@ <==> trial.outcome is Rejected
            &&& f[4] == "unmanaged"@ <==> trial.outcome is Unmanaged
            &&& f[5] == "sweep"@ <==> s.source == SampleSource::Sweep
            &&& f[5] == "gamut_probe"@ <==> s.source == SampleSource::GamutProbe
            &&& unsigned_text(f[6]) == Some(s.repeats as nat)
            &&& f[7] == "fast"@ <==> s.adaptive_tier == Some(AdaptiveTier::Fast)
            &&& f[7] == "escalated_full"@ <==> s.adaptive_tier == Some(AdaptiveTier::EscalatedFull)
            &&& f[7] == "single_full"@ <==> s.adaptive_tier == Some(AdaptiveTier::SingleFull)
            &&& f[7].len() == 0 <==> s.adaptive_tier is None
            &&& s.elapsed_ms matches Some(ms) ==> unsigned_text(f[8]) == Some(ms as nat)
            &&& f[8].len() == 0 <==> s.elapsed_ms is None
            &&& f[9] == c.window_fraction@
            &&& unsigned_text(f[10]) == Some(s.context.settle_ms as nat)
            &&& f[11] == c.req_r@ && f[12] == c.req_g@ && f[13] == c.req_b@
            &&& f[14] == c.xyz_x@ && f[15] == c.xyz_y@ && f[16] == c.xyz_z@
            &&& s.measured.xy is Some ==> f[17] == c.xy_x@ && f[18] == c.xy_y@
            &&& s.measured.xy is None ==> f[17].len() == 0 && f[18].len() == 0
        }),
{
    let trial = capture.trials@[t];
    let s = trial.samples@[i];
    let c = cells@[t]@[i];
    let n = capture.trials@.len() as int;
    lemma_csv_lines(capture, cells, res);
    lemma_trial_line(capture.trials@, cells@, n, t, i);
    let at = 1 + samples_before(capture.trials@, t) + i;
    let f = row_fields(t, trial, s, c);
    assert(pieces(res@, '\n')[at] == joined_by(f, ','));
    lemma_row_is_plain(t, trial, s, c);
    assert(forall|k: int| 0 <= k < 20 ==> plain(#[trigger] f[k]));
    rows_have_the_headers_columns(t, trial, s, c);
    decimal_reads_back(t as nat);
    decimal_reads_back(s.repeats as nat);
    decimal_reads_back(s.context.settle_ms as nat);
    if s.elapsed_ms is Some {
        decimal_reads_back(s.elapsed_ms->0 as nat);
        lemma_decimal_is_plain(s.elapsed_ms->0 as nat, ',');
    }
    reveal_strlit("accepted");
    reveal_strlit("rejected");
    reveal_strlit("unmanaged");
    reveal_strlit("sweep");
    reveal_strlit("gamut_probe");
    reveal_strlit("fast");
    reveal_strlit("escalated_full");
    reveal_strlit("single_full");
    assert("accepted"@[0] == 'a' && "rejected"@[0] == 'r' && "unmanaged"@[0] == 'u');
    assert("sweep"@[0] == 's' && "gamut_probe"@[0] == 'g');
    assert("fast"@[0] == 'f' && "escalated_full"@[0] == 'e' && "single_full"@[0] == 's');
}

/// The raw cell of a row reads back as the counts of its sample.
pub proof fn csv_rows_hold_the_raw_counts(
    capture: Capture,
    cells: Vec<Vec<SampleCells>>,
    res: String,
    t: int,
    i: int,
    k: int,
)
    requires
        call_ensures(to_csv, (&capture, &cells), res),
        plain_table(capture.trials@, cells@),
        0 <= t < capture.trials@.len(),
        0 <= i < capture.trials@[t].samples@.len(),
        0 <= k < capture.trials@[t].samples@[i].measured.raw@.len(),
    ensures
        ({
            let raw = capture.trials@[t].samples@[i].measured.raw@;
            let at = 1 + samples_before(capture.trials@, t) + i;
            let counts = pieces(pieces(pieces(res@, '\n')[at], ',')[19], ';');
            &&& counts.len() == raw.len()
            &&& unsigned_text(counts[k]) == Some(raw[k] as nat)
        }),
{
    let trial = capture.trials@[t];
    let s = trial.samples@[i];
    let c = cells@[t]@[i];
    let n = capture.trials@.len() as int;
    lemma_csv_lines(capture, cells, res);
    lemma_trial_line(capture.trials@, cells@, n, t, i);
    let at = 1 + samples_before(capture.trials@, t) + i;
    let f = row_fields(t, trial, s, c);
    assert(pieces(res@, '\n')[at] == joined_by(f, ','));
    lemma_row_is_plain(t, trial, s, c);
    assert(forall|k: int| 0 <= k < 20 ==> plain(#[trigger] f[k]));
    rows_have_the_headers_columns(t, trial, s, c);
    let raw = s.measured.raw@;
    let r = raw_fields(raw);
    assert forall|j: int| 0 <= j < r.len() implies !(#[trigger] r[j]).contains(';') by {
        lemma_decimal_is_plain(raw[j] as nat, ';');
    }
    split_undoes_join(r, ';');
    decimal_reads_back(raw[k] as nat);
}

/// Full white is asked for where every channel is within a billionth of full scale.
pub proof fn white_is_asked_for_near_full_scale(t: Triple)
    requires
        finite(t.a) && finite(t.b) && finite(t.c),
    ensures
        asks_white(t) <==> {
            &&& distance(t.a, 1, 1) * 1_000_000_000 < pow2(1074)
            &&& distance(t.b, 1, 1) * 1_000_000_000 < pow2(1074)
            &&& distance(t.c, 1, 1) * 1_000_000_000 < pow2(1074)
        },
{
    lemma_near_one(t.a);
    lemma_near_one(t.b);
    lemma_near_one(t.c);
}

proof fn lemma_near_one(d: Double)
    requires
        finite(d),
    ensures
        near_one(d) <==> distance(d, 1, 1) * 1_000_000_000 < pow2(1074),
{
    let p = pow2(1022);
    lemma_pow2_pos(1022);
    lemma2_to64_rest();
    lemma_pow2_adds(52, 1022);
    lemma_pow2_unfold(1022);
    assert(pow2(52) == 0x10_0000_0000_0000);
    let one = 0x10_0000_0000_0000int * p;
    assert(pow2(1074) == one);
    // The numbers on either side of the two borders.
    let above = (ONE_BITS + NEAR_ABOVE) as u64;
    let over = (above + 1) as u64;
    lemma_units_of(above, 1022, NEAR_ABOVE as nat);
    lemma_units_of(over, 1022, (NEAR_ABOVE + 1) as nat);
    let h = pow2(1021);
    assert(p == 2 * h);
    let below = (ONE_BITS - NEAR_BELOW) as u64;
    let under = (below - 1) as u64;
    lemma_units_of(below, 1021, (0x10_0000_0000_0000 - NEAR_BELOW) as nat);
    lemma_units_of(under, 1021, (0x10_0000_0000_0000 - NEAR_BELOW - 1) as nat);
    let u = units(d);
    let ua = units(Double { bits: above });
    let uo = units(Double { bits: over });
    let ub = units(Double { bits: below });
    let uu = units(Double { bits: under });
    assert(ua - one == 4503599 * p && uo - one == 4503600 * p) by (nonlinear_arith)
        requires
            ua == (0x10_0000_0000_0000int + 4503599) * p,
            uo == (0x10_0000_0000_0000int + 4503600) * p,
            one == 0x10_0000_0000_0000int * p,
    ;
    assert(one - ub == 9007199 * h && one - uu == 9007200 * h) by (nonlinear_arith)
        requires
            ub == (0x10_0000_0000_0000int + (0x10_0000_0000_0000int - 9007199)) * h,
            uu == (0x10_0000_0000_0000int + (0x10_0000_0000_0000int - 9007200)) * h,
            one == 0x10_0000_0000_0000int * p,
            p == 2 * h,
    ;
    assert(4503599 * p * 1_000_000_000 < one && 4503600 * p * 1_000_000_000 >= one)
        by (nonlinear_arith)
        requires
            one == 0x10_0000_0000_0000int * p,
            p > 0,
    ;
    assert(9007199 * h * 1_000_000_000 < one && 9007200 * h * 1_000_000_000 >= one)
        by (nonlinear_arith)
        requires
            one == 0x10_0000_0000_0000int * p,
            p == 2 * h,
            p > 0,
    ;
    lemma_units_signed(d);
    assert(u * 1 == u && 1 * pow2(1074) == pow2(1074));
    let m = d.magnitude();
    if near_one(d) {
        assert(m == d.bits);
        if m < above {
            magnitudes_order_the_numbers(m, above);
        }
        if m > below {
            magnitudes_order_the_numbers(below, m);
        }
        assert(ub <= u <= ua);
    } else if d.negative() {
        lemma_units_signed(Double { bits: under });
        assert(u <= 0);
    } else if m > above {
        if m > over {
            magnitudes_order_the_numbers(over, m);
        }
        assert(u >= uo);
    } else {
        if m < under {
            magnitudes_order_the_numbers(m, under);
        }
        assert(u <= uu);
    }
}

/// A text without a line end.
pub open spec fn one_line(s: Seq<char>) -> bool {
    !s.contains('\n')
}

/// Every text that an export of a trial gives is on one line.
pub open spec fn one_line_each(capture: Capture, trial: FormatTrial, figures: Ti3Figures) -> bool {
    &&& one_line(capture.output.name@)
    &&& one_line(trial.pixel_format@)
    &&& trial.requested matches Some(d) ==> one_line(d.transfer_function@) && one_line(
        d.primaries@,
    )
    &&& one_line(capture.tool.name@)
    &&& one_line(capture.tool.version@)
    &&& one_line(capture.timestamp@)
    &&& one_line(capture.device.product@)
    &&& one_line(figures.luminance@)
    &&& forall|i: int| 0 <= i < figures.rows@.len() ==> one_line((#[trigger] figures.rows@[i])@)
}

/// A keyword with its value in quotes.
pub open spec fn gives_keyword(line: Seq<char>, sym: Seq<char>, value: Seq<char>) -> bool {
    line == sym + seq![' ', '"'] + value + seq!['"']
}

spec fn quoted_line(sym: Seq<char>, value: Seq<char>) -> Seq<char> {
    sym + seq![' ', '"'] + value + seq!['"']
}

spec fn ti3_head(capture: Capture, trial: FormatTrial, luminance: Seq<char>) -> Seq<Seq<char>> {
    seq![
        "CTI3   "@,
        Seq::<char>::empty(),
        quoted_line("DESCRIPTOR"@, descriptor_text(capture, trial)),
        quoted_line("ORIGINATOR"@, capture.tool.name@ + " "@ + capture.tool.version@),
        quoted_line("CREATED"@, capture.timestamp@),
        quoted_line("DEVICE_CLASS"@, "DISPLAY"@),
        quoted_line("TARGET_INSTRUMENT"@, capture.device.product@),
        quoted_line("INSTRUMENT_TYPE_SPECTRAL"@, "NO"@),
        quoted_line("COLOR_REP"@, "RGB_XYZ"@),
        quoted_line("LUMINANCE_XYZ_CDM2"@, luminance),
        quoted_line("NORMALIZED_TO_Y_100"@, "YES"@),
        Seq::<char>::empty(),
        "NUMBER_OF_FIELDS 7"@,
        "BEGIN_DATA_FORMAT"@,
        "SAMPLE_ID RGB_R RGB_G RGB_B XYZ_X XYZ_Y XYZ_Z "@,
        "END_DATA_FORMAT"@,
        Seq::<char>::empty(),
        "NUMBER_OF_SETS "@ + decimal_text(trial.samples@.len()),
        "BEGIN_DATA"@,
    ]
}

spec fn ti3_row_lines(rows: Seq<String>, n: int) -> Seq<Seq<char>> {
    Seq::new(n as nat, |i: int| decimal_text((i + 1) as nat) + " "@ + rows[i]@)
}

proof fn lemma_ti3_rows(rows: Seq<String>, n: int)
    requires
        0 <= n,
    ensures
        ti3_rows(rows, n) == lines_text(ti3_row_lines(rows, n)),
    decreases n,
{
    if n > 0 {
        lemma_ti3_rows(rows, n - 1);
        reveal_strlit("\n");
        assert("\n"@ == seq!['\n']);
        let l = ti3_row_lines(rows, n);
        assert(l.drop_last() == ti3_row_lines(rows, n - 1));
        assert(ti3_rows(rows, n) == lines_text(l));
    }
}

proof fn lemma_keyword_line(sym: Seq<char>, value: Seq<char>)
    ensures
        keyword_line(sym, value) == quoted_line(sym, value) + seq!['\n'],
{
    reveal_strlit(" \"");
    reveal_strlit("\"\n");
    assert(" \""@ == seq![' ', '"']);
    assert("\"\n"@ == seq!['"', '\n']);
    assert(keyword_line(sym, value) == quoted_line(sym, value) + seq!['\n']);
}

proof fn lemma_line_step(l: Seq<Seq<char>>, k: int)
    requires
        0 <= k < l.len(),
    ensures
        lines_text(l.take(k + 1)) == lines_text(l.take(k)) + l[k] + seq!['\n'],
{
    assert(l.take(k + 1).drop_last() == l.take(k));
}

proof fn lemma_ti3_literals()
    ensures
        "CTI3   \n\n"@ == "CTI3   "@ + seq!['\n'] + seq!['\n'],
        "\nNUMBER_OF_FIELDS 7\nBEGIN_DATA_FORMAT\n"@ == seq!['\n'] + "NUMBER_OF_FIELDS 7"@ + seq![
            '\n',
        ] + "BEGIN_DATA_FORMAT"@ + seq!['\n'],
        "SAMPLE_ID RGB_R RGB_G RGB_B XYZ_X XYZ_Y XYZ_Z \nEND_DATA_FORMAT\n"@
            == "SAMPLE_ID RGB_R RGB_G RGB_B XYZ_X XYZ_Y XYZ_Z "@ + seq!['\n']
            + "END_DATA_FORMAT"@ + seq!['\n'],
        "\nNUMBER_OF_SETS "@ == seq!['\n'] + "NUMBER_OF_SETS "@,
        "\nBEGIN_DATA\n"@ == seq!['\n'] + "BEGIN_DATA"@ + seq!['\n'],
        "END_DATA\n"@ == "END_DATA"@ + seq!['\n'],
{
    reveal_strlit("CTI3   \n\n");
    reveal_strlit("CTI3   ");
    reveal_strlit("\nNUMBER_OF_FIELDS 7\nBEGIN_DATA_FORMAT\n");
    reveal_strlit("NUMBER_OF_FIELDS 7");
    reveal_strlit("BEGIN_DATA_FORMAT");
    reveal_strlit("SAMPLE_ID RGB_R RGB_G RGB_B XYZ_X XYZ_Y XYZ_Z \nEND_DATA_FORMAT\n");
    reveal_strlit("SAMPLE_ID RGB_R RGB_G RGB_B XYZ_X XYZ_Y XYZ_Z ");
    reveal_strlit("END_DATA_FORMAT");
    reveal_strlit("\nNUMBER_OF_SETS ");
    reveal_strlit("NUMBER_OF_SETS ");
    reveal_strlit("\nBEGIN_DATA\n");
    reveal_strlit("BEGIN_DATA");
    reveal_strlit("END_DATA\n");
    reveal_strlit("END_DATA");
}

proof fn lemma_ti3_text(capture: Capture, trial: FormatTrial, figures: Ti3Figures)
    ensures
        ti3_text(capture, trial, figures) == lines_text(
            ti3_head(capture, trial, figures.luminance@) + ti3_row_lines(
                figures.rows@,
                trial.samples@.len() as int,
            ) + seq!["END_DATA"@],
        ),
{
    let h = ti3_head(capture, trial, figures.luminance@);
    let r = ti3_row_lines(figures.rows@, trial.samples@.len() as int);
    let e = seq!["END_DATA"@];
    lemma_ti3_rows(figures.rows@, trial.samples@.len() as int);
    lemma_lines_append(h, r);
    lemma_lines_append(h + r, e);
    assert(e.drop_last().len() == 0);
    reveal_with_fuel(lines_text, 2);
    assert(lines_text(e) == "END_DATA"@ + seq!['\n']);
    lemma_ti3_literals();
    lemma_ti3_keywords(capture, trial, figures.luminance@);
    lemma_ti3_format(capture, trial, figures.luminance@);
}

proof fn lemma_assoc(a: Seq<char>, b: Seq<char>, c: Seq<char>)
    ensures
        a + (b + c) == a + b + c,
{
    assert(a + (b + c) =~= a + b + c);
}

/// A line more, with its end in front of the rest or behind.
proof fn lemma_line_more(l: Seq<Seq<char>>, k: int)
    requires
        0 <= k < l.len(),
    ensures
        lines_text(l.take(k + 1)) == lines_text(l.take(k)) + l[k] + seq!['\n'],
        lines_text(l.take(k + 1)) == lines_text(l.take(k)) + (l[k] + seq!['\n']),
        l[k].len() == 0 ==> lines_text(l.take(k + 1)) == lines_text(l.take(k)) + seq!['\n'],
{
    lemma_line_step(l, k);
    lemma_assoc(lines_text(l.take(k)), l[k], seq!['\n']);
    if l[k].len() == 0 {
        assert(lines_text(l.take(k)) + l[k] == lines_text(l.take(k)));
    }
}

proof fn lemma_ti3_keywords(capture: Capture, trial: FormatTrial, luminance: Seq<char>)
    ensures
        "CTI3   \n\n"@ + ti3_keywords(capture, trial, luminance) == lines_text(
            ti3_head(capture, trial, luminance).take(11),
        ),
{
    let h = ti3_head(capture, trial, luminance);
    let n = seq!['\n'];
    lemma_ti3_literals();
    lemma_line_more(h, 0);
    lemma_line_more(h, 1);
    assert(h.take(0).len() == 0);
    assert(lines_text(h.take(0)) + h[0] == h[0]);
    let a = "CTI3   \n\n"@;
    assert(lines_text(h.take(2)) == a);
    let k2 = keyword_line("DESCRIPTOR"@, descriptor_text(capture, trial));
    let k3 = keyword_line("ORIGINATOR"@, capture.tool.name@ + " "@ + capture.tool.version@);
    let k4 = keyword_line("CREATED"@, capture.timestamp@);
    let k5 = keyword_line("DEVICE_CLASS"@, "DISPLAY"@);
    let k6 = keyword_line("TARGET_INSTRUMENT"@, capture.device.product@);
    let k7 = keyword_line("INSTRUMENT_TYPE_SPECTRAL"@, "NO"@);
    let k8 = keyword_line("COLOR_REP"@, "RGB_XYZ"@);
    let k9 = keyword_line("LUMINANCE_XYZ_CDM2"@, luminance);
    let k10 = keyword_line("NORMALIZED_TO_Y_100"@, "YES"@);
    lemma_keyword_line("DESCRIPTOR"@, descriptor_text(capture, trial));
    lemma_keyword_line("ORIGINATOR"@, capture.tool.name@ + " "@ + capture.tool.version@);
    lemma_keyword_line("CREATED"@, capture.timestamp@);
    lemma_keyword_line("DEVICE_CLASS"@, "DISPLAY"@);
    lemma_keyword_line("TARGET_INSTRUMENT"@, capture.device.product@);
    lemma_keyword_line("INSTRUMENT_TYPE_SPECTRAL"@, "NO"@);
    lemma_keyword_line("COLOR_REP"@, "RGB_XYZ"@);
    lemma_keyword_line("LUMINANCE_XYZ_CDM2"@, luminance);
    lemma_keyword_line("NORMALIZED_TO_Y_100"@, "YES"@);
    lemma_line_more(h, 2);
    lemma_line_more(h, 3);
    lemma_line_more(h, 4);
    lemma_line_more(h, 5);
    lemma_line_more(h, 6);
    lemma_line_more(h, 7);
    lemma_line_more(h, 8);
    lemma_line_more(h, 9);
    lemma_line_more(h, 10);
    lemma_assoc(a, k2, k3);
    lemma_assoc(a, k2 + k3, k4);
    lemma_assoc(a, k2 + k3 + k4, k5);
    lemma_assoc(a, k2 + k3 + k4 + k5, k6);
    lemma_assoc(a, k2 + k3 + k4 + k5 + k6, k7);
    lemma_assoc(a, k2 + k3 + k4 + k5 + k6 + k7, k8);
    lemma_assoc(a, k2 + k3 + k4 + k5 + k6 + k7 + k8, k9);
    lemma_assoc(a, k2 + k3 + k4 + k5 + k6 + k7 + k8 + k9, k10);
}

proof fn lemma_ti3_format(capture: Capture, trial: FormatTrial, luminance: Seq<char>)
    ensures
        lines_text(ti3_head(capture, trial, luminance)) == lines_text(
            ti3_head(capture, trial, luminance).take(11),
        ) + "\nNUMBER_OF_FIELDS 7\nBEGIN_DATA_FORMAT\n"@
            + "SAMPLE_ID RGB_R RGB_G RGB_B XYZ_X XYZ_Y XYZ_Z \nEND_DATA_FORMAT\n"@
            + "\nNUMBER_OF_SETS "@ + decimal_text(trial.samples@.len()) + "\nBEGIN_DATA\n"@,
{
    let h = ti3_head(capture, trial, luminance);
    let n = seq!['\n'];
    lemma_ti3_literals();
    lemma_line_more(h, 11);
    lemma_line_more(h, 12);
    lemma_line_more(h, 13);
    lemma_line_more(h, 14);
    lemma_line_more(h, 15);
    lemma_line_more(h, 16);
    lemma_line_more(h, 17);
    lemma_line_more(h, 18);
    assert(h.take(19) == h);
    let x = lines_text(h.take(11));
    let f = "NUMBER_OF_FIELDS 7"@;
    let b = "BEGIN_DATA_FORMAT"@;
    lemma_assoc(x, n, f);
    lemma_assoc(x, n + f, n);
    lemma_assoc(x, n + f + n, b);
    lemma_assoc(x, n + f + n + b, n);
    let y = lines_text(h.take(14));
    assert(y == x + "\nNUMBER_OF_FIELDS 7\nBEGIN_DATA_FORMAT\n"@);
    let d = "SAMPLE_ID RGB_R RGB_G RGB_B XYZ_X XYZ_Y XYZ_Z "@;
    let e = "END_DATA_FORMAT"@;
    lemma_assoc(y, d, n);
    lemma_assoc(y, d + n, e);
    lemma_assoc(y, d + n + e, n);
    let z = lines_text(h.take(16));
    assert(z == y + "SAMPLE_ID RGB_R RGB_G RGB_B XYZ_X XYZ_Y XYZ_Z \nEND_DATA_FORMAT\n"@);
    let s = "NUMBER_OF_SETS "@;
    let c = decimal_text(trial.samples@.len());
    lemma_assoc(z, n, s);
    lemma_assoc(z + n, s, c);
    let w = z + "\nNUMBER_OF_SETS "@ + c;
    assert(w == z + n + (s + c));
    lemma_assoc(w, n, "BEGIN_DATA"@);
    lemma_assoc(w, n + "BEGIN_DATA"@, n);
}

/// The lines of a `.ti3` file: its header, the keywords with their values, the names
/// of the fields, the number of samples, and then one line for each sample, numbered
/// from 1, with that sample's six numbers.
pub proof fn ti3_has_a_line_for_every_sample(
    capture: Capture,
    trial_index: usize,
    figures: Ti3Figures,
    text: String,
    i: int,
)
    requires
        trial_index < capture.trials@.len(),
        call_ensures(trial_to_ti3, (&capture, trial_index, &figures), Some(text)),
        one_line_each(capture, capture.trials@[trial_index as int], figures),
        figures.rows@.len() == capture.trials@[trial_index as int].samples@.len(),
        0 <= i < figures.rows@.len(),
    ensures
        ({
            let trial = capture.trials@[trial_index as int];
            let l = pieces(text@, '\n');
            let n = trial.samples@.len() as int;
            let encoding = match trial.requested {
                Some(d) => d.transfer_function@ + " / "@ + d.primaries@,
                None => "unmanaged"@,
            };
            &&& l.len() == n + 21
            &&& l[0] == "CTI3   "@
            &&& gives_keyword(
                l[2],
                "DESCRIPTOR"@,
                "tristim measurement of "@ + capture.output.name@ + " ("@ + encoding + ", "@
                    + trial.pixel_format@ + ")"@,
            )
            &&& gives_keyword(
                l[3],
                "ORIGINATOR"@,
                capture.tool.name@ + " "@ + capture.tool.version@,
            )
            &&& gives_keyword(l[4], "CREATED"@, capture.timestamp@)
            &&& gives_keyword(l[5], "DEVICE_CLASS"@, "DISPLAY"@)
            &&& gives_keyword(l[6], "TARGET_INSTRUMENT"@, capture.device.product@)
            &&& gives_keyword(l[7], "INSTRUMENT_TYPE_SPECTRAL"@, "NO"@)
            &&& gives_keyword(l[8], "COLOR_REP"@, "RGB_XYZ"@)
            &&& gives_keyword(l[9], "LUMINANCE_XYZ_CDM2"@, figures.luminance@)
            &&& gives_keyword(l[10], "NORMALIZED_TO_Y_100"@, "YES"@)
            &&& l[12] == "NUMBER_OF_FIELDS 7"@
            &&& l[14] == "SAMPLE_ID RGB_R RGB_G RGB_B XYZ_X XYZ_Y XYZ_Z "@
            &&& l[17] == "NUMBER_OF_SETS "@ + decimal_text(trial.samples@.len())
            &&& l[18] == "BEGIN_DATA"@
            &&& l[19 + i] == decimal_text((i + 1) as nat) + " "@ + figures.rows@[i]@
            &&& l[19 + n] == "END_DATA"@
        }),
{
    let trial = capture.trials@[trial_index as int];
    lemma_ti3_text(capture, trial, figures);
    let h = ti3_head(capture, trial, figures.luminance@);
    let r = ti3_row_lines(figures.rows@, trial.samples@.len() as int);
    let all = h + r + seq!["END_DATA"@];
    lemma_ti3_head_is_plain(capture, trial, figures);
    assert forall|k: int| 0 <= k < all.len() implies !(#[trigger] all[k]).contains('\n') by {
        reveal_strlit("END_DATA");
        reveal_strlit(" ");
        if k < 19 {
            assert(all[k] == h[k]);
        } else if k < 19 + r.len() {
            let j = k - 19;
            assert(all[k] == r[j]);
            lemma_decimal_is_plain((j + 1) as nat, '\n');
            assert(one_line(figures.rows@[j]@));
            lemma_plain_sum(decimal_text((j + 1) as nat), " "@);
            lemma_plain_sum(decimal_text((j + 1) as nat) + " "@, figures.rows@[j]@);
        }
    }
    lines_read_back(all);
    assert(r[i] == decimal_text((i + 1) as nat) + " "@ + figures.rows@[i]@);
}

proof fn lemma_plain_sum(a: Seq<char>, b: Seq<char>)
    requires
        one_line(a),
        one_line(b),
    ensures
        one_line(a + b),
{
    if (a + b).contains('\n') {
        let i = choose|i: int| 0 <= i < (a + b).len() && (a + b)[i] == '\n';
        if i < a.len() {
            assert(a.contains(a[i]));
        } else {
            assert(b.contains(b[i - a.len()]));
        }
    }
}

proof fn lemma_quoted_is_plain(sym: Seq<char>, value: Seq<char>)
    requires
        one_line(sym),
        one_line(value),
    ensures
        one_line(quoted_line(sym, value)),
{
    assert(one_line(seq![' ', '"']) && one_line(seq!['"']));
    lemma_plain_sum(sym, seq![' ', '"']);
    lemma_plain_sum(sym + seq![' ', '"'], value);
    lemma_plain_sum(sym + seq![' ', '"'] + value, seq!['"']);
}

proof fn lemma_descriptor_is_plain(capture: Capture, trial: FormatTrial, figures: Ti3Figures)
    requires
        one_line_each(capture, trial, figures),
    ensures
        one_line(descriptor_text(capture, trial)),
        one_line(capture.tool.name@ + " "@ + capture.tool.version@),
        one_line("NUMBER_OF_SETS "@ + decimal_text(trial.samples@.len())),
{
    reveal_strlit("tristim measurement of ");
    reveal_strlit(" (");
    reveal_strlit(" / ");
    reveal_strlit("unmanaged");
    reveal_strlit(", ");
    reveal_strlit(")");
    reveal_strlit(" ");
    reveal_strlit("NUMBER_OF_SETS ");
    let e = encoding_text(trial);
    if let Some(d) = trial.requested {
        lemma_plain_sum(d.transfer_function@, " / "@);
        lemma_plain_sum(d.transfer_function@ + " / "@, d.primaries@);
    }
    let a = "tristim measurement of "@;
    let o = capture.output.name@;
    lemma_plain_sum(a, o);
    lemma_plain_sum(a + o, " ("@);
    lemma_plain_sum(a + o + " ("@, e);
    lemma_plain_sum(a + o + " ("@ + e, ", "@);
    lemma_plain_sum(a + o + " ("@ + e + ", "@, trial.pixel_format@);
    lemma_plain_sum(a + o + " ("@ + e + ", "@ + trial.pixel_format@, ")"@);
    lemma_plain_sum(capture.tool.name@, " "@);
    lemma_plain_sum(capture.tool.name@ + " "@, capture.tool.version@);
    lemma_decimal_is_plain(trial.samples@.len(), '\n');
    lemma_plain_sum("NUMBER_OF_SETS "@, decimal_text(trial.samples@.len()));
}

proof fn lemma_ti3_head_is_plain(capture: Capture, trial: FormatTrial, figures: Ti3Figures)
    requires
        one_line_each(capture, trial, figures),
    ensures
        forall|k: int|
            0 <= k < 19 ==> one_line(#[trigger] ti3_head(capture, trial, figures.luminance@)[k]),
{
    lemma_descriptor_is_plain(capture, trial, figures);
    reveal_strlit("CTI3   ");
    reveal_strlit("DESCRIPTOR");
    reveal_strlit("ORIGINATOR");
    reveal_strlit("CREATED");
    reveal_strlit("DEVICE_CLASS");
    reveal_strlit("DISPLAY");
    reveal_strlit("TARGET_INSTRUMENT");
    reveal_strlit("INSTRUMENT_TYPE_SPECTRAL");
    reveal_strlit("NO");
    reveal_strlit("COLOR_REP");
    reveal_strlit("RGB_XYZ");
    reveal_strlit("LUMINANCE_XYZ_CDM2");
    reveal_strlit("NORMALIZED_TO_Y_100");
    reveal_strlit("YES");
    reveal_strlit("NUMBER_OF_FIELDS 7");
    reveal_strlit("BEGIN_DATA_FORMAT");
    reveal_strlit("SAMPLE_ID RGB_R RGB_G RGB_B XYZ_X XYZ_Y XYZ_Z ");
    reveal_strlit("END_DATA_FORMAT");
    reveal_strlit("BEGIN_DATA");
    lemma_quoted_is_plain("DESCRIPTOR"@, descriptor_text(capture, trial));
    lemma_quoted_is_plain("ORIGINATOR"@, capture.tool.name@ + " "@ + capture.tool.version@);
    lemma_quoted_is_plain("CREATED"@, capture.timestamp@);
    lemma_quoted_is_plain("DEVICE_CLASS"@, "DISPLAY"@);
    lemma_quoted_is_plain("TARGET_INSTRUMENT"@, capture.device.product@);
    lemma_quoted_is_plain("INSTRUMENT_TYPE_SPECTRAL"@, "NO"@);
    lemma_quoted_is_plain("COLOR_REP"@, "RGB_XYZ"@);
    lemma_quoted_is_plain("LUMINANCE_XYZ_CDM2"@, figures.luminance@);
    lemma_quoted_is_plain("NORMALIZED_TO_Y_100"@, "YES"@);
}

/// The white of a trial is the first sample that asked for white; without one it is
/// the brightest, and of equally bright ones the last. It is never dark.
pub proof fn whites_are_asked_for_or_brightest(capture: Capture, t: usize, i: usize, j: int)
    requires
        call_ensures(ti3_white, (&capture, t), Some::<usize>(i)),
        0 <= j < capture.trials@[t as int].samples@.len(),
    ensures
        ({
            let s = capture.trials@[t as int].samples@;
            &&& t < capture.trials@.len()
            &&& i < s.len()
            &&& !s[i as int].measured.xyz.b.at_most_zero()
            &&& asks_white(s[j].requested) ==> asks_white(s[i as int].requested) && i <= j
            &&& !asks_white(s[i as int].requested) ==> {
                &&& s[j].measured.xyz.b.rank() <= s[i as int].measured.xyz.b.rank()
                &&& s[j].measured.xyz.b.rank() == s[i as int].measured.xyz.b.rank() ==> j <= i
            }
        }),
{
    let s = capture.trials@[t as int].samples@;
    assert(normalizes_to(capture, t as int, i as int));
    assert(is_white(s, i as int));
}

/// Outcomes, sources and tiers are written under names of their own.
pub proof fn facts_are_written_under_their_names(
    n: Negotiation,
    s: SampleSource,
    t: AdaptiveTier,
    a: &'static str,
    b: &'static str,
    c: &'static str,
)
    requires
        call_ensures(Negotiation::status, (&n,), a),
        call_ensures(SampleSource::as_str, (&s,), b),
        call_ensures(AdaptiveTier::as_str, (&t,), c),
    ensures
        a@ == "accepted"@ <==> n is Accepted,
        a@ == "rejected"@ <==> n is Rejected,
        a@ == "unmanaged"@ <==> n is Unmanaged,
        b@ == "sweep"@ <==> s is Sweep,
        b@ == "gamut_probe"@ <==> s is GamutProbe,
        c@ == "fast"@ <==> t is Fast,
        c@ == "escalated_full"@ <==> t is EscalatedFull,
        c@ == "single_full"@ <==> t is SingleFull,
{
    reveal_strlit("accepted");
    reveal_strlit("rejected");
    reveal_strlit("unmanaged");
    reveal_strlit("sweep");
    reveal_strlit("gamut_probe");
    reveal_strlit("fast");
    reveal_strlit("escalated_full");
    reveal_strlit("single_full");
    assert("accepted"@[0] == 'a' && "rejected"@[0] == 'r' && "unmanaged"@[0] == 'u');
    assert("sweep"@[0] == 's' && "gamut_probe"@[0] == 'g');
    assert("fast"@[0] == 'f' && "escalated_full"@[0] == 'e' && "single_full"@[0] == 's');
}

/// A trial is exported exactly if it has a white that is not dark: not without
/// samples, and not where the first sample that asked for white came out dark.
pub proof fn exports_need_a_white(
    capture: Capture,
    t: usize,
    figures: Ti3Figures,
    res: Option<String>,
    j: int,
)
    requires
        t < capture.trials@.len() ==> figures.rows@.len()
            == capture.trials@[t as int].samples@.len(),
        call_ensures(trial_to_ti3, (&capture, t, &figures), res),
    ensures
        t >= capture.trials@.len() ==> res is None,
        t < capture.trials@.len() && capture.trials@[t as int].samples@.len() == 0 ==> res is None,
        t < capture.trials@.len() && first_asks_white(capture.trials@[t as int].samples@, j) ==> (
        res is Some <==> !capture.trials@[t as int].samples@[j].measured.xyz.b.at_most_zero()),
{
    if t < capture.trials@.len() && first_asks_white(capture.trials@[t as int].samples@, j) {
        let s = capture.trials@[t as int].samples@;
        assert(is_white(s, j));
        if !s[j].measured.xyz.b.at_most_zero() {
            assert(normalizes_to(capture, t as int, j));
        }
        if has_white(capture, t as int) {
            let i = choose|i: int| normalizes_to(capture, t as int, i);
            white_is_unique(s, i, j);
        }
    }
}

/// Sample `j` is the first that asked for white.
pub open spec fn first_asks_white(samples: Seq<Sample>, j: int) -> bool {
    &&& 0 <= j < samples.len()
    &&& asks_white(samples[j].requested)
    &&& forall|k: int| 0 <= k < j ==> !asks_white((#[trigger] samples[k]).requested)
}

} // verus!
