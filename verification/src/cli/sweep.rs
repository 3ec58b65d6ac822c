//! Panel sweeps: the patches that are shown, and the table that is written and
//! read back.
use vstd::prelude::*;

use crate::number::{CodeValue, Double, Fraction, ONE_BITS};
use crate::scale::{to_whole, whole, whole_numbers_scale_exactly, zero_scales_to_zero};
use crate::text::{
    between, chars_of, contains_text, decimal, decimal_text, is_float, is_float_text, join, joined_by,
    lemma_first_index, lines_read_back, lines_text, pad, padded,
    pieces, same_text, split, split_undoes_join, stands_at, starts_with, text_between, trim, trimmed, trimmed_back,
    trimmed_front, views, white_space,
};

verus! {

// ---------------------------------------------------------------------------
// Patches
// ---------------------------------------------------------------------------

/// A named patch.
#[derive(Debug)]
pub struct SweepPatch {
    pub name: String,
    pub code_value: CodeValue,
}

/// Nothing of a channel.
pub open spec fn none() -> Fraction {
    Fraction { num: 0, den: 1 }
}

/// A name that ends in a level, in thousandths.
pub open spec fn level_name(stem: Seq<char>, permille: u32) -> Seq<char> {
    stem + padded(decimal_text(permille as nat), 3, '0')
}

fn name_level(stem: &str, permille: u32) -> (res: String)
    ensures
        res@ == level_name(stem@, permille),
{
    let mut s = stem.to_owned();
    s.append(pad(decimal(permille as u64).as_str(), 3, '0').as_str());
    s
}

/// Step `k` of the grey ramp, at a level.
pub open spec fn grey_patch(p: SweepPatch, k: int, steps: usize, level: Double) -> bool {
    let v = Fraction { num: k as u64, den: (steps - 1) as u64 };
    &&& p.name@ == level_name("grey_"@, to_whole(level, 1000))
    &&& p.code_value == (CodeValue { r: v, g: v, b: v })
}

/// Patch `j` of the primary ramps: red, green and blue at each quarter.
pub open spec fn primary_patch(p: SweepPatch, j: int) -> bool {
    let q = j / 3 + 1;
    let v = Fraction { num: q as u64, den: 4 };
    if j % 3 == 0 {
        &&& p.name@ == level_name("red_"@, (250 * q) as u32)
        &&& p.code_value == (CodeValue { r: v, g: none(), b: none() })
    } else if j % 3 == 1 {
        &&& p.name@ == level_name("grn_"@, (250 * q) as u32)
        &&& p.code_value == (CodeValue { r: none(), g: v, b: none() })
    } else {
        &&& p.name@ == level_name("blu_"@, (250 * q) as u32)
        &&& p.code_value == (CodeValue { r: none(), g: none(), b: v })
    }
}

/// The patches of a sweep: a grey ramp, whose levels are given as numbers, and the
/// ramps of the primaries.
pub fn sweep_patches(levels: &Vec<Double>) -> (res: Vec<SweepPatch>)
    ensures
        res@.len() == levels@.len() + 12,
        forall|k: int|
            0 <= k < levels@.len() ==> grey_patch(
                #[trigger] res@[k],
                k,
                levels@.len() as usize,
                levels@[k],
            ),
        forall|j: int| 0 <= j < 12 ==> primary_patch(#[trigger] res@[levels@.len() + j], j),
{
    let mut out: Vec<SweepPatch> = Vec::new();
    let steps: usize = levels.len();
    let mut k: usize = 0;
    while k < steps
        invariant
            k <= steps,
            steps == levels@.len(),
            out@.len() == k,
            forall|i: int|
                0 <= i < k ==> grey_patch(#[trigger] out@[i], i, steps, levels@[i]),
        decreases steps - k,
    {
        let v = Fraction { num: k as u64, den: (steps - 1) as u64 };
        let p = SweepPatch {
            name: name_level("grey_", whole(levels[k], 1000)),
            code_value: CodeValue { r: v, g: v, b: v },
        };
        assert(grey_patch(p, k as int, steps, levels@[k as int]));
        out.push(p);
        k += 1;
    }
    let zero = Fraction { num: 0, den: 1 };
    let mut j: usize = 0;
    while j < 12
        invariant
            j <= 12,
            j % 3 == 0,
            zero == none(),
            steps == levels@.len(),
            out@.len() == steps + j,
            forall|i: int|
                0 <= i < steps ==> grey_patch(#[trigger] out@[i], i, steps, levels@[i]),
            forall|i: int| 0 <= i < j ==> primary_patch(#[trigger] out@[steps + i], i),
        decreases 12 - j,
    {
        let ghost before = out@;
        let q: u32 = (j / 3 + 1) as u32;
        let v = Fraction { num: q as u64, den: 4 };
        let red = SweepPatch {
            name: name_level("red_", 250 * q),
            code_value: CodeValue { r: v, g: zero, b: zero },
        };
        let green = SweepPatch {
            name: name_level("grn_", 250 * q),
            code_value: CodeValue { r: zero, g: v, b: zero },
        };
        let blue = SweepPatch {
            name: name_level("blu_", 250 * q),
            code_value: CodeValue { r: zero, g: zero, b: v },
        };
        assert(primary_patch(red, j as int));
        assert(primary_patch(green, j + 1));
        assert(primary_patch(blue, j + 2));
        out.push(red);
        out.push(green);
        out.push(blue);
        assert forall|i: int| 0 <= i < j + 3 implies primary_patch(#[trigger] out@[steps + i], i) by {
            if i < j {
                assert(out@[steps + i] == before[steps + i]);
            }
        }
        assert forall|i: int| 0 <= i < steps implies grey_patch(
            #[trigger] out@[i],
            i,
            steps,
            levels@[i],
        ) by {
            assert(out@[i] == before[i]);
        }
        j += 3;
    }
    out
}

// ---------------------------------------------------------------------------
// The table
// ---------------------------------------------------------------------------

/// The first line of the table.
pub fn sweep_header() -> (res: &'static str)
    ensures
        res@ == "name,r_in,g_in,b_in,raw0,raw1,raw2,raw3,raw4,raw5,X,Y,Z,x,y"@,
{
    "name,r_in,g_in,b_in,raw0,raw1,raw2,raw3,raw4,raw5,X,Y,Z,x,y"
}

/// The printed numbers of a measured patch.
#[derive(Debug)]
pub struct SweepCells {
    pub name: String,
    /// The three code values.
    pub code_value: (String, String, String),
    pub xyz: (String, String, String),
    pub xy: (String, String),
}

/// The columns of a row.
pub open spec fn row_cells(c: SweepCells, raw: Seq<u16>) -> Seq<Seq<char>> {
    seq![
        c.name@,
        c.code_value.0@,
        c.code_value.1@,
        c.code_value.2@,
        decimal_text(raw[0] as nat),
        decimal_text(raw[1] as nat),
        decimal_text(raw[2] as nat),
        decimal_text(raw[3] as nat),
        decimal_text(raw[4] as nat),
        decimal_text(raw[5] as nat),
        c.xyz.0@,
        c.xyz.1@,
        c.xyz.2@,
        c.xy.0@,
        c.xy.1@,
    ]
}

/// Writes a row of the table.
pub fn sweep_row(c: SweepCells, raw: &[u16; 6]) -> (res: String)
    ensures
        res@ == joined_by(row_cells(c, raw@), ','),
{
    let mut v: Vec<String> = Vec::new();
    let ghost want = row_cells(c, raw@);
    v.push(c.name);
    v.push(c.code_value.0);
    v.push(c.code_value.1);
    v.push(c.code_value.2);
    assert(views(v@) == want.take(4));
    let mut i: usize = 0;
    while i < 6
        invariant
            i <= 6,
            want == row_cells(c, raw@),
            views(v@) == want.take(4 + i),
        decreases 6 - i,
    {
        let ghost before = v@;
        v.push(decimal(raw[i] as u64));
        i += 1;
        assert(views(v@) == views(before).push(v@.last()@));
        assert(views(v@) == want.take(4 + i));
    }
    let ghost half = v@;
    v.push(c.xyz.0);
    v.push(c.xyz.1);
    v.push(c.xyz.2);
    v.push(c.xy.0);
    v.push(c.xy.1);
    assert(views(v@) == want) by {
        assert(views(v@).len() == 15);
        assert forall|k: int| 0 <= k < 15 implies views(v@)[k] == want[k] by {
            if k < 10 {
                assert(v@[k] == half[k]);
                assert(views(half)[k] == want.take(10)[k]);
            }
        }
    }
    join(&v, ',')
}

/// A row of the table, its numbers as they are written.
#[derive(Debug)]
pub struct SweepRow {
    pub name: String,
    pub r_in: String,
    pub g_in: String,
    pub b_in: String,
    pub big_x: String,
    pub big_y: String,
    pub big_z: String,
    pub x: String,
    pub y: String,
}

/// A row with these columns.
pub open spec fn row_is(r: SweepRow, cols: Seq<Seq<char>>) -> bool {
    &&& r.name@ == cols[0]
    &&& r.r_in@ == cols[1]
    &&& r.g_in@ == cols[2]
    &&& r.b_in@ == cols[3]
    &&& r.big_x@ == cols[10]
    &&& r.big_y@ == cols[11]
    &&& r.big_z@ == cols[12]
    &&& r.x@ == cols[13]
    &&& r.y@ == cols[14]
}

/// What is wrong with a table.
#[allow(inconsistent_fields)]
#[derive(Debug)]
pub enum SweepError {
    Empty,
    /// The first line is not a header.
    Header(String),
    /// A line is too short.
    Columns { line: usize, columns: usize },
    /// A cell is no number.
    Number(String),
}

/// A [`SweepError`] by the contents of its texts.
#[allow(inconsistent_fields)]
pub ghost enum SweepProblem {
    Empty,
    Header(Seq<char>),
    Columns { line: nat, columns: nat },
    Number(Seq<char>),
}

impl View for SweepError {
    type V = SweepProblem;

    open spec fn view(&self) -> SweepProblem {
        match *self {
            SweepError::Empty => SweepProblem::Empty,
            SweepError::Header(h) => SweepProblem::Header(h@),
            SweepError::Columns { line, columns } => SweepProblem::Columns {
                line: line as nat,
                columns: columns as nat,
            },
            SweepError::Number(s) => SweepProblem::Number(s@),
        }
    }
}

impl SweepError {
    /// The message about a table in a file; `number` is that of a cell that is no
    /// number.
    pub fn message(&self, path: &str, number: &str) -> (res: String)
        ensures
            res@ == match self@ {
                SweepProblem::Empty => "empty file"@,
                SweepProblem::Header(h) => "unrecognized header in "@ + path@ + ": "@ + h,
                SweepProblem::Columns { line, columns } => path@ + ": line "@ + decimal_text(line)
                    + " has only "@ + decimal_text(columns) + " columns"@,
                SweepProblem::Number(_) => number@,
            },
    {
        match self {
            SweepError::Empty => "empty file".to_owned(),
            SweepError::Header(h) => {
                let mut s = between("unrecognized header in ", path, ": ");
                s.append(h.as_str());
                s
            },
            SweepError::Columns { line, columns } => {
                let mut s = path.to_owned();
                s.append(": line ");
                s.append(decimal(*line as u64).as_str());
                s.append(" has only ");
                s.append(decimal(*columns as u64).as_str());
                s.append(" columns");
                s
            },
            SweepError::Number(_) => number.to_owned(),
        }
    }
}

// ---------------------------------------------------------------------------
// Lines
// ---------------------------------------------------------------------------

/// A line without the carriage return at its end.
pub open spec fn without_return(s: Seq<char>) -> Seq<char> {
    if s.len() > 0 && s.last() == '\r' {
        s.drop_last()
    } else {
        s
    }
}

/// The lines of some pieces between line feeds: a line ends in a line feed, or
/// in a carriage return and a line feed, and nothing after the last one is no
/// line.
pub open spec fn lines_of(ps: Seq<Seq<char>>) -> Seq<Seq<char>> {
    let ended = Seq::new((ps.len() - 1) as nat, |i: int| without_return(ps[i]));
    if ps.last().len() == 0 {
        ended
    } else {
        ended.push(ps.last())
    }
}

fn drop_return(s: &str) -> (res: String)
    ensures
        res@ == without_return(s@),
{
    let v = chars_of(s);
    let n: usize = v.len();
    if n > 0 && v[n - 1] == '\r' {
        assert(v@.subrange(0, n - 1) == v@.drop_last());
        text_between(&v, 0, n - 1)
    } else {
        s.to_owned()
    }
}

/// The lines of a text.
pub fn lines(s: &str) -> (res: Vec<String>)
    ensures
        views(res@) == lines_of(pieces(s@, '\n')),
{
    let parts = split(s, '\n');
    let ghost ps = views(parts@);
    assert(ps.len() >= 1);
    let n: usize = parts.len();
    let mut out: Vec<String> = Vec::new();
    let mut i: usize = 0;
    while i + 1 < n
        invariant
            n == parts@.len(),
            n >= 1,
            i + 1 <= n,
            ps == views(parts@),
            views(out@) == Seq::new(i as nat, |k: int| without_return(ps[k])),
        decreases n - i,
    {
        let ghost before = out@;
        assert(ps[i as int] == parts@[i as int]@);
        out.push(drop_return(parts[i].as_str()));
        i += 1;
        assert(views(out@) == views(before).push(out@.last()@));
        assert(views(out@) == Seq::new(i as nat, |k: int| without_return(ps[k])));
    }
    assert(ps.last() == parts@[n - 1]@);
    let ghost before = out@;
    if !parts[n - 1].as_str().is_empty() {
        out.push(parts[n - 1].clone());
        assert(views(out@) == views(before).push(ps.last()));
    }
    assert(views(out@) == lines_of(ps));
    out
}

// ---------------------------------------------------------------------------
// Reading
// ---------------------------------------------------------------------------

/// The first line of a table of sweeps.
pub open spec fn is_header(h: Seq<char>) -> bool {
    stands_at(h, "name,"@, 0) && exists|i: int| #[trigger] stands_at(h, ",X,Y,Z,"@, i)
}

/// The first of the cells that have to be numbers and are not.
pub open spec fn bad_cell(cols: Seq<Seq<char>>) -> Option<Seq<char>> {
    if !is_float_text(cols[1]) {
        Some(cols[1])
    } else if !is_float_text(cols[2]) {
        Some(cols[2])
    } else if !is_float_text(cols[3]) {
        Some(cols[3])
    } else if !is_float_text(cols[10]) {
        Some(cols[10])
    } else if !is_float_text(cols[11]) {
        Some(cols[11])
    } else if !is_float_text(cols[12]) {
        Some(cols[12])
    } else if !is_float_text(cols[13]) {
        Some(cols[13])
    } else if !is_float_text(cols[14]) {
        Some(cols[14])
    } else {
        None
    }
}

/// The columns of a line; none of a blank one.
pub open spec fn line_says(line: Seq<char>, number: nat) -> Result<Option<Seq<Seq<char>>>, SweepProblem> {
    let t = trimmed(line);
    let cols = pieces(t, ',');
    if t.len() == 0 {
        Ok(None)
    } else if cols.len() < 15 {
        Err(SweepProblem::Columns { line: number, columns: cols.len() })
    } else {
        match bad_cell(cols) {
            Some(p) => Err(SweepProblem::Number(p)),
            None => Ok(Some(cols)),
        }
    }
}

/// The rows of the lines after the header, or what is wrong with the first bad
/// one. Lines are counted from one, with the header and the blank ones.
pub open spec fn rows_in(lines: Seq<Seq<char>>) -> Result<Seq<Seq<Seq<char>>>, SweepProblem>
    decreases lines.len(),
{
    if lines.len() == 0 {
        Ok(seq![])
    } else {
        match rows_in(lines.drop_last()) {
            Err(e) => Err(e),
            Ok(rows) => match line_says(lines.last(), lines.len() + 1) {
                Err(e) => Err(e),
                Ok(None) => Ok(rows),
                Ok(Some(cols)) => Ok(rows.push(cols)),
            },
        }
    }
}

/// What a text says as a table.
pub open spec fn table_says(text: Seq<char>) -> Result<Seq<Seq<Seq<char>>>, SweepProblem> {
    let all = lines_of(pieces(text, '\n'));
    if all.len() == 0 {
        Err(SweepProblem::Empty)
    } else if !is_header(all[0]) {
        Err(SweepProblem::Header(all[0]))
    } else {
        rows_in(all.skip(1))
    }
}

/// Rows with these columns.
pub open spec fn rows_are(rows: Seq<SweepRow>, want: Seq<Seq<Seq<char>>>) -> bool {
    &&& rows.len() == want.len()
    &&& forall|i: int| 0 <= i < rows.len() ==> row_is(#[trigger] rows[i], want[i])
}

fn read_line(line: &str, number: usize) -> (res: Result<Option<SweepRow>, SweepError>)
    ensures
        match (res, line_says(line@, number as nat)) {
            (Ok(None), Ok(None)) => true,
            (Ok(Some(r)), Ok(Some(cols))) => row_is(r, cols),
            (Err(a), Err(b)) => a@ == b,
            _ => false,
        },
{
    let t = trim(line);
    if t.as_str().is_empty() {
        return Ok(None);
    }
    let cols = split(t.as_str(), ',');
    let ghost want = pieces(t@, ',');
    assert(views(cols@) == want);
    assert(want.len() == cols@.len());
    if cols.len() < 15 {
        return Err(SweepError::Columns { line: number, columns: cols.len() });
    }
    assert forall|i: int| 0 <= i < 15 implies #[trigger] want[i] == cols@[i]@ by {
        assert(views(cols@)[i] == cols@[i]@);
    }
    let mut k: usize = 1;
    while k < 15
        invariant
            1 <= k <= 15,
            k <= 4 || k >= 10,
            cols@.len() >= 15,
            want == views(cols@),
            want.len() == cols@.len(),
            want == pieces(t@, ','),
            line_says(line@, number as nat) == match bad_cell(want) {
                Some(p) => Err::<Option<Seq<Seq<char>>>, SweepProblem>(SweepProblem::Number(p)),
                None => Ok(Some(want)),
            },
            k > 1 ==> is_float_text(want[1]),
            k > 2 ==> is_float_text(want[2]),
            k > 3 ==> is_float_text(want[3]),
            k > 10 ==> is_float_text(want[10]),
            k > 11 ==> is_float_text(want[11]),
            k > 12 ==> is_float_text(want[12]),
            k > 13 ==> is_float_text(want[13]),
            k > 14 ==> is_float_text(want[14]),
        decreases 15 - k,
    {
        if k == 4 {
            k = 10;
        }
        assert(want[k as int] == cols@[k as int]@);
        if !is_float(cols[k].as_str()) {
            return Err(SweepError::Number(cols[k].clone()));
        }
        k += 1;
    }
    let r = SweepRow {
        name: cols[0].clone(),
        r_in: cols[1].clone(),
        g_in: cols[2].clone(),
        b_in: cols[3].clone(),
        big_x: cols[10].clone(),
        big_y: cols[11].clone(),
        big_z: cols[12].clone(),
        x: cols[13].clone(),
        y: cols[14].clone(),
    };
    assert(row_is(r, want));
    Ok(Some(r))
}

proof fn lemma_bad_line(lines: Seq<Seq<char>>, i: int)
    requires
        0 <= i < lines.len(),
        rows_in(lines.take(i + 1)) is Err,
    ensures
        rows_in(lines) == rows_in(lines.take(i + 1)),
    decreases lines.len(),
{
    if i == lines.len() - 1 {
        assert(lines.take(i + 1) == lines);
    } else {
        assert(lines.drop_last().take(i + 1) == lines.take(i + 1));
        lemma_bad_line(lines.drop_last(), i);
    }
}

/// Reads a table.
pub fn read_sweep(text: &str) -> (res: Result<Vec<SweepRow>, SweepError>)
    ensures
        match (res, table_says(text@)) {
            (Ok(rows), Ok(want)) => rows_are(rows@, want),
            (Err(a), Err(b)) => a@ == b,
            _ => false,
        },
{
    let all = lines(text);
    let ghost ls = views(all@);
    assert(ls.len() == all@.len());
    let n: usize = all.len();
    if n == 0 {
        return Err(SweepError::Empty);
    }
    assert(ls[0] == all@[0]@);
    if !starts_with(all[0].as_str(), "name,") || !contains_text(all[0].as_str(), ",X,Y,Z,") {
        return Err(SweepError::Header(all[0].clone()));
    }
    let ghost body = ls.skip(1);
    let ghost mut want: Seq<Seq<Seq<char>>> = seq![];
    let mut rows: Vec<SweepRow> = Vec::new();
    let mut i: usize = 1;
    assert(body.take(0).len() == 0);
    while i < n
        invariant
            1 <= i <= n,
            n == all@.len(),
            ls == views(all@),
            body == ls.skip(1),
            body.len() == n - 1,
            table_says(text@) == rows_in(body),
            rows_in(body.take(i - 1)) == Ok::<Seq<Seq<Seq<char>>>, SweepProblem>(want),
            rows_are(rows@, want),
        decreases n - i,
    {
        assert(body[i - 1] == all@[i as int]@) by {
            assert(ls[i as int] == all@[i as int]@);
        }
        assert(body.take(i as int).drop_last() == body.take(i - 1));
        assert(body.take(i as int).last() == body[i - 1]);
        match read_line(all[i].as_str(), i + 1) {
            Err(e) => {
                proof {
                    lemma_bad_line(body, i - 1);
                }
                return Err(e);
            },
            Ok(None) => {},
            Ok(Some(r)) => {
                let ghost before = rows@;
                rows.push(r);
                proof {
                    want = want.push(line_says(body[i - 1], i as nat + 1)->Ok_0->0);
                    assert forall|k: int| 0 <= k < rows@.len() implies row_is(
                        #[trigger] rows@[k],
                        want[k],
                    ) by {
                        if k < before.len() {
                            assert(rows@[k] == before[k]);
                        }
                    }
                }
            },
        }
        i += 1;
    }
    assert(body.take(i - 1) == body);
    Ok(rows)
}

/// A text without white space around it is left alone by trimming.
proof fn lemma_trimmed_stays(s: Seq<char>)
    requires
        s.len() > 0,
        !white_space(s.first()),
        !white_space(s.last()),
    ensures
        trimmed(s) == s,
{
    assert(trimmed_front(s) == s);
    assert(trimmed_back(s) == s);
}

proof fn lemma_joined_ends(fields: Seq<Seq<char>>, c: char)
    requires
        fields.len() > 0,
        fields[0].len() > 0,
        fields.last().len() > 0,
    ensures
        joined_by(fields, c).len() > 0,
        joined_by(fields, c).first() == fields[0].first(),
        joined_by(fields, c).last() == fields.last().last(),
    decreases fields.len(),
{
    if fields.len() > 1 {
        let rest = fields.skip(1);
        lemma_joined_tail(rest, c);
        let s = joined_by(fields, c);
        assert(s == fields[0] + seq![c] + joined_by(rest, c));
        assert(rest.last() == fields.last());
        assert(s.last() == joined_by(rest, c).last());
    }
}

proof fn lemma_joined_tail(fields: Seq<Seq<char>>, c: char)
    requires
        fields.len() > 0,
        fields.last().len() > 0,
    ensures
        joined_by(fields, c).len() > 0,
        joined_by(fields, c).last() == fields.last().last(),
    decreases fields.len(),
{
    if fields.len() > 1 {
        lemma_joined_tail(fields.skip(1), c);
        assert(joined_by(fields, c) == fields[0] + seq![c] + joined_by(fields.skip(1), c));
        assert(fields.skip(1).last() == fields.last());
    }
}

/// Cells that a row can hold: none has a comma, the first does not start with
/// white space and the last does not end with it, and what has to be a number is
/// one.
pub open spec fn writable(cells: Seq<Seq<char>>) -> bool {
    &&& cells.len() == 15
    &&& forall|i: int| 0 <= i < 15 ==> !(#[trigger] cells[i]).contains(',')
    &&& cells[0].len() > 0 && !white_space(cells[0].first())
    &&& cells[14].len() > 0 && !white_space(cells[14].last())
    &&& bad_cell(cells) is None
}

/// A row that was written is read back: its line has the cells that were put
/// into it.
pub proof fn written_rows_read_back(cells: Seq<Seq<char>>, number: nat)
    requires
        writable(cells),
    ensures
        line_says(joined_by(cells, ','), number) == Ok::<Option<Seq<Seq<char>>>, SweepProblem>(
            Some(cells),
        ),
{
    lemma_joined_ends(cells, ',');
    lemma_trimmed_stays(joined_by(cells, ','));
    split_undoes_join(cells, ',');
}

// ---------------------------------------------------------------------------
// Looking up rows
// ---------------------------------------------------------------------------

/// Row `i` is the first of a name.
pub open spec fn is_row_named(rows: Seq<SweepRow>, name: Seq<char>, i: int) -> bool {
    &&& 0 <= i < rows.len()
    &&& rows[i].name@ == name
    &&& forall|j: int| 0 <= j < i ==> (#[trigger] rows[j]).name@ != name
}

/// No row has a name.
pub open spec fn lacks_row(rows: Seq<SweepRow>, name: Seq<char>) -> bool {
    forall|j: int| 0 <= j < rows.len() ==> (#[trigger] rows[j]).name@ != name
}

fn row_named(rows: &Vec<SweepRow>, name: &str) -> (res: Option<usize>)
    ensures
        match res {
            Some(i) => is_row_named(rows@, name@, i as int),
            None => lacks_row(rows@, name@),
        },
{
    let mut i: usize = 0;
    while i < rows.len()
        invariant
            i <= rows@.len(),
            forall|j: int| 0 <= j < i ==> (#[trigger] rows@[j]).name@ != name@,
        decreases rows@.len() - i,
    {
        if same_text(rows[i].name.as_str(), name) {
            return Some(i);
        }
        i += 1;
    }
    None
}

/// The rows that a panel is judged by.
#[derive(Clone, Copy, Debug, PartialEq, Eq, Structural)]
pub struct PanelRows {
    pub white: usize,
    pub black: usize,
    pub red: usize,
    pub green: usize,
    pub blue: usize,
}

/// The first of the patches that a table has to hold and does not.
pub open spec fn missing_patch(rows: Seq<SweepRow>) -> Option<Seq<char>> {
    if lacks_row(rows, "grey_1000"@) {
        Some("missing grey_1000 patch"@)
    } else if lacks_row(rows, "grey_000"@) {
        Some("missing grey_000 patch"@)
    } else if lacks_row(rows, "red_1000"@) {
        Some("missing red_1000 patch"@)
    } else if lacks_row(rows, "grn_1000"@) {
        Some("missing grn_1000 patch"@)
    } else if lacks_row(rows, "blu_1000"@) {
        Some("missing blu_1000 patch"@)
    } else {
        None
    }
}

/// Finds the rows that a panel is judged by.
pub fn panel_rows(rows: &Vec<SweepRow>) -> (res: Result<PanelRows, &'static str>)
    ensures
        match res {
            Err(e) => missing_patch(rows@) == Some(e@),
            Ok(p) => {
                &&& missing_patch(rows@) is None
                &&& is_row_named(rows@, "grey_1000"@, p.white as int)
                &&& is_row_named(rows@, "grey_000"@, p.black as int)
                &&& is_row_named(rows@, "red_1000"@, p.red as int)
                &&& is_row_named(rows@, "grn_1000"@, p.green as int)
                &&& is_row_named(rows@, "blu_1000"@, p.blue as int)
            },
        },
{
    let white: usize = match row_named(rows, "grey_1000") {
        Some(i) => i,
        None => return Err("missing grey_1000 patch"),
    };
    assert(rows@[white as int].name@ == "grey_1000"@);
    let black: usize = match row_named(rows, "grey_000") {
        Some(i) => i,
        None => return Err("missing grey_000 patch"),
    };
    assert(rows@[black as int].name@ == "grey_000"@);
    let red: usize = match row_named(rows, "red_1000") {
        Some(i) => i,
        None => return Err("missing red_1000 patch"),
    };
    assert(rows@[red as int].name@ == "red_1000"@);
    let green: usize = match row_named(rows, "grn_1000") {
        Some(i) => i,
        None => return Err("missing grn_1000 patch"),
    };
    assert(rows@[green as int].name@ == "grn_1000"@);
    let blue: usize = match row_named(rows, "blu_1000") {
        Some(i) => i,
        None => return Err("missing blu_1000 patch"),
    };
    assert(rows@[blue as int].name@ == "blu_1000"@);
    Ok(PanelRows { white, black, red, green, blue })
}

/// The numbers of a row that a gamma fit looks at.
#[derive(Clone, Copy, Debug, PartialEq, Eq, Structural)]
pub struct GreyFigures {
    pub r_in: Double,
    pub g_in: Double,
    pub b_in: Double,
    pub luminance: Double,
}

/// 0.15.
pub const FIT_FROM: u64 = 0x3fc3_3333_3333_3333;

/// 0.95.
pub const FIT_TO: u64 = 0x3fee_6666_6666_6666;

/// The same number.
pub open spec fn equal_numbers(a: Double, b: Double) -> bool {
    !a.nan() && !b.nan() && a.value_rank() == b.value_rank()
}

fn are_equal(a: Double, b: Double) -> (res: bool)
    ensures
        res == equal_numbers(a, b),
{
    !a.is_nan() && !b.is_nan() && !a.is_less(&b) && !b.is_less(&a)
}

/// A row that a gamma is fitted to: a grey patch in the range where neither
/// noise nor clipping matters, with light in it.
pub open spec fn is_fit_row(name: Seq<char>, f: GreyFigures, peak: Double) -> bool {
    &&& stands_at(name, "grey_"@, 0)
    &&& equal_numbers(f.r_in, f.g_in)
    &&& equal_numbers(f.g_in, f.b_in)
    &&& !f.r_in.less(Double { bits: FIT_FROM })
    &&& !(Double { bits: FIT_TO }).less(f.r_in)
    &&& !f.luminance.at_most_zero()
    &&& !peak.at_most_zero()
}

/// Whether a gamma is fitted to a row.
pub fn fits_gamma(name: &str, f: &GreyFigures, peak: Double) -> (res: bool)
    ensures
        res == is_fit_row(name@, *f, peak),
{
    let from = Double { bits: FIT_FROM };
    let to = Double { bits: FIT_TO };
    starts_with(name, "grey_") && are_equal(f.r_in, f.g_in) && are_equal(f.g_in, f.b_in)
        && !f.r_in.is_less(&from) && !to.is_less(&f.r_in) && !f.luminance.is_at_most_zero()
        && !peak.is_at_most_zero()
}

// ---------------------------------------------------------------------------
// Ramps and tables
// ---------------------------------------------------------------------------

/// The grey ramp rises step by step with all channels alike, and each primary rises by
/// quarters with the other two dark, under its own name and its level in thousandths.
pub proof fn ramps_rise_step_by_step(levels: Vec<Double>, res: Vec<SweepPatch>, k: int, q: int)
    requires
        call_ensures(sweep_patches, (&levels,), res),
        0 <= k < levels@.len(),
        1 <= q <= 4,
    ensures
        ({
            let n = levels@.len() as int;
            let grey = res@[k].code_value;
            let red = res@[n + 3 * (q - 1)];
            let green = res@[n + 3 * (q - 1) + 1];
            let blue = res@[n + 3 * (q - 1) + 2];
            let level = padded(decimal_text((250 * q) as nat), 3, '0');
            &&& res@.len() == n + 12
            &&& grey.r == grey.g && grey.g == grey.b
            &&& grey.r.num == k && grey.r.den == n - 1
            &&& stands_at(res@[k].name@, "grey_"@, 0)
            &&& red.code_value.r.num == q && red.code_value.r.den == 4
            &&& red.code_value.g.num == 0 && red.code_value.b.num == 0
            &&& red.name@ == "red_"@ + level
            &&& green.code_value.g.num == q && green.code_value.g.den == 4
            &&& green.code_value.r.num == 0 && green.code_value.b.num == 0
            &&& green.name@ == "grn_"@ + level
            &&& blue.code_value.b.num == q && blue.code_value.b.den == 4
            &&& blue.code_value.r.num == 0 && blue.code_value.g.num == 0
            &&& blue.name@ == "blu_"@ + level
        }),
{
    assert(levels.len() == levels@.len());
    assert(grey_patch(res@[k], k, levels@.len() as usize, levels@[k]));
    let j = 3 * (q - 1);
    assert(primary_patch(res@[levels@.len() + j], j));
    assert(primary_patch(res@[levels@.len() + (j + 1)], j + 1));
    assert(primary_patch(res@[levels@.len() + (j + 2)], j + 2));
    let name = res@[k].name@;
    assert(name.subrange(0, "grey_"@.len() as int) == "grey_"@);
}

/// The names of the steps are those that the panel is looked up by: a level of one is
/// written 1000.
pub proof fn full_levels_are_called_1000(levels: Vec<Double>, res: Vec<SweepPatch>, k: int)
    requires
        call_ensures(sweep_patches, (&levels,), res),
        0 <= k < levels@.len(),
    ensures
        levels@[k] == (Double { bits: ONE_BITS }) ==> res@[k].name@ == "grey_"@ + decimal_text(1000),
        levels@[k] == (Double { bits: 0 }) ==> res@[k].name@ == "grey_"@ + seq!['0', '0', '0'],
{
    assert(grey_patch(res@[k], k, levels@.len() as usize, levels@[k]));
    whole_numbers_scale_exactly(1000, u64::MAX);
    zero_scales_to_zero(1000, u64::MAX);
    reveal_with_fuel(decimal_text, 5);
    assert(decimal_text(1000).len() == 4);
    assert(padded(decimal_text(0), 3, '0') == seq!['0', '0', '0']);
}

proof fn lemma_rows_read(body: Seq<Seq<char>>, want: Seq<Seq<Seq<char>>>)
    requires
        body.len() == want.len(),
        forall|i: int| 0 <= i < want.len() ==> writable(#[trigger] want[i]),
        forall|i: int| 0 <= i < body.len() ==> #[trigger] body[i] == joined_by(want[i], ','),
    ensures
        rows_in(body) == Ok::<Seq<Seq<Seq<char>>>, SweepProblem>(want),
    decreases body.len(),
{
    if body.len() > 0 {
        let b = body.drop_last();
        let w = want.drop_last();
        assert forall|i: int| 0 <= i < w.len() implies writable(#[trigger] w[i]) by {
            assert(w[i] == want[i]);
        }
        assert forall|i: int| 0 <= i < b.len() implies #[trigger] b[i] == joined_by(w[i], ',') by {
            assert(b[i] == body[i]);
        }
        lemma_rows_read(b, w);
        assert(body[body.len() - 1] == joined_by(want[want.len() - 1], ','));
        assert(writable(want[want.len() - 1]));
        written_rows_read_back(want.last(), body.len() + 1);
        assert(w.push(want.last()) == want);
    } else {
        assert(want == Seq::<Seq<Seq<char>>>::empty());
    }
}

proof fn lemma_header_is_one()
    ensures
        is_header("name,r_in,g_in,b_in,raw0,raw1,raw2,raw3,raw4,raw5,X,Y,Z,x,y"@),
        !"name,r_in,g_in,b_in,raw0,raw1,raw2,raw3,raw4,raw5,X,Y,Z,x,y"@.contains('\n'),
        "name,r_in,g_in,b_in,raw0,raw1,raw2,raw3,raw4,raw5,X,Y,Z,x,y"@.last() == 'y',
{
    reveal_strlit("name,r_in,g_in,b_in,raw0,raw1,raw2,raw3,raw4,raw5,X,Y,Z,x,y");
    reveal_strlit("name,");
    reveal_strlit(",X,Y,Z,");
    let h = "name,r_in,g_in,b_in,raw0,raw1,raw2,raw3,raw4,raw5,X,Y,Z,x,y"@;
    assert(h.len() == 59);
    assert(h.subrange(0, 5) == "name,"@);
    assert(stands_at(h, "name,"@, 0));
    assert(h.subrange(49, 56) == ",X,Y,Z,"@);
    assert(stands_at(h, ",X,Y,Z,"@, 49));
}

/// A table that was written is read back: row by row, each figure from its own
/// column.
pub proof fn written_tables_read_back(
    cells: Seq<SweepCells>,
    raws: Seq<[u16; 6]>,
    rows: Seq<String>,
    header: &'static str,
    text: &str,
    res: Result<Vec<SweepRow>, SweepError>,
    i: int,
)
    requires
        cells.len() == raws.len(),
        cells.len() == rows.len(),
        forall|k: int|
            0 <= k < rows.len() ==> call_ensures(
                sweep_row,
                (cells[k], &raws[k]),
                #[trigger] rows[k],
            ),
        forall|k: int|
            0 <= k < rows.len() ==> {
                &&& writable(row_cells(cells[k], raws[k]@))
                &&& !(#[trigger] rows[k])@.contains('\n')
            },
        call_ensures(sweep_header, (), header),
        text@ == lines_text(seq![header@] + views(rows)),
        call_ensures(read_sweep, (text,), res),
        0 <= i < rows.len(),
    ensures
        res is Ok,
        res->Ok_0@.len() == rows.len(),
        ({
            let r = res->Ok_0@[i];
            &&& r.name@ == cells[i].name@
            &&& r.r_in@ == cells[i].code_value.0@
            &&& r.g_in@ == cells[i].code_value.1@
            &&& r.b_in@ == cells[i].code_value.2@
            &&& r.big_x@ == cells[i].xyz.0@
            &&& r.big_y@ == cells[i].xyz.1@
            &&& r.big_z@ == cells[i].xyz.2@
            &&& r.x@ == cells[i].xy.0@
            &&& r.y@ == cells[i].xy.1@
        }),
{
    let all = seq![header@] + views(rows);
    let want = Seq::new(rows.len(), |k: int| row_cells(cells[k], raws[k]@));
    lemma_header_is_one();
    assert forall|k: int| 0 <= k < all.len() implies !(#[trigger] all[k]).contains('\n') by {
        if k > 0 {
            assert(all[k] == rows[k - 1]@);
        }
    }
    lines_read_back(all);
    let ps = pieces(text@, '\n');
    assert(ps == all.push(seq![]));
    assert forall|k: int| 0 <= k < all.len() implies without_return(#[trigger] ps[k]) == all[k] by {
        assert(ps[k] == all[k]);
        if k > 0 {
            let c = row_cells(cells[k - 1], raws[k - 1]@);
            assert(call_ensures(sweep_row, (cells[k - 1], &raws[k - 1]), rows[k - 1]));
            assert(writable(c));
            lemma_joined_ends(c, ',');
            assert(all[k] == rows[k - 1]@);
        }
    }
    assert(lines_of(ps) == all);
    let body = all.skip(1);
    assert forall|k: int| 0 <= k < body.len() implies #[trigger] body[k] == joined_by(
        want[k],
        ',',
    ) by {
        assert(body[k] == rows[k]@);
        assert(call_ensures(sweep_row, (cells[k], &raws[k]), rows[k]));
    }
    assert forall|k: int| 0 <= k < want.len() implies writable(#[trigger] want[k]) by {
        assert(!rows[k]@.contains('\n'));
    }
    lemma_rows_read(body, want);
    assert(row_is(res->Ok_0@[i], want[i]));
}

/// Nothing is read from an empty text, or from one whose first line is no header.
pub proof fn tables_need_a_header(text: &str, res: Result<Vec<SweepRow>, SweepError>)
    requires
        call_ensures(read_sweep, (text,), res),
    ensures
        text@.len() == 0 ==> res is Err && res->Err_0 is Empty,
        text@.len() > 0 && text@[0] != 'n' ==> res is Err && !(res->Err_0 is Columns)
            && !(res->Err_0 is Number),
{
    let ps = pieces(text@, '\n');
    if text@.len() > 0 && text@[0] != 'n' {
        lemma_first_index(text@, '\n');
        let all = lines_of(ps);
        reveal_strlit("name,");
        if all.len() > 0 {
            if is_header(all[0]) {
                assert(all[0].subrange(0, 5)[0] == 'n');
                assert(all[0][0] == 'n');
                assert(ps[0][0] == all[0][0]);
                assert(ps[0][0] == text@[0]);
            }
        }
    } else if text@.len() == 0 {
        assert(ps == seq![text@]);
        assert(lines_of(ps).len() == 0);
    }
}

/// The figures of a panel are looked up under the names of its patches, the first of
/// each name.
pub proof fn panels_are_looked_up_by_name(rows: Vec<SweepRow>, p: PanelRows, i: int)
    requires
        call_ensures(panel_rows, (&rows,), Ok::<PanelRows, &'static str>(p)),
        0 <= i < rows@.len(),
    ensures
        rows@[p.white as int].name@ == "grey_1000"@,
        rows@[p.black as int].name@ == "grey_000"@,
        rows@[p.red as int].name@ == "red_1000"@,
        rows@[p.green as int].name@ == "grn_1000"@,
        rows@[p.blue as int].name@ == "blu_1000"@,
        rows@[i].name@ == "grey_1000"@ ==> p.white <= i,
        rows@[i].name@ == "grey_000"@ ==> p.black <= i,
        rows@[i].name@ == "red_1000"@ ==> p.red <= i,
        rows@[i].name@ == "grn_1000"@ ==> p.green <= i,
        rows@[i].name@ == "blu_1000"@ ==> p.blue <= i,
{
}

/// A gamma is fitted to greys from 0.15 to 0.95 of full scale that give light, and to
/// nothing else.
pub proof fn gamma_is_fitted_to_the_middle(name: &str, f: GreyFigures, peak: Double, res: bool)
    requires
        call_ensures(fits_gamma, (name, &f, peak), res),
        f.r_in.bits < 0x7ff0_0000_0000_0000,
        f.g_in == f.r_in,
        f.b_in == f.r_in,
        0 < f.luminance.bits < 0x7ff0_0000_0000_0000,
        0 < peak.bits < 0x7ff0_0000_0000_0000,
    ensures
        res <==> stands_at(name@, "grey_"@, 0) && 0x3fc3_3333_3333_3333 <= f.r_in.bits
            <= 0x3fee_6666_6666_6666,
{
}

/// Colours, and patches without light, are never fitted to.
pub proof fn gamma_needs_grey_and_light(name: &str, f: GreyFigures, peak: Double)
    requires
        call_ensures(fits_gamma, (name, &f, peak), true),
        f.r_in.bits < 0x7ff0_0000_0000_0000,
        f.g_in.bits < 0x7ff0_0000_0000_0000,
        f.b_in.bits < 0x7ff0_0000_0000_0000,
    ensures
        f.r_in.bits == f.g_in.bits,
        f.g_in.bits == f.b_in.bits,
        f.luminance.bits != 0,
        peak.bits != 0,
        f.luminance.negative() ==> f.luminance.nan(),
        peak.negative() ==> peak.nan(),
{
}

/// Every figure of a row stands under its heading.
pub proof fn figures_stand_under_their_headings(
    c: SweepCells,
    raw: [u16; 6],
    row: String,
    header: &'static str,
    i: int,
)
    requires
        call_ensures(sweep_row, (c, &raw), row),
        call_ensures(sweep_header, (), header),
        forall|k: int| 0 <= k < 15 ==> !(#[trigger] row_cells(c, raw@)[k]).contains(','),
        0 <= i < 6,
    ensures
        ({
            let h = pieces(header@, ',');
            let r = pieces(row@, ',');
            &&& h.len() == 15 && r.len() == 15
            &&& h[0] == "name"@ && r[0] == c.name@
            &&& h[1] == "r_in"@ && r[1] == c.code_value.0@
            &&& h[2] == "g_in"@ && r[2] == c.code_value.1@
            &&& h[3] == "b_in"@ && r[3] == c.code_value.2@
            &&& h[4 + i] == "raw"@ + decimal_text(i as nat) && r[4 + i] == decimal_text(
                raw@[i] as nat,
            )
            &&& h[10] == "X"@ && r[10] == c.xyz.0@
            &&& h[11] == "Y"@ && r[11] == c.xyz.1@
            &&& h[12] == "Z"@ && r[12] == c.xyz.2@
            &&& h[13] == "x"@ && r[13] == c.xy.0@
            &&& h[14] == "y"@ && r[14] == c.xy.1@
        }),
{
    split_undoes_join(row_cells(c, raw@), ',');
    lemma_headings(i);
}

/// The headings of the table.
spec fn headings() -> Seq<Seq<char>> {
    seq![
        "name"@,
        "r_in"@,
        "g_in"@,
        "b_in"@,
        "raw0"@,
        "raw1"@,
        "raw2"@,
        "raw3"@,
        "raw4"@,
        "raw5"@,
        "X"@,
        "Y"@,
        "Z"@,
        "x"@,
        "y"@,
    ]
}

proof fn lemma_headings(i: int)
    requires
        0 <= i < 6,
    ensures
        pieces("name,r_in,g_in,b_in,raw0,raw1,raw2,raw3,raw4,raw5,X,Y,Z,x,y"@, ',') == headings(),
        headings()[4 + i] == "raw"@ + decimal_text(i as nat),
{
    let h = headings();
    lemma_last_headings();
    lemma_middle_headings();
    lemma_first_headings();
    lemma_whole_header();
    lemma_raw_heading(i);
    assert forall|k: int| 0 <= k < h.len() implies !(#[trigger] h[k]).contains(',') by {
        lemma_heading_has_no_comma(k);
    }
    assert(h.skip(0) == h);
    split_undoes_join(h, ',');
}

proof fn lemma_raw_heading(i: int)
    requires
        0 <= i < 6,
    ensures
        headings()[4 + i] == "raw"@ + decimal_text(i as nat),
{
    reveal_strlit("raw0");
    reveal_strlit("raw1");
    reveal_strlit("raw2");
    reveal_strlit("raw3");
    reveal_strlit("raw4");
    reveal_strlit("raw5");
    reveal_strlit("raw");
    assert(headings()[4 + i] == "raw"@ + decimal_text(i as nat));
}

proof fn lemma_heading_has_no_comma(k: int)
    requires
        0 <= k < 15,
    ensures
        !headings()[k].contains(','),
{
    reveal_strlit("name");
    reveal_strlit("r_in");
    reveal_strlit("g_in");
    reveal_strlit("b_in");
    reveal_strlit("raw0");
    reveal_strlit("raw1");
    reveal_strlit("raw2");
    reveal_strlit("raw3");
    reveal_strlit("raw4");
    reveal_strlit("raw5");
    reveal_strlit("X");
    reveal_strlit("Y");
    reveal_strlit("Z");
    reveal_strlit("x");
    reveal_strlit("y");
}

proof fn lemma_last_headings()
    ensures
        joined_by(headings().skip(10), ',') == "X,Y,Z,x,y"@,
{
    reveal_strlit("X");
    reveal_strlit("Y");
    reveal_strlit("Z");
    reveal_strlit("x");
    reveal_strlit("y");
    reveal_strlit("X,Y,Z,x,y");
    let h = headings();
    lemma_tail(h, 14);
    lemma_tail(h, 13);
    lemma_tail(h, 12);
    lemma_tail(h, 11);
    lemma_tail(h, 10);
    assert(joined_by(h.skip(10), ',') == "X,Y,Z,x,y"@);
}

proof fn lemma_middle_headings()
    ensures
        joined_by(headings().skip(4), ',') == "raw0,raw1,raw2,raw3,raw4,raw5,"@ + joined_by(
            headings().skip(10),
            ',',
        ),
{
    reveal_strlit("raw0");
    reveal_strlit("raw1");
    reveal_strlit("raw2");
    reveal_strlit("raw3");
    reveal_strlit("raw4");
    reveal_strlit("raw5");
    reveal_strlit("raw0,raw1,raw2,raw3,raw4,raw5,");
    let h = headings();
    let t = joined_by(h.skip(10), ',');
    let m = "raw0,raw1,raw2,raw3,raw4,raw5,"@;
    lemma_tail(h, 9);
    lemma_tail(h, 8);
    lemma_tail(h, 7);
    assert(joined_by(h.skip(7), ',') == m.skip(15) + t);
    lemma_tail(h, 6);
    lemma_tail(h, 5);
    lemma_tail(h, 4);
    assert(joined_by(h.skip(4), ',') == m + t);
}

proof fn lemma_first_headings()
    ensures
        joined_by(headings().skip(0), ',') == "name,r_in,g_in,b_in,"@ + joined_by(
            headings().skip(4),
            ',',
        ),
{
    reveal_strlit("name");
    reveal_strlit("r_in");
    reveal_strlit("g_in");
    reveal_strlit("b_in");
    reveal_strlit("name,r_in,g_in,b_in,");
    let h = headings();
    let t = joined_by(h.skip(4), ',');
    let m = "name,r_in,g_in,b_in,"@;
    lemma_tail(h, 3);
    lemma_tail(h, 2);
    assert(joined_by(h.skip(2), ',') == m.skip(10) + t);
    lemma_tail(h, 1);
    lemma_tail(h, 0);
    assert(joined_by(h.skip(0), ',') == m + t);
}

proof fn lemma_whole_header()
    ensures
        "name,r_in,g_in,b_in,raw0,raw1,raw2,raw3,raw4,raw5,X,Y,Z,x,y"@ == "name,r_in,g_in,b_in,"@ + (
        "raw0,raw1,raw2,raw3,raw4,raw5,"@ + "X,Y,Z,x,y"@),
{
    reveal_strlit("name,r_in,g_in,b_in,raw0,raw1,raw2,raw3,raw4,raw5,X,Y,Z,x,y");
    reveal_strlit("name,r_in,g_in,b_in,");
    reveal_strlit("raw0,raw1,raw2,raw3,raw4,raw5,");
    reveal_strlit("X,Y,Z,x,y");
    assert("name,r_in,g_in,b_in,raw0,raw1,raw2,raw3,raw4,raw5,X,Y,Z,x,y"@
        == "name,r_in,g_in,b_in,"@ + ("raw0,raw1,raw2,raw3,raw4,raw5,"@ + "X,Y,Z,x,y"@));
}

proof fn lemma_tail(fields: Seq<Seq<char>>, k: int)
    requires
        0 <= k < fields.len(),
    ensures
        joined_by(fields.skip(k), ',') == if k == fields.len() - 1 {
            fields[k]
        } else {
            fields[k] + seq![','] + joined_by(fields.skip(k + 1), ',')
        },
{
    assert(fields.skip(k)[0] == fields[k]);
    assert(fields.skip(k).skip(1) == fields.skip(k + 1));
}

} // verus!
