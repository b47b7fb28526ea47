//! Validation findings and the row tests that the rule families share.
use vstd::prelude::*;
use crate::dataset::Cell;
use crate::number_text::{is_number_text, is_number};
use crate::text::{reads_as_datetime, reads_as_date, chars_of, parses_as_datetime, parses_as_date};

verus! {

/// How serious a finding is: errors fail a validation, warnings do not.
#[derive(Debug, Clone, Copy, PartialEq, Eq, Structural)]
pub enum Severity {
    Warning,
    Error,
}

/// One outcome of a validation rule.
#[derive(Debug, PartialEq, Eq)]
pub struct Finding {
    pub column: String,
    /// The rule's identifier, such as `schema_type` or a custom rule's name.
    pub rule: String,
    pub message: String,
    pub severity: Severity,
    pub invalid_count: usize,
    /// The rows the rule flagged, ascending where the rule scans the rows.
    pub rows: Vec<usize>,
}

/// A finding as plain values.
pub struct FindingView {
    pub column: Seq<char>,
    pub rule: Seq<char>,
    pub message: Seq<char>,
    pub severity: Severity,
    pub invalid_count: nat,
    pub rows: Seq<usize>,
}

impl View for Finding {
    type V = FindingView;

    open spec fn view(&self) -> FindingView {
        FindingView {
            column: self.column@,
            rule: self.rule@,
            message: self.message@,
            severity: self.severity,
            invalid_count: self.invalid_count as nat,
            rows: self.rows@,
        }
    }
}

/// The views of a list of findings.
pub open spec fn views(fs: Seq<Finding>) -> Seq<FindingView> {
    fs.map_values(|f: Finding| f@)
}

/// A finding whose count is the number of flagged rows.
pub open spec fn flagged(
    column: Seq<char>,
    rule: Seq<char>,
    message: Seq<char>,
    severity: Severity,
    rows: Seq<usize>,
) -> FindingView {
    FindingView { column, rule, message, severity, invalid_count: rows.len(), rows }
}

/// Builds a finding that flags `rows`.
pub fn new_finding(
    column: String,
    rule: String,
    message: String,
    severity: Severity,
    rows: Vec<usize>,
) -> (r: Finding)
    ensures
        r@ == flagged(column@, rule@, message@, severity, rows@),
{
    let invalid_count = rows.len();
    Finding { column, rule, message, severity, invalid_count, rows }
}

/// Appends `more` to `out`.
pub fn extend_findings(out: &mut Vec<Finding>, more: Vec<Finding>)
    ensures
        final(out)@ == old(out)@ + more@,
        views(final(out)@) == views(old(out)@) + views(more@),
{
    let ghost before = out@;
    let ghost added = more@;
    let mut more = more;
    out.append(&mut more);
    assert(out@ == before + added);
    assert(views(out@) =~= views(before) + views(added));
}

/// What a row test asks of a cell.
#[derive(Debug, Clone, Copy, PartialEq, Eq)]
pub enum CellTest {
    /// The cell holds a value.
    NonNull,
    /// The cell is text that reads as a number.
    Numeric,
    /// The cell is text that reads as a date, or a date and time.
    DateLike,
}

pub open spec fn passes(t: CellTest, c: Cell) -> bool {
    match t {
        CellTest::NonNull => !(c is Null),
        CellTest::Numeric => match c {
            Cell::Text(s) => is_number_text(s@),
            _ => false,
        },
        CellTest::DateLike => match c {
            Cell::Text(s) => reads_as_datetime(s@) || reads_as_date(s@),
            _ => false,
        },
    }
}

/// The rows below `k` whose cells pass `t`, ascending.
pub open spec fn rows_passing(cells: Seq<Cell>, t: CellTest, k: nat) -> Seq<usize>
    decreases k,
{
    if k == 0 {
        Seq::empty()
    } else {
        let prev = rows_passing(cells, t, (k - 1) as nat);
        if passes(t, cells[k - 1]) {
            prev.push((k - 1) as usize)
        } else {
            prev
        }
    }
}

pub fn cell_passes(c: &Cell, t: CellTest) -> (r: bool)
    ensures
        r == passes(t, *c),
{
    match t {
        CellTest::NonNull => !c.is_null(),
        CellTest::Numeric => match c {
            Cell::Text(s) => is_number(&chars_of(s.as_str())),
            _ => false,
        },
        CellTest::DateLike => match c {
            Cell::Text(s) => parses_as_datetime(s.as_str()) || parses_as_date(s.as_str()),
            _ => false,
        },
    }
}

/// The rows whose cells pass `t`, ascending.
pub fn cell_rows(cells: &Vec<Cell>, t: CellTest) -> (r: Vec<usize>)
    ensures
        r@ == rows_passing(cells@, t, cells@.len()),
{
    let mut r: Vec<usize> = Vec::new();
    let mut i: usize = 0;
    while i < cells.len()
        invariant
            i <= cells@.len(),
            r@ == rows_passing(cells@, t, i as nat),
        decreases cells@.len() - i,
    {
        if cell_passes(&cells[i], t) {
            r.push(i);
        }
        i = i + 1;
    }
    r
}

/// What a row test asks of a numeric order key.
#[derive(Debug, Clone, Copy, PartialEq, Eq)]
pub enum KeyTest {
    /// There is a key (the value is neither null nor not-a-number).
    Present,
    /// The key lies strictly below `low` or strictly above `high`.
    Outside(i64, i64),
    /// The key stands for a number below zero.
    Negative,
}

pub open spec fn key_passes(t: KeyTest, k: Option<i64>) -> bool {
    match k {
        None => false,
        Some(v) => match t {
            KeyTest::Present => true,
            KeyTest::Outside(low, high) => v < low || v > high,
            KeyTest::Negative => v < 0,
        },
    }
}

/// The rows below `k` whose keys pass `t`, ascending.
pub open spec fn keys_passing(keys: Seq<Option<i64>>, t: KeyTest, k: nat) -> Seq<usize>
    decreases k,
{
    if k == 0 {
        Seq::empty()
    } else {
        let prev = keys_passing(keys, t, (k - 1) as nat);
        if key_passes(t, keys[k - 1]) {
            prev.push((k - 1) as usize)
        } else {
            prev
        }
    }
}

/// The rows whose keys pass `t`, ascending.
pub fn key_rows(keys: &Vec<Option<i64>>, t: KeyTest) -> (r: Vec<usize>)
    ensures
        r@ == keys_passing(keys@, t, keys@.len()),
{
    let mut r: Vec<usize> = Vec::new();
    let mut i: usize = 0;
    while i < keys.len()
        invariant
            i <= keys@.len(),
            r@ == keys_passing(keys@, t, i as nat),
        decreases keys@.len() - i,
    {
        let hit = match keys[i] {
            None => false,
            Some(v) => match t {
                KeyTest::Present => true,
                KeyTest::Outside(low, high) => v < low || v > high,
                KeyTest::Negative => v < 0,
            },
        };
        if hit {
            r.push(i);
        }
        i = i + 1;
    }
    r
}

} // verus!
