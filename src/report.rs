//! Turning findings into a summary text, a verdict, and the flagged rows.
use vstd::prelude::*;
use crate::dataset::{Dataset, is_selection, rows_below};
use crate::findings::{Finding, FindingView, Severity, views};
use crate::text::{decimal_text, decimal};

verus! {

/// A validation's summary and verdict.
#[derive(Debug, PartialEq, Eq)]
pub struct Report {
    pub summary: String,
    /// Some finding is an error: the validation fails.
    pub has_errors: bool,
}

/// How many of the first `k` findings have severity `sev`.
pub open spec fn count_with(fs: Seq<FindingView>, sev: Severity, k: nat) -> nat
    decreases k,
{
    if k == 0 || k > fs.len() {
        0
    } else {
        count_with(fs, sev, (k - 1) as nat) + if fs[k - 1].severity == sev {
            1nat
        } else {
            0nat
        }
    }
}

/// One line of the report for finding `f`.
pub open spec fn finding_line(f: FindingView, unit: Seq<char>) -> Seq<char> {
    "   - "@ + f.column + ": "@ + f.message + " ("@ + decimal_text(f.invalid_count) + " "@ + unit
        + ")\n"@
}

/// The lines of the first `k` findings that have severity `sev`.
pub open spec fn lines_with(fs: Seq<FindingView>, sev: Severity, unit: Seq<char>, k: nat) -> Seq<
    char,
>
    decreases k,
{
    if k == 0 || k > fs.len() {
        Seq::empty()
    } else {
        lines_with(fs, sev, unit, (k - 1) as nat) + if fs[k - 1].severity == sev {
            finding_line(fs[k - 1], unit)
        } else {
            Seq::empty()
        }
    }
}

/// The section of the findings of severity `sev`; nothing where there are
/// none.
pub open spec fn section(fs: Seq<FindingView>, sev: Severity, title: Seq<char>, unit: Seq<char>) -> Seq<
    char,
> {
    let n = count_with(fs, sev, fs.len());
    if n == 0 {
        Seq::empty()
    } else {
        title + " ("@ + decimal_text(n) + "):\n"@ + lines_with(fs, sev, unit, fs.len()) + "\n"@
    }
}

/// The summary text of a list of findings.
pub open spec fn summary_text(fs: Seq<FindingView>) -> Seq<char> {
    if fs.len() == 0 {
        "All validations passed!\n"@
    } else {
        "Data Validation Report\n"@ + section(fs, Severity::Error, "Errors"@, "invalid values"@)
            + section(fs, Severity::Warning, "Warnings"@, "affected values"@) + "Summary: "@
            + decimal_text(count_with(fs, Severity::Error, fs.len())) + " errors, "@
            + decimal_text(count_with(fs, Severity::Warning, fs.len())) + " warnings\n"@
    }
}

/// Some finding is an error.
pub open spec fn has_error(fs: Seq<FindingView>) -> bool {
    exists|i: int| 0 <= i < fs.len() && (#[trigger] fs[i]).severity == Severity::Error
}

proof fn lemma_count_le(fs: Seq<FindingView>, sev: Severity, k: nat)
    requires
        k <= fs.len(),
    ensures
        count_with(fs, sev, k) <= k,
    decreases k,
{
    if k > 0 {
        lemma_count_le(fs, sev, (k - 1) as nat);
    }
}

fn findings_section(fs: &Vec<Finding>, sev: Severity, title: &str, unit: &str) -> (r: String)
    ensures
        r@ == section(views(fs@), sev, title@, unit@),
{
    let ghost v = views(fs@);
    let mut count: usize = 0;
    let mut lines = String::new();
    let mut k: usize = 0;
    while k < fs.len()
        invariant
            v == views(fs@),
            v.len() == fs@.len(),
            k <= fs@.len(),
            count == count_with(v, sev, k as nat),
            lines@ == lines_with(v, sev, unit@, k as nat),
        decreases fs@.len() - k,
    {
        let f = &fs[k];
        proof {
            lemma_count_le(v, sev, k as nat);
            assert(v[k as int] == f@);
        }
        if f.severity == sev {
            lines.append("   - ");
            lines.append(f.column.as_str());
            lines.append(": ");
            lines.append(f.message.as_str());
            lines.append(" (");
            let n = decimal(f.invalid_count as u64);
            lines.append(n.as_str());
            lines.append(" ");
            lines.append(unit);
            lines.append(")\n");
            count = count + 1;
        }
        k = k + 1;
        proof {
            assert(lines@ =~= lines_with(v, sev, unit@, k as nat));
        }
    }
    if count == 0 {
        return String::new();
    }
    let mut s = title.to_owned();
    s.append(" (");
    let n = decimal(count as u64);
    s.append(n.as_str());
    s.append("):\n");
    s.append(lines.as_str());
    s.append("\n");
    assert(s@ =~= section(v, sev, title@, unit@));
    s
}

fn error_count(fs: &Vec<Finding>, sev: Severity) -> (r: usize)
    ensures
        r == count_with(views(fs@), sev, fs@.len()),
{
    let ghost v = views(fs@);
    let mut count: usize = 0;
    let mut k: usize = 0;
    while k < fs.len()
        invariant
            v == views(fs@),
            v.len() == fs@.len(),
            k <= fs@.len(),
            count == count_with(v, sev, k as nat),
        decreases fs@.len() - k,
    {
        proof {
            lemma_count_le(v, sev, k as nat);
            assert(v[k as int] == fs@[k as int]@);
        }
        if fs[k].severity == sev {
            count = count + 1;
        }
        k = k + 1;
    }
    count
}

/// The summary text and the verdict of a list of findings.
pub fn build_report(fs: &Vec<Finding>) -> (r: Report)
    ensures
        r.summary@ == summary_text(views(fs@)),
        r.has_errors == has_error(views(fs@)),
{
    let ghost v = views(fs@);
    let errors = error_count(fs, Severity::Error);
    let warnings = error_count(fs, Severity::Warning);
    let has_errors = errors > 0;
    proof {
        assert(has_errors == has_error(v)) by {
            lemma_count_positive(v, Severity::Error, v.len());
        }
    }
    if fs.len() == 0 {
        return Report { summary: "All validations passed!\n".to_owned(), has_errors };
    }
    let mut s = "Data Validation Report\n".to_owned();
    let e = findings_section(fs, Severity::Error, "Errors", "invalid values");
    s.append(e.as_str());
    let w = findings_section(fs, Severity::Warning, "Warnings", "affected values");
    s.append(w.as_str());
    s.append("Summary: ");
    let en = decimal(errors as u64);
    s.append(en.as_str());
    s.append(" errors, ");
    let wn = decimal(warnings as u64);
    s.append(wn.as_str());
    s.append(" warnings\n");
    assert(s@ =~= summary_text(v));
    Report { summary: s, has_errors }
}

/// A severity is counted exactly when some finding has it.
proof fn lemma_count_positive(fs: Seq<FindingView>, sev: Severity, k: nat)
    requires
        k <= fs.len(),
    ensures
        (count_with(fs, sev, k) > 0) == exists|i: int| 0 <= i < k && (#[trigger] fs[i]).severity == sev,
    decreases k,
{
    if k > 0 {
        lemma_count_positive(fs, sev, (k - 1) as nat);
        if count_with(fs, sev, (k - 1) as nat) > 0 {
            let i = choose|i: int| 0 <= i < k - 1 && (#[trigger] fs[i]).severity == sev;
            assert(0 <= i < k && fs[i].severity == sev);
        }
    }
}

/// Some finding flags row `i`.
pub open spec fn is_flagged_row(fs: Seq<FindingView>, i: usize) -> bool {
    exists|k: int| 0 <= k < fs.len() && (#[trigger] fs[k]).rows.contains(i)
}

/// The rows below `m` that some finding flags, ascending.
pub open spec fn flagged_rows(fs: Seq<FindingView>, m: nat) -> Seq<usize>
    decreases m,
{
    if m == 0 {
        Seq::empty()
    } else {
        let prev = flagged_rows(fs, (m - 1) as nat);
        if is_flagged_row(fs, (m - 1) as usize) {
            prev.push((m - 1) as usize)
        } else {
            prev
        }
    }
}

proof fn lemma_flagged_rows_below(fs: Seq<FindingView>, m: nat)
    requires
        m <= usize::MAX,
    ensures
        rows_below(flagged_rows(fs, m), m),
    decreases m,
{
    if m > 0 {
        lemma_flagged_rows_below(fs, (m - 1) as nat);
    }
}

/// The rows of a table of `n` rows that some finding flags, ascending.
pub fn invalid_row_indices(n: usize, fs: &Vec<Finding>) -> (r: Vec<usize>)
    ensures
        r@ == flagged_rows(views(fs@), n as nat),
        rows_below(r@, n as nat),
{
    let ghost v = views(fs@);
    let mut mask: Vec<bool> = Vec::new();
    let mut i: usize = 0;
    while i < n
        invariant
            i <= n,
            mask@.len() == i,
            forall|j: int| 0 <= j < i ==> !mask@[j],
        decreases n - i,
    {
        mask.push(false);
        i = i + 1;
    }
    let mut k: usize = 0;
    while k < fs.len()
        invariant
            v == views(fs@),
            v.len() == fs@.len(),
            k <= fs@.len(),
            mask@.len() == n,
            forall|j: int|
                0 <= j < n ==> #[trigger] mask@[j] == exists|l: int|
                    0 <= l < k && (#[trigger] v[l]).rows.contains(j as usize),
        decreases fs@.len() - k,
    {
        let rows = &fs[k].rows;
        assert(v[k as int].rows == rows@);
        let ghost before = mask@;
        let mut j: usize = 0;
        while j < rows.len()
            invariant
                v == views(fs@),
                k < fs@.len(),
                v[k as int].rows == rows@,
                mask@.len() == n,
                before.len() == n,
                j <= rows@.len(),
                forall|x: int|
                    0 <= x < n ==> #[trigger] mask@[x] == (before[x] || exists|y: int|
                        0 <= y < j && rows@[y] == x as usize),
            decreases rows@.len() - j,
        {
            let x = rows[j];
            if x < n {
                mask.set(x, true);
            }
            j = j + 1;
        }
        proof {
            assert forall|x: int| 0 <= x < n implies #[trigger] mask@[x] == exists|l: int|
                0 <= l < k + 1 && (#[trigger] v[l]).rows.contains(x as usize) by {
                if mask@[x] && !before[x] {
                    let y = choose|y: int| 0 <= y < rows@.len() && rows@[y] == x as usize;
                    assert(v[k as int].rows.contains(x as usize));
                }
                if exists|l: int| 0 <= l < k + 1 && (#[trigger] v[l]).rows.contains(x as usize) {
                    let l = choose|l: int| 0 <= l < k + 1 && (#[trigger] v[l]).rows.contains(x as usize);
                    if l == k {
                        let y = choose|y: int| 0 <= y < rows@.len() && rows@[y] == x as usize;
                    }
                }
            }
        }
        k = k + 1;
    }
    let mut r: Vec<usize> = Vec::new();
    let mut i: usize = 0;
    while i < n
        invariant
            i <= n,
            v == views(fs@),
            v.len() == fs@.len(),
            mask@.len() == n,
            forall|j: int|
                0 <= j < n ==> #[trigger] mask@[j] == exists|l: int|
                    0 <= l < v.len() && (#[trigger] v[l]).rows.contains(j as usize),
            r@ == flagged_rows(v, i as nat),
        decreases n - i,
    {
        if mask[i] {
            r.push(i);
        }
        i = i + 1;
    }
    proof {
        lemma_flagged_rows_below(v, n as nat);
    }
    r
}

/// The rows of the dataset that some finding flags, in their original order.
pub fn get_invalid_rows(ds: &Dataset, fs: &Vec<Finding>) -> (r: Dataset)
    requires
        ds.wf(),
    ensures
        r.wf(),
        is_selection(r, *ds, flagged_rows(views(fs@), ds.row_count as nat)),
{
    let rows = invalid_row_indices(ds.row_count, fs);
    ds.take_rows(&rows)
}

} // verus!
