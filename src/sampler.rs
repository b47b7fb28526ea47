//! Drawing a subset of rows: seeded random, stratified, head and tail.
use vstd::prelude::*;
use crate::dataset::{Cell, Dataset, all_rows, rows_below, is_selection, same_cell, column_named};
use crate::error::EngineError;
use crate::groups::{
    distinct_cells, matching_rows, pairwise_distinct, lemma_distinct_cells, lemma_matching_rows,
    distinct_values, rows_matching,
};
use crate::shuffle::{partially_shuffled, partial_shuffle_seeded, lemma_permutation_keeps};

verus! {

/// How rows are chosen for a sample.
#[derive(Debug, Clone, Copy, PartialEq, Eq)]
pub enum SamplingMethod {
    Random,
    Stratified,
    Head,
    Tail,
}

pub open spec fn min_nat(a: nat, b: nat) -> nat {
    if a <= b {
        a
    } else {
        b
    }
}

/// `a / b` rounded to the nearest integer, halves rounded up; 0 when `b == 0`.
pub open spec fn round_div(a: nat, b: nat) -> nat {
    if b == 0 {
        0
    } else {
        (2 * a + b) / (2 * b)
    }
}

/// The first `min(n, size)` rows of a table of `n` rows.
pub open spec fn head_rows(n: nat, size: nat) -> Seq<usize> {
    all_rows(min_nat(n, size))
}

/// The last `min(n, size)` rows of a table of `n` rows, in order.
pub open spec fn tail_rows(n: nat, size: nat) -> Seq<usize> {
    Seq::new(min_nat(n, size), |i: int| (n - min_nat(n, size) + i) as usize)
}

/// `k` of the entries of `rows`: with a seed, the `k` entries that a partial
/// shuffle with a generator freshly seeded by it chooses (so every group of a
/// stratified sample gets a generator of its own); without one, the first `k`.
pub open spec fn pick(seed: Option<u64>, rows: Seq<usize>, k: nat) -> Seq<usize> {
    match seed {
        Some(s) => partially_shuffled(s, rows, k).subrange(rows.len() - k, rows.len() as int),
        None => rows.subrange(0, k as int),
    }
}

/// The rows of a random sample of `size` rows from a table of `n` rows.
pub open spec fn random_rows(n: nat, size: nat, seed: Option<u64>) -> Seq<usize> {
    pick(seed, all_rows(n), min_nat(n, size))
}

/// The rows that a stratified sample draws from the first `j` groups: from
/// each group, `target` of its rows (or all of them, if it has fewer).
pub open spec fn stratified_prefix(
    cells: Seq<Cell>,
    groups: Seq<Cell>,
    target: nat,
    seed: Option<u64>,
    j: nat,
) -> Seq<usize>
    decreases j,
{
    if j == 0 || j > groups.len() {
        Seq::empty()
    } else {
        let rows = matching_rows(cells, groups[j - 1], cells.len());
        stratified_prefix(cells, groups, target, seed, (j - 1) as nat) + pick(
            seed,
            rows,
            min_nat(target, rows.len()),
        )
    }
}

/// The rows of a stratified sample of `size` rows grouped by `cells`: each
/// distinct value, in order of first occurrence, contributes
/// `round(size / groups)` of its rows.
pub open spec fn stratified_rows(cells: Seq<Cell>, size: nat, seed: Option<u64>) -> Seq<usize> {
    let groups = distinct_cells(cells);
    stratified_prefix(cells, groups, round_div(size, groups.len()), seed, groups.len())
}

/// The column called `name` (the first, should several share it).
pub open spec fn column_cells(ds: Dataset, name: Seq<char>) -> Seq<Cell> {
    column_named(ds, name).cells@
}

pub open spec fn name_of(name: Option<&str>) -> Option<Seq<char>> {
    match name {
        Some(s) => Some(s@),
        None => None,
    }
}

/// The rows a sample selects, or `None` where the request is invalid: a
/// stratified sample without a grouping column, or with one that is absent.
pub open spec fn sample_outcome(
    ds: Dataset,
    size: nat,
    method: SamplingMethod,
    stratify: Option<Seq<char>>,
    seed: Option<u64>,
) -> Option<Seq<usize>> {
    let n = ds.row_count as nat;
    match method {
        SamplingMethod::Random => Some(random_rows(n, size, seed)),
        SamplingMethod::Head => Some(head_rows(n, size)),
        SamplingMethod::Tail => Some(tail_rows(n, size)),
        SamplingMethod::Stratified => match stratify {
            Some(name) => if ds.has_column(name) {
                Some(stratified_rows(column_cells(ds, name), size, seed))
            } else {
                None
            },
            None => None,
        },
    }
}

/// The indices `lo, lo + 1, ..., hi - 1`.
fn index_range(lo: usize, hi: usize) -> (r: Vec<usize>)
    requires
        lo <= hi,
    ensures
        r@ == Seq::new((hi - lo) as nat, |i: int| (lo + i) as usize),
{
    let mut r: Vec<usize> = Vec::new();
    let mut i: usize = lo;
    while i < hi
        invariant
            lo <= i <= hi,
            r@ == Seq::new((i - lo) as nat, |k: int| (lo + k) as usize),
        decreases hi - i,
    {
        r.push(i);
        i = i + 1;
        assert(r@ =~= Seq::new((i - lo) as nat, |k: int| (lo + k) as usize));
    }
    r
}

/// The entries `lo..hi` of `v`.
fn copy_range(v: &Vec<usize>, lo: usize, hi: usize) -> (r: Vec<usize>)
    requires
        lo <= hi <= v@.len(),
    ensures
        r@ == v@.subrange(lo as int, hi as int),
{
    let mut r: Vec<usize> = Vec::new();
    let mut i: usize = lo;
    while i < hi
        invariant
            lo <= i <= hi <= v@.len(),
            r@ == v@.subrange(lo as int, i as int),
        decreases hi - i,
    {
        r.push(v[i]);
        i = i + 1;
        assert(r@ =~= v@.subrange(lo as int, i as int));
    }
    r
}

/// `k` entries of `rows`, as `pick` describes.
fn pick_rows(rows: Vec<usize>, k: usize, seed: Option<u64>) -> (r: Vec<usize>)
    requires
        k <= rows@.len(),
    ensures
        r@ == pick(seed, rows@, k as nat),
        r@.len() == k,
        rows@.no_duplicates() ==> r@.no_duplicates(),
        forall|j: int| 0 <= j < k ==> rows@.contains(#[trigger] r@[j]),
{
    let ghost before = rows@;
    let mut rows = rows;
    let n = rows.len();
    let r = match seed {
        Some(s) => {
            partial_shuffle_seeded(&mut rows, s, k);
            proof {
                lemma_permutation_keeps(rows@, before);
            }
            copy_range(&rows, n - k, n)
        },
        None => copy_range(&rows, 0, k),
    };
    assert forall|j: int| 0 <= j < k implies before.contains(#[trigger] r@[j]) by {
        if seed is Some {
            assert(rows@.contains(rows@[n - k + j]));
        } else {
            assert(before[j] == r@[j]);
        }
    }
    r
}

/// The first `min(n, size)` row indices of a table of `n` rows.
pub fn head_indices(n: usize, size: usize) -> (r: Vec<usize>)
    ensures
        r@ == head_rows(n as nat, size as nat),
{
    let k = if size < n {
        size
    } else {
        n
    };
    let r = index_range(0, k);
    assert(r@ =~= head_rows(n as nat, size as nat));
    r
}

/// The last `min(n, size)` row indices of a table of `n` rows, in order.
pub fn tail_indices(n: usize, size: usize) -> (r: Vec<usize>)
    ensures
        r@ == tail_rows(n as nat, size as nat),
{
    let k = if size < n {
        size
    } else {
        n
    };
    let r = index_range(n - k, n);
    assert(r@ =~= tail_rows(n as nat, size as nat));
    r
}

/// The row indices of a random sample of `min(n, size)` rows.
pub fn random_indices(n: usize, size: usize, seed: Option<u64>) -> (r: Vec<usize>)
    ensures
        r@ == random_rows(n as nat, size as nat, seed),
        r@.len() == min_nat(n as nat, size as nat),
        r@.no_duplicates(),
        rows_below(r@, n as nat),
{
    let k = if size < n {
        size
    } else {
        n
    };
    let all = index_range(0, n);
    assert(all@ =~= all_rows(n as nat));
    let r = pick_rows(all, k, seed);
    assert forall|j: int| 0 <= j < r@.len() implies #[trigger] r@[j] < n by {
        assert(all_rows(n as nat).contains(r@[j]));
    }
    r
}

/// The row indices of a stratified sample grouped by `cells`.
pub fn stratified_indices(cells: &Vec<Cell>, size: usize, seed: Option<u64>) -> (r: Vec<usize>)
    ensures
        r@ == stratified_rows(cells@, size as nat, seed),
        r@.no_duplicates(),
        rows_below(r@, cells@.len()),
{
    let groups = distinct_values(cells);
    proof {
        lemma_distinct_cells(cells@);
    }
    let m = groups.len();
    let n = cells.len();
    let target: usize = if m == 0 {
        0
    } else {
        rounded_quotient(size, m)
    };
    let mut acc: Vec<usize> = Vec::new();
    let mut j: usize = 0;
    while j < m
        invariant
            j <= m == groups@.len(),
            n == cells@.len(),
            groups@ == distinct_cells(cells@),
            pairwise_distinct(groups@),
            target == round_div(size as nat, m as nat),
            acc@ == stratified_prefix(cells@, groups@, target as nat, seed, j as nat),
            acc@.no_duplicates(),
            forall|x: int|
                0 <= x < acc@.len() ==> #[trigger] acc@[x] < cells@.len() && exists|g: int|
                    0 <= g < j && same_cell(cells@[acc@[x] as int], #[trigger] groups@[g]),
        decreases m - j,
    {
        let rows = rows_matching(cells, &groups[j]);
        proof {
            lemma_matching_rows(cells@, groups@[j as int], cells@.len());
        }
        let ghost rows_view = rows@;
        let k = if target < rows.len() {
            target
        } else {
            rows.len()
        };
        let chosen = pick_rows(rows, k, seed);
        let ghost prev = acc@;
        let mut chosen = chosen;
        acc.append(&mut chosen);
        proof {
            let ch = acc@.subrange(prev.len() as int, acc@.len() as int);
            assert(ch == pick(seed, rows_view, k as nat));
            assert forall|y: int| 0 <= y < ch.len() implies #[trigger] ch[y] < cells@.len()
                && same_cell(cells@[ch[y] as int], groups@[j as int]) by {
                assert(rows_view.contains(ch[y]));
            }
            assert forall|a: int, b: int|
                0 <= a < acc@.len() && 0 <= b < acc@.len() && a != b implies acc@[a]
                != acc@[b] by {
                if a < prev.len() && b >= prev.len() {
                    let g = choose|g: int| 0 <= g < j && same_cell(cells@[prev[a] as int], #[trigger] groups@[g]);
                    assert(ch[b - prev.len()] == acc@[b]);
                } else if b < prev.len() && a >= prev.len() {
                    let g = choose|g: int| 0 <= g < j && same_cell(cells@[prev[b] as int], #[trigger] groups@[g]);
                    assert(ch[a - prev.len()] == acc@[a]);
                } else if a >= prev.len() {
                    assert(ch[a - prev.len()] == acc@[a]);
                    assert(ch[b - prev.len()] == acc@[b]);
                } else {
                    assert(prev[a] == acc@[a]);
                    assert(prev[b] == acc@[b]);
                }
            }
            assert forall|x: int| 0 <= x < acc@.len() implies #[trigger] acc@[x] < cells@.len()
                && exists|g: int| 0 <= g < j + 1 && same_cell(cells@[acc@[x] as int], #[trigger] groups@[g]) by {
                if x < prev.len() {
                    assert(prev[x] == acc@[x]);
                } else {
                    assert(ch[x - prev.len()] == acc@[x]);
                    assert(same_cell(cells@[acc@[x] as int], groups@[j as int]));
                }
            }
        }
        j = j + 1;
    }
    acc
}

proof fn lemma_round_div_le(a: nat, b: nat)
    requires
        b > 0,
    ensures
        round_div(a, b) <= a || (a == 0 && round_div(a, b) == 0),
{
    let q = (2 * a + b) / (2 * b);
    assert(q * (2 * b) <= 2 * a + b) by (nonlinear_arith)
        requires
            b > 0,
            q == (2 * a + b) / (2 * b),
    ;
    if q > a {
        assert((a + 1) * (2 * b) <= q * (2 * b)) by (nonlinear_arith)
            requires
                q >= a + 1,
        ;
        assert(false) by (nonlinear_arith)
            requires
                (a + 1) * (2 * b) <= 2 * a + b,
                b > 0,
        ;
    }
}

/// `a / b` rounded to the nearest integer, halves rounded up.
pub fn rounded_quotient(a: usize, b: usize) -> (r: usize)
    requires
        b > 0,
    ensures
        r == round_div(a as nat, b as nat),
{
    proof {
        lemma_round_div_le(a as nat, b as nat);
    }
    let q: u128 = (2 * (a as u128) + (b as u128)) / (2 * (b as u128));
    q as usize
}

impl SamplingMethod {
    /// The method called `name`: `random`, `stratified`, `head` or `tail`.
    pub fn from_name(name: &str) -> (r: Result<SamplingMethod, EngineError>)
        ensures
            name@ == "random"@ ==> r == Ok::<SamplingMethod, EngineError>(SamplingMethod::Random),
            name@ == "stratified"@ ==> r == Ok::<SamplingMethod, EngineError>(
                SamplingMethod::Stratified,
            ),
            name@ == "head"@ ==> r == Ok::<SamplingMethod, EngineError>(SamplingMethod::Head),
            name@ == "tail"@ ==> r == Ok::<SamplingMethod, EngineError>(SamplingMethod::Tail),
            r is Err ==> r->Err_0 is InvalidArgument,
            (r is Err) == (name@ != "random"@ && name@ != "stratified"@ && name@ != "head"@
                && name@ != "tail"@),
    {
        proof {
            reveal_strlit("random");
            reveal_strlit("stratified");
            reveal_strlit("head");
            reveal_strlit("tail");
            assert("random"@.len() != "stratified"@.len());
            assert("head"@.len() != "stratified"@.len());
            assert("tail"@.len() != "stratified"@.len());
            assert("random"@.len() != "head"@.len());
            assert("random"@.len() != "tail"@.len());
            assert("head"@[0] != "tail"@[0]);
        }
        let given = name.to_owned();
        if given == "random".to_owned() {
            Ok(SamplingMethod::Random)
        } else if given == "stratified".to_owned() {
            Ok(SamplingMethod::Stratified)
        } else if given == "head".to_owned() {
            Ok(SamplingMethod::Head)
        } else if given == "tail".to_owned() {
            Ok(SamplingMethod::Tail)
        } else {
            Err(EngineError::InvalidArgument("unknown sampling method".to_owned()))
        }
    }
}

/// The first `min(size, row_count)` rows, in order.
pub fn sample_head(ds: &Dataset, size: usize) -> (r: Dataset)
    requires
        ds.wf(),
    ensures
        r.wf(),
        is_selection(r, *ds, head_rows(ds.row_count as nat, size as nat)),
        r.row_count == min_nat(ds.row_count as nat, size as nat),
{
    let rows = head_indices(ds.row_count, size);
    ds.take_rows(&rows)
}

/// The last `min(size, row_count)` rows, in order.
pub fn sample_tail(ds: &Dataset, size: usize) -> (r: Dataset)
    requires
        ds.wf(),
    ensures
        r.wf(),
        is_selection(r, *ds, tail_rows(ds.row_count as nat, size as nat)),
        r.row_count == min_nat(ds.row_count as nat, size as nat),
{
    let rows = tail_indices(ds.row_count, size);
    ds.take_rows(&rows)
}

/// `min(size, row_count)` rows: chosen by a seeded partial shuffle, or the
/// first ones when no seed is given.
pub fn sample_random(ds: &Dataset, size: usize, seed: Option<u64>) -> (r: Dataset)
    requires
        ds.wf(),
    ensures
        r.wf(),
        is_selection(r, *ds, random_rows(ds.row_count as nat, size as nat, seed)),
        r.row_count == min_nat(ds.row_count as nat, size as nat),
{
    let rows = random_indices(ds.row_count, size, seed);
    ds.take_rows(&rows)
}

/// A stratified sample grouped by the column `column`; fails when there is
/// no such column.
pub fn sample_stratified(ds: &Dataset, size: usize, column: &str, seed: Option<u64>) -> (r: Result<
    Dataset,
    EngineError,
>)
    requires
        ds.wf(),
    ensures
        match r {
            Ok(out) => ds.has_column(column@) && out.wf() && is_selection(
                out,
                *ds,
                stratified_rows(column_cells(*ds, column@), size as nat, seed),
            ),
            Err(e) => e is InvalidArgument && !ds.has_column(column@),
        },
{
    match ds.find(column) {
        Some(c) => {
            let rows = stratified_indices(&ds.columns[c].cells, size, seed);
            Ok(ds.take_rows(&rows))
        },
        None => Err(EngineError::InvalidArgument("stratify column not found".to_owned())),
    }
}

/// The row indices that a sample selects. A stratified sample needs the
/// name of an existing column; otherwise the call fails.
pub fn sample_indices(
    ds: &Dataset,
    size: usize,
    method: SamplingMethod,
    stratify: Option<&str>,
    seed: Option<u64>,
) -> (r: Result<Vec<usize>, EngineError>)
    requires
        ds.wf(),
    ensures
        match r {
            Ok(rows) => sample_outcome(*ds, size as nat, method, name_of(stratify), seed) == Some(
                rows@,
            ) && rows@.no_duplicates() && rows_below(rows@, ds.row_count as nat),
            Err(e) => e is InvalidArgument && sample_outcome(
                *ds,
                size as nat,
                method,
                name_of(stratify),
                seed,
            ) is None,
        },
{
    match method {
        SamplingMethod::Random => Ok(random_indices(ds.row_count, size, seed)),
        SamplingMethod::Head => {
            let r = head_indices(ds.row_count, size);
            Ok(r)
        },
        SamplingMethod::Tail => {
            let r = tail_indices(ds.row_count, size);
            Ok(r)
        },
        SamplingMethod::Stratified => match stratify {
            Some(name) => match ds.find(name) {
                Some(c) => {
                    assert(ds.columns@[c as int].len() == ds.row_count);
                    Ok(stratified_indices(&ds.columns[c].cells, size, seed))
                },
                None => Err(
                    EngineError::InvalidArgument("stratify column not found".to_owned()),
                ),
            },
            None => Err(
                EngineError::InvalidArgument(
                    "a stratify column is required for stratified sampling".to_owned(),
                ),
            ),
        },
    }
}

/// Draws a sample of `size` rows with the given method; see
/// [`sample_indices`] for which rows.
pub fn sample(
    ds: &Dataset,
    size: usize,
    method: SamplingMethod,
    stratify: Option<&str>,
    seed: Option<u64>,
) -> (r: Result<Dataset, EngineError>)
    requires
        ds.wf(),
    ensures
        match r {
            Ok(out) => out.wf() && match sample_outcome(
                *ds,
                size as nat,
                method,
                name_of(stratify),
                seed,
            ) {
                Some(rows) => is_selection(out, *ds, rows),
                None => false,
            },
            Err(e) => e is InvalidArgument && sample_outcome(
                *ds,
                size as nat,
                method,
                name_of(stratify),
                seed,
            ) is None,
        },
{
    match sample_indices(ds, size, method, stratify, seed) {
        Ok(rows) => {
            let out = ds.take_rows(&rows);
            assert(sample_outcome(*ds, size as nat, method, name_of(stratify), seed) == Some(rows@));
            assert(is_selection(out, *ds, rows@));
            assert(out.wf());
            Ok(out)
        },
        Err(e) => Err(e),
    }
}

/// The rows that a seeded random sample picks depend on the number of rows,
/// the requested size and the seed alone: drawing twice gives the same rows.
pub proof fn random_sample_is_reproducible(a: Dataset, b: Dataset, size: nat, seed: u64)
    requires
        a.row_count == b.row_count,
    ensures
        sample_outcome(a, size, SamplingMethod::Random, None, Some(seed)) == sample_outcome(
            b,
            size,
            SamplingMethod::Random,
            None,
            Some(seed),
        ),
{
}

/// A head sample of `n <= row_count` rows has exactly `n` rows, the first
/// ones in their original order; a tail sample has the last `n`.
pub proof fn head_and_tail_take_the_ends(ds: Dataset, n: nat)
    requires
        n <= ds.row_count,
    ensures
        sample_outcome(ds, n, SamplingMethod::Head, None, None) == Some(all_rows(n)),
        sample_outcome(ds, n, SamplingMethod::Tail, None, None) == Some(
            Seq::new(n, |i: int| (ds.row_count - n + i) as usize),
        ),
{
}

} // verus!
