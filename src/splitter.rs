//! Partitioning rows into a training part and a test part.
use vstd::prelude::*;
use crate::dataset::{Cell, Dataset, all_rows, rows_below, is_selection, same_cell};
use crate::error::EngineError;
use crate::groups::{
    distinct_cells, matching_rows, pairwise_distinct, has_same, lemma_distinct_cells,
    lemma_matching_rows, distinct_values, rows_matching,
};
use crate::sampler::{column_cells, name_of};
use crate::shuffle::{shuffled, shuffle_seeded, lemma_permutation_keeps};
use crate::number_text::{is_digit, all_digits};

verus! {

/// The fraction `numerator / denominator`.
#[derive(Debug, Clone, Copy, PartialEq, Eq)]
pub struct Fraction {
    pub numerator: u32,
    pub denominator: u32,
}

impl Fraction {
    /// Strictly between zero and one.
    pub open spec fn is_proper(self) -> bool {
        0 < self.numerator < self.denominator
    }
}

/// The value of decimal digit `c`.
pub open spec fn digit_value(c: char) -> nat {
    (c as int - '0' as int) as nat
}

/// The value of a string of decimal digits.
pub open spec fn digits_value(s: Seq<char>) -> nat
    decreases s.len(),
{
    if s.len() == 0 {
        0
    } else {
        digits_value(s.drop_last()) * 10 + digit_value(s.last())
    }
}

pub open spec fn pow10(k: nat) -> nat
    decreases k,
{
    if k == 0 {
        1
    } else {
        10 * pow10((k - 1) as nat)
    }
}

/// The fraction that decimal text such as `0.25` or `.2` denotes, over a
/// power of ten: `Digit+` or `Digit* '.' Digit+`, at most nine digits in all.
pub open spec fn decimal_fraction(s: Seq<char>) -> Option<Fraction> {
    if 0 < s.len() <= 9 && all_digits(s) {
        Some(Fraction { numerator: digits_value(s) as u32, denominator: 1 })
    } else if exists|p: int|
        0 <= p < s.len() - 1 && s[p] == '.' && s.len() <= 10 && all_digits(s.subrange(0, p))
            && all_digits(s.subrange(p + 1, s.len() as int)) {
        let p = choose|p: int|
            0 <= p < s.len() - 1 && s[p] == '.' && s.len() <= 10 && all_digits(s.subrange(0, p))
                && all_digits(s.subrange(p + 1, s.len() as int));
        Some(
            Fraction {
                numerator: digits_value(s.subrange(0, p) + s.subrange(p + 1, s.len() as int)) as u32,
                denominator: pow10((s.len() - 1 - p) as nat) as u32,
            },
        )
    } else {
        None
    }
}

proof fn lemma_digits_value_bound(s: Seq<char>)
    requires
        all_digits(s),
    ensures
        digits_value(s) < pow10(s.len()),
    decreases s.len(),
{
    if s.len() > 0 {
        let t = s.drop_last();
        assert(all_digits(t)) by {
            assert forall|i: int| 0 <= i < t.len() implies is_digit(#[trigger] t[i]) by {
                assert(t[i] == s[i]);
            }
        }
        lemma_digits_value_bound(t);
        assert(is_digit(s[s.len() - 1]));
    }
}

proof fn lemma_pow10_le(k: nat)
    requires
        k <= 9,
    ensures
        pow10(k) <= 1_000_000_000,
{
    assert(pow10(0) == 1);
    assert(pow10(1) == 10);
    assert(pow10(2) == 100);
    assert(pow10(3) == 1000);
    assert(pow10(4) == 10000);
    assert(pow10(5) == 100000);
    assert(pow10(6) == 1000000);
    assert(pow10(7) == 10000000);
    assert(pow10(8) == 100000000);
    assert(pow10(9) == 1000000000);
    lemma_pow10_mono(k, 9);
}

proof fn lemma_pow10_mono(a: nat, b: nat)
    requires
        a <= b,
    ensures
        pow10(a) <= pow10(b),
    decreases b - a,
{
    if a < b {
        lemma_pow10_mono(a, (b - 1) as nat);
    }
}

impl Fraction {
    /// Reads decimal text such as `0.25` as the fraction `25 / 100`.
    pub fn from_decimal(text: &str) -> (r: Option<Fraction>)
        ensures
            r == decimal_fraction(text@),
    {
        let s = crate::text::chars_of(text);
        let n = s.len();
        let mut dot: usize = n;
        let mut others = false;
        let mut value: u64 = 0;
        let mut scale: u64 = 1;
        let mut i: usize = 0;
        while i < n
            invariant
                s@ == text@,
                n == s@.len(),
                i <= n,
                dot <= n,
                dot < n ==> dot < i && s@[dot as int] == '.',
                dot == n ==> forall|k: int| 0 <= k < i ==> s@[k] != '.' ,
                !others ==> forall|k: int| 0 <= k < i && k != dot ==> is_digit(#[trigger] s@[k]),
                others ==> exists|k: int| 0 <= k < i && k != dot && !is_digit(#[trigger] s@[k]),
            decreases n - i,
        {
            let c = s[i];
            if c == '.' && dot == n {
                dot = i;
            } else if !(c >= '0' && c <= '9') {
                others = true;
            }
            i = i + 1;
        }
        if others || n == 0 || (dot == n && n > 9) || (dot < n && (dot + 1 == n || n > 10)) {
            proof {
                if others {
                    let k = choose|k: int| 0 <= k < n && k != dot && !is_digit(#[trigger] s@[k]);
                    assert(!all_digits(s@));
                    assert forall|p: int|
                        0 <= p < n - 1 && s@[p] == '.' && all_digits(s@.subrange(0, p)) implies !all_digits(
                        s@.subrange(p + 1, n as int),
                    ) by {
                        if k < p {
                            assert(s@.subrange(0, p)[k] == s@[k]);
                        } else if k > p {
                            assert(s@.subrange(p + 1, n as int)[k - p - 1] == s@[k]);
                        } else if dot < p {
                            assert(s@.subrange(0, p)[dot as int] == s@[dot as int]);
                        } else {
                            assert(dot != n);
                            assert(s@.subrange(p + 1, n as int)[dot - p - 1] == s@[dot as int]);
                        }
                    }
                } else if dot == n {
                    assert forall|p: int| 0 <= p < n - 1 implies s@[p] != '.' by {}
                } else {
                    assert(!all_digits(s@)) by {
                        assert(!is_digit(s@[dot as int]));
                    }
                    assert forall|p: int|
                        0 <= p < n - 1 && s@[p] == '.' && n <= 10 && all_digits(s@.subrange(0, p))
                            implies !all_digits(s@.subrange(p + 1, n as int)) by {
                        if p < dot {
                            assert(s@.subrange(p + 1, n as int)[dot - p - 1] == s@[dot as int]);
                        } else if p > dot {
                            assert(s@.subrange(0, p)[dot as int] == s@[dot as int]);
                        }
                    }
                }
            }
            return None;
        }
        // the digits, without the decimal point
        let mut digits: Vec<char> = Vec::new();
        let mut j: usize = 0;
        while j < n
            invariant
                s@ == text@,
                n == s@.len(),
                j <= n,
                dot <= n,
                dot < n ==> s@[dot as int] == '.',
                digits@ == (if j <= dot {
                    s@.subrange(0, j as int)
                } else {
                    s@.subrange(0, dot as int) + s@.subrange(dot + 1, j as int)
                }),
            decreases n - j,
        {
            if j != dot {
                digits.push(s[j]);
            }
            j = j + 1;
            proof {
                if j <= dot {
                    assert(digits@ =~= s@.subrange(0, j as int));
                } else if j == dot + 1 {
                    assert(digits@ =~= s@.subrange(0, dot as int) + s@.subrange(dot + 1, j as int));
                } else {
                    assert(digits@ =~= s@.subrange(0, dot as int) + s@.subrange(dot + 1, j as int));
                }
            }
        }
        assert(all_digits(digits@)) by {
            assert forall|k: int| 0 <= k < digits@.len() implies is_digit(#[trigger] digits@[k]) by {
                if dot == n {
                    assert(digits@[k] == s@[k]);
                } else if k < dot {
                    assert(digits@[k] == s@[k]);
                } else {
                    assert(digits@[k] == s@[k + 1]);
                }
            }
        }
        assert(digits@.len() <= 9);
        let mut value: u64 = 0;
        let mut k: usize = 0;
        while k < digits.len()
            invariant
                all_digits(digits@),
                digits@.len() <= 9,
                k <= digits@.len(),
                value == digits_value(digits@.subrange(0, k as int)),
                value < pow10(k as nat),
            decreases digits@.len() - k,
        {
            proof {
                assert(digits@.subrange(0, k + 1).drop_last() =~= digits@.subrange(0, k as int));
                lemma_pow10_le(k as nat);
                assert(is_digit(digits@[k as int]));
            }
            let d = (digits[k] as u64) - ('0' as u64);
            value = value * 10 + d;
            k = k + 1;
        }
        assert(digits@.subrange(0, digits@.len() as int) =~= digits@);
        proof {
            lemma_pow10_le(digits@.len());
        }
        if dot == n {
            assert(digits@ =~= s@);
            return Some(Fraction { numerator: value as u32, denominator: 1 });
        }
        let places = n - 1 - dot;
        let mut den: u64 = 1;
        let mut q: usize = 0;
        while q < places
            invariant
                q <= places <= 9,
                den == pow10(q as nat),
            decreases places - q,
        {
            proof {
                lemma_pow10_le(q as nat);
            }
            den = den * 10;
            q = q + 1;
        }
        proof {
            lemma_pow10_le(places as nat);
            let p = choose|p: int|
                0 <= p < n - 1 && s@[p] == '.' && n <= 10 && all_digits(s@.subrange(0, p))
                    && all_digits(s@.subrange(p + 1, n as int));
            assert(all_digits(s@.subrange(0, dot as int))) by {
                assert forall|k: int| 0 <= k < dot implies is_digit(#[trigger] s@.subrange(0, dot as int)[k]) by {
                    assert(digits@[k] == s@[k]);
                }
            }
            assert(all_digits(s@.subrange(dot + 1, n as int))) by {
                assert forall|k: int| 0 <= k < n - dot - 1 implies is_digit(
                    #[trigger] s@.subrange(dot + 1, n as int)[k],
                ) by {
                    assert(digits@[dot + k] == s@[dot + 1 + k]);
                }
            }
            if p < dot {
                assert(s@.subrange(0, dot as int)[p] == s@[p]);
            } else if p > dot {
                assert(s@.subrange(0, p)[dot as int] == s@[dot as int]);
            }
            assert(p == dot);
        }
        Some(Fraction { numerator: value as u32, denominator: den as u32 })
    }
}

/// What a split asks for: the share of rows that goes to the test part, an
/// optional column to stratify by, and an optional seed.
#[derive(Debug, PartialEq, Eq)]
pub struct SplitSpec {
    pub test_fraction: Fraction,
    pub stratify_column: Option<String>,
    pub seed: Option<u64>,
}

/// `round(n * f)`, halves rounded up: the size of the test part of `n` rows.
pub open spec fn test_count(n: nat, f: Fraction) -> nat {
    ((2 * n * f.numerator + f.denominator) / (2 * f.denominator)) as nat
}

/// The order in which rows are dealt: shuffled by a generator freshly seeded
/// with the seed (one per group when stratifying), or as given without one.
pub open spec fn dealing_order(seed: Option<u64>, rows: Seq<usize>) -> Seq<usize> {
    match seed {
        Some(s) => shuffled(s, rows),
        None => rows,
    }
}

/// The training rows of `rows`: all but the last `test_count` of the dealing
/// order.
pub open spec fn train_part(seed: Option<u64>, rows: Seq<usize>, f: Fraction) -> Seq<usize> {
    dealing_order(seed, rows).subrange(0, rows.len() - test_count(rows.len(), f))
}

/// The test rows of `rows`: the last `test_count` of the dealing order.
pub open spec fn test_part(seed: Option<u64>, rows: Seq<usize>, f: Fraction) -> Seq<usize> {
    dealing_order(seed, rows).subrange(rows.len() - test_count(rows.len(), f), rows.len() as int)
}

/// The training and test rows that the first `j` groups contribute, each
/// group split on its own.
pub open spec fn stratified_parts(
    cells: Seq<Cell>,
    groups: Seq<Cell>,
    f: Fraction,
    seed: Option<u64>,
    j: nat,
) -> (Seq<usize>, Seq<usize>)
    decreases j,
{
    if j == 0 || j > groups.len() {
        (Seq::empty(), Seq::empty())
    } else {
        let rows = matching_rows(cells, groups[j - 1], cells.len());
        let prev = stratified_parts(cells, groups, f, seed, (j - 1) as nat);
        (prev.0 + train_part(seed, rows, f), prev.1 + test_part(seed, rows, f))
    }
}

/// The rows of all groups before `j`, group after group.
pub open spec fn group_pool(cells: Seq<Cell>, groups: Seq<Cell>, j: nat) -> Seq<usize>
    decreases j,
{
    if j == 0 || j > groups.len() {
        Seq::empty()
    } else {
        group_pool(cells, groups, (j - 1) as nat) + matching_rows(cells, groups[j - 1], cells.len())
    }
}

/// The training and test rows of a split, or `None` where the request is
/// invalid: a fraction outside (0, 1), or a stratify column that is absent.
pub open spec fn split_outcome(
    ds: Dataset,
    f: Fraction,
    stratify: Option<Seq<char>>,
    seed: Option<u64>,
) -> Option<(Seq<usize>, Seq<usize>)> {
    if !f.is_proper() {
        None
    } else {
        match stratify {
            None => Some(
                (
                    train_part(seed, all_rows(ds.row_count as nat), f),
                    test_part(seed, all_rows(ds.row_count as nat), f),
                ),
            ),
            Some(name) => if ds.has_column(name) {
                let cells = column_cells(ds, name);
                let groups = distinct_cells(cells);
                Some(stratified_parts(cells, groups, f, seed, groups.len()))
            } else {
                None
            },
        }
    }
}

/// The two parts together hold every row of a table of `n` rows exactly once.
pub open spec fn is_partition(train: Seq<usize>, test: Seq<usize>, n: nat) -> bool {
    &&& (train + test).to_multiset() == all_rows(n).to_multiset()
    &&& train.len() + test.len() == n
    &&& (train + test).no_duplicates()
    &&& rows_below(train + test, n)
    &&& forall|i: usize| i < n ==> (train + test).contains(i)
}

proof fn lemma_test_count_le(n: nat, f: Fraction)
    requires
        f.is_proper(),
    ensures
        test_count(n, f) <= n,
{
    let num = f.numerator as nat;
    let den = f.denominator as nat;
    let t = test_count(n, f);
    assert(t * (2 * den) <= 2 * n * num + den) by (nonlinear_arith)
        requires
            den > 0,
            t == (2 * n * num + den) / (2 * den),
    ;
    if t > n {
        assert((n + 1) * (2 * den) <= t * (2 * den)) by (nonlinear_arith)
            requires
                t >= n + 1,
        ;
        assert(2 * n * num <= 2 * n * den) by (nonlinear_arith)
            requires
                num < den,
        ;
        assert(false) by (nonlinear_arith)
            requires
                (n + 1) * (2 * den) <= 2 * n * num + den,
                2 * n * num <= 2 * n * den,
                den > 0,
        ;
    }
}

/// Two sequences without duplicates that hold the same values are
/// permutations of each other.
proof fn lemma_same_values(p: Seq<usize>, q: Seq<usize>)
    requires
        p.no_duplicates(),
        q.no_duplicates(),
        forall|x: usize| p.contains(x) <==> q.contains(x),
    ensures
        p.to_multiset() == q.to_multiset(),
{
    p.lemma_multiset_has_no_duplicates();
    q.lemma_multiset_has_no_duplicates();
    p.to_multiset_ensures();
    q.to_multiset_ensures();
    assert forall|x: usize| p.to_multiset().count(x) == q.to_multiset().count(x) by {
        if p.contains(x) {
            assert(p.to_multiset().contains(x));
            assert(q.to_multiset().contains(x));
        }
    }
    assert(p.to_multiset() =~= q.to_multiset());
}

/// Concatenating two duplicate-free sequences with no value in common gives
/// a duplicate-free sequence.
proof fn lemma_concat_distinct(a: Seq<usize>, b: Seq<usize>)
    requires
        a.no_duplicates(),
        b.no_duplicates(),
        forall|i: int, j: int| 0 <= i < a.len() && 0 <= j < b.len() ==> a[i] != b[j],
    ensures
        (a + b).no_duplicates(),
{
    let c = a + b;
    assert forall|i: int, j: int| 0 <= i < c.len() && 0 <= j < c.len() && i != j implies c[i]
        != c[j] by {
        if i < a.len() && j >= a.len() {
            assert(c[j] == b[j - a.len()]);
        } else if j < a.len() && i >= a.len() {
            assert(c[i] == b[i - a.len()]);
        } else if i >= a.len() {
            assert(c[i] == b[i - a.len()]);
            assert(c[j] == b[j - a.len()]);
        }
    }
}

/// The groups' rows, taken together, are every row once.
proof fn lemma_group_pool(cells: Seq<Cell>, groups: Seq<Cell>, j: nat)
    requires
        cells.len() <= usize::MAX,
        pairwise_distinct(groups),
        j <= groups.len(),
    ensures
        group_pool(cells, groups, j).no_duplicates(),
        forall|x: int|
            0 <= x < group_pool(cells, groups, j).len() ==> #[trigger] group_pool(
                cells,
                groups,
                j,
            )[x] < cells.len() && exists|g: int|
                0 <= g < j && same_cell(
                    cells[group_pool(cells, groups, j)[x] as int],
                    #[trigger] groups[g],
                ),
        forall|i: int, g: int|
            0 <= i < cells.len() && 0 <= g < j && #[trigger] same_cell(cells[i], groups[g])
                ==> group_pool(cells, groups, j).contains(i as usize),
    decreases j,
{
    if j > 0 {
        let prev = group_pool(cells, groups, (j - 1) as nat);
        let rows = matching_rows(cells, groups[j - 1], cells.len());
        let cur = group_pool(cells, groups, j);
        lemma_group_pool(cells, groups, (j - 1) as nat);
        lemma_matching_rows(cells, groups[j - 1], cells.len());
        assert forall|a: int, b: int| 0 <= a < prev.len() && 0 <= b < rows.len() implies prev[a]
            != rows[b] by {
            let g = choose|g: int|
                0 <= g < j - 1 && same_cell(cells[prev[a] as int], #[trigger] groups[g]);
            assert(same_cell(cells[rows[b] as int], groups[j - 1]));
        }
        lemma_concat_distinct(prev, rows);
        assert forall|x: int| 0 <= x < cur.len() implies #[trigger] cur[x] < cells.len() && exists|
            g: int,
        | 0 <= g < j && same_cell(cells[cur[x] as int], #[trigger] groups[g]) by {
            if x < prev.len() {
                assert(cur[x] == prev[x]);
            } else {
                assert(cur[x] == rows[x - prev.len()]);
                assert(same_cell(cells[cur[x] as int], groups[j - 1]));
            }
        }
        assert forall|i: int, g: int|
            0 <= i < cells.len() && 0 <= g < j && #[trigger] same_cell(cells[i], groups[g])
                implies cur.contains(i as usize) by {
            if g < j - 1 {
                let k = choose|k: int| 0 <= k < prev.len() && prev[k] == i as usize;
                assert(cur[k] == prev[k]);
            } else {
                let k = choose|k: int| 0 <= k < rows.len() && rows[k] == i as usize;
                assert(cur[prev.len() + k] == rows[k]);
            }
        }
    }
}

/// The rows of every group, taken together, are a permutation of all rows.
proof fn lemma_pool_is_all_rows(cells: Seq<Cell>)
    requires
        cells.len() <= usize::MAX,
    ensures
        group_pool(cells, distinct_cells(cells), distinct_cells(cells).len()).to_multiset()
            == all_rows(cells.len()).to_multiset(),
{
    let groups = distinct_cells(cells);
    let pool = group_pool(cells, groups, groups.len());
    let all = all_rows(cells.len());
    lemma_distinct_cells(cells);
    lemma_group_pool(cells, groups, groups.len());
    assert forall|x: usize| pool.contains(x) <==> all.contains(x) by {
        if pool.contains(x) {
            let k = choose|k: int| 0 <= k < pool.len() && pool[k] == x;
            assert(all[x as int] == x);
        }
        if all.contains(x) {
            let i = x as int;
            assert(has_same(groups, cells[i]));
            let g = choose|g: int| 0 <= g < groups.len() && same_cell(#[trigger] groups[g], cells[i]);
            assert(same_cell(cells[i], groups[g]));
        }
    }
    lemma_same_values(pool, all);
}

/// The consequences of being a permutation of all rows.
proof fn lemma_partition(train: Seq<usize>, test: Seq<usize>, n: nat)
    requires
        n <= usize::MAX,
        (train + test).to_multiset() == all_rows(n).to_multiset(),
    ensures
        is_partition(train, test, n),
{
    let both = train + test;
    assert(all_rows(n).no_duplicates()) by {
        assert forall|i: int, j: int| 0 <= i < n && 0 <= j < n && i != j implies all_rows(n)[i]
            != all_rows(n)[j] by {}
    }
    lemma_permutation_keeps(both, all_rows(n));
    both.to_multiset_ensures();
    all_rows(n).to_multiset_ensures();
    assert forall|j: int| 0 <= j < both.len() implies #[trigger] both[j] < n by {
        assert(all_rows(n).contains(both[j]));
    }
    assert forall|i: usize| i < n implies both.contains(i) by {
        assert(all_rows(n)[i as int] == i);
    }
    assert(both.len() == train.len() + test.len());
    assert(both.len() == all_rows(n).len());
    assert(rows_below(both, n));
}

/// `round(n * f)`, halves rounded up.
pub fn test_rows(n: usize, f: Fraction) -> (r: usize)
    requires
        f.is_proper(),
    ensures
        r == test_count(n as nat, f),
        r <= n,
{
    proof {
        lemma_test_count_le(n as nat, f);
    }
    let wide_n = n as u128;
    let num = f.numerator as u128;
    let den = f.denominator as u128;
    assert(wide_n * num <= 0xffff_ffff_ffff_ffffu128 * 0xffff_ffffu128) by (nonlinear_arith)
        requires
            wide_n <= 0xffff_ffff_ffff_ffffu128,
            num <= 0xffff_ffffu128,
    ;
    let t = (2 * (wide_n * num) + den) / (2 * den);
    assert(2 * (wide_n * num) == 2 * wide_n * num) by (nonlinear_arith);
    t as usize
}

/// The training and test parts of `rows`, as `train_part` and `test_part`
/// describe.
fn split_rows(rows: Vec<usize>, f: Fraction, seed: Option<u64>) -> (r: (Vec<usize>, Vec<usize>))
    requires
        f.is_proper(),
    ensures
        r.0@ == train_part(seed, rows@, f),
        r.1@ == test_part(seed, rows@, f),
        (r.0@ + r.1@).to_multiset() == rows@.to_multiset(),
{
    let ghost before = rows@;
    let mut rows = rows;
    let n = rows.len();
    match seed {
        Some(s) => shuffle_seeded(&mut rows, s),
        None => {},
    }
    proof {
        lemma_test_count_le(n as nat, f);
    }
    let t = test_rows(n, f);
    let mut train: Vec<usize> = Vec::new();
    let mut test: Vec<usize> = Vec::new();
    let mut i: usize = 0;
    while i < n
        invariant
            n == rows@.len(),
            t <= n,
            i <= n,
            i <= n - t ==> train@ == rows@.subrange(0, i as int) && test@.len() == 0,
            i > n - t ==> train@ == rows@.subrange(0, n - t) && test@ == rows@.subrange(
                n - t,
                i as int,
            ),
        decreases n - i,
    {
        if i < n - t {
            train.push(rows[i]);
            assert(train@ =~= rows@.subrange(0, i as int + 1));
        } else {
            test.push(rows[i]);
            assert(test@ =~= rows@.subrange(n - t, i as int + 1));
        }
        i = i + 1;
    }
    assert(train@ =~= rows@.subrange(0, n - t));
    assert(test@ =~= rows@.subrange(n - t, n as int));
    assert(train@ + test@ =~= rows@);
    (train, test)
}

/// Splits the rows of a table of `n` rows: seeded, in the order of a seeded
/// shuffle; unseeded, the first rows train and the rest test.
pub fn split_random_indices(n: usize, f: Fraction, seed: Option<u64>) -> (r: (
    Vec<usize>,
    Vec<usize>,
))
    requires
        f.is_proper(),
    ensures
        r.0@ == train_part(seed, all_rows(n as nat), f),
        r.1@ == test_part(seed, all_rows(n as nat), f),
        is_partition(r.0@, r.1@, n as nat),
{
    let mut all: Vec<usize> = Vec::new();
    let mut i: usize = 0;
    while i < n
        invariant
            i <= n,
            all@ == all_rows(i as nat),
        decreases n - i,
    {
        all.push(i);
        i = i + 1;
        assert(all@ =~= all_rows(i as nat));
    }
    let r = split_rows(all, f, seed);
    proof {
        lemma_partition(r.0@, r.1@, n as nat);
    }
    r
}

/// Splits the rows group by group, each group by the value of `cells`.
pub fn split_stratified_indices(cells: &Vec<Cell>, f: Fraction, seed: Option<u64>) -> (r: (
    Vec<usize>,
    Vec<usize>,
))
    requires
        f.is_proper(),
    ensures
        (r.0@, r.1@) == stratified_parts(
            cells@,
            distinct_cells(cells@),
            f,
            seed,
            distinct_cells(cells@).len(),
        ),
        is_partition(r.0@, r.1@, cells@.len()),
{
    let groups = distinct_values(cells);
    let n = cells.len();
    let m = groups.len();
    let mut train: Vec<usize> = Vec::new();
    let mut test: Vec<usize> = Vec::new();
    let mut j: usize = 0;
    while j < m
        invariant
            j <= m == groups@.len(),
            n == cells@.len(),
            f.is_proper(),
            groups@ == distinct_cells(cells@),
            (train@, test@) == stratified_parts(cells@, groups@, f, seed, j as nat),
            (train@ + test@).to_multiset() == group_pool(cells@, groups@, j as nat).to_multiset(),
        decreases m - j,
    {
        let rows = rows_matching(cells, &groups[j]);
        let ghost rows_view = rows@;
        let ghost prev_train = train@;
        let ghost prev_test = test@;
        let (mut part_train, mut part_test) = split_rows(rows, f, seed);
        let ghost a = part_train@;
        let ghost b = part_test@;
        train.append(&mut part_train);
        test.append(&mut part_test);
        proof {
            vstd::seq_lib::lemma_multiset_commutative(prev_train + prev_test, a + b);
            vstd::seq_lib::lemma_multiset_commutative(prev_train, prev_test);
            vstd::seq_lib::lemma_multiset_commutative(a, b);
            vstd::seq_lib::lemma_multiset_commutative(prev_train, a);
            vstd::seq_lib::lemma_multiset_commutative(prev_test, b);
            vstd::seq_lib::lemma_multiset_commutative(prev_train + a, prev_test + b);
            vstd::seq_lib::lemma_multiset_commutative(
                group_pool(cells@, groups@, j as nat),
                rows_view,
            );
            assert(group_pool(cells@, groups@, j as nat + 1) == group_pool(
                cells@,
                groups@,
                j as nat,
            ) + rows_view);
            assert((train@ + test@).to_multiset() =~= group_pool(
                cells@,
                groups@,
                j as nat + 1,
            ).to_multiset());
        }
        j = j + 1;
    }
    proof {
        lemma_pool_is_all_rows(cells@);
        lemma_partition(train@, test@, n as nat);
    }
    (train, test)
}

/// The training and test row indices of a split. Fails when the fraction is
/// not strictly between zero and one, or the stratify column is absent.
pub fn split_indices(ds: &Dataset, spec: &SplitSpec) -> (r: Result<
    (Vec<usize>, Vec<usize>),
    EngineError,
>)
    requires
        ds.wf(),
    ensures
        match r {
            Ok(parts) => split_outcome(
                *ds,
                spec.test_fraction,
                match spec.stratify_column {
                    Some(s) => Some(s@),
                    None => None,
                },
                spec.seed,
            ) == Some((parts.0@, parts.1@)) && is_partition(
                parts.0@,
                parts.1@,
                ds.row_count as nat,
            ),
            Err(e) => e is InvalidArgument && split_outcome(
                *ds,
                spec.test_fraction,
                match spec.stratify_column {
                    Some(s) => Some(s@),
                    None => None,
                },
                spec.seed,
            ) is None,
        },
{
    let f = spec.test_fraction;
    if !(0 < f.numerator && f.numerator < f.denominator) {
        return Err(
            EngineError::InvalidArgument(
                "the test fraction must lie strictly between 0 and 1".to_owned(),
            ),
        );
    }
    match &spec.stratify_column {
        None => Ok(split_random_indices(ds.row_count, f, spec.seed)),
        Some(name) => match ds.find(name.as_str()) {
            Some(c) => Ok(split_stratified_indices(&ds.columns[c].cells, f, spec.seed)),
            None => Err(EngineError::InvalidArgument("stratify column not found".to_owned())),
        },
    }
}

/// Splits a dataset into a training part and a test part; see
/// [`split_indices`] for which rows go where.
pub fn split(ds: &Dataset, spec: &SplitSpec) -> (r: Result<(Dataset, Dataset), EngineError>)
    requires
        ds.wf(),
    ensures
        match r {
            Ok(parts) => parts.0.wf() && parts.1.wf() && parts.0.row_count + parts.1.row_count
                == ds.row_count && match split_outcome(
                *ds,
                spec.test_fraction,
                match spec.stratify_column {
                    Some(s) => Some(s@),
                    None => None,
                },
                spec.seed,
            ) {
                Some(rows) => is_selection(parts.0, *ds, rows.0) && is_selection(
                    parts.1,
                    *ds,
                    rows.1,
                ) && is_partition(rows.0, rows.1, ds.row_count as nat),
                None => false,
            },
            Err(e) => e is InvalidArgument && split_outcome(
                *ds,
                spec.test_fraction,
                match spec.stratify_column {
                    Some(s) => Some(s@),
                    None => None,
                },
                spec.seed,
            ) is None,
        },
{
    match split_indices(ds, spec) {
        Ok((train, test)) => {
            proof {
                assert(rows_below(train@, ds.row_count as nat)) by {
                    assert forall|j: int| 0 <= j < train@.len() implies #[trigger] train@[j]
                        < ds.row_count by {
                        assert((train@ + test@)[j] == train@[j]);
                    }
                }
                assert(rows_below(test@, ds.row_count as nat)) by {
                    assert forall|j: int| 0 <= j < test@.len() implies #[trigger] test@[j]
                        < ds.row_count by {
                        assert((train@ + test@)[train@.len() + j] == test@[j]);
                    }
                }
            }
            let a = ds.take_rows(&train);
            let b = ds.take_rows(&test);
            Ok((a, b))
        },
        Err(e) => Err(e),
    }
}

/// A random split of `test_fraction` of the rows, as [`split`] without a
/// stratify column.
pub fn split_random(ds: &Dataset, test_fraction: Fraction, seed: Option<u64>) -> (r: Result<
    (Dataset, Dataset),
    EngineError,
>)
    requires
        ds.wf(),
    ensures
        match r {
            Ok(parts) => test_fraction.is_proper() && parts.0.wf() && parts.1.wf()
                && is_selection(parts.0, *ds, train_part(seed, all_rows(ds.row_count as nat), test_fraction))
                && is_selection(parts.1, *ds, test_part(seed, all_rows(ds.row_count as nat), test_fraction))
                && is_partition(
                train_part(seed, all_rows(ds.row_count as nat), test_fraction),
                test_part(seed, all_rows(ds.row_count as nat), test_fraction),
                ds.row_count as nat,
            ),
            Err(e) => e is InvalidArgument && !test_fraction.is_proper(),
        },
{
    let spec = SplitSpec { test_fraction, stratify_column: None, seed };
    split(ds, &spec)
}

/// A split made group by group, grouped by the column `column`, as [`split`]
/// with that stratify column.
pub fn split_stratified(
    ds: &Dataset,
    test_fraction: Fraction,
    column: &str,
    seed: Option<u64>,
) -> (r: Result<(Dataset, Dataset), EngineError>)
    requires
        ds.wf(),
    ensures
        match r {
            Ok(parts) => test_fraction.is_proper() && ds.has_column(column@) && parts.0.wf()
                && parts.1.wf() && parts.0.row_count + parts.1.row_count == ds.row_count
                && match split_outcome(*ds, test_fraction, Some(column@), seed) {
                Some(rows) => is_selection(parts.0, *ds, rows.0) && is_selection(
                    parts.1,
                    *ds,
                    rows.1,
                ) && is_partition(rows.0, rows.1, ds.row_count as nat),
                None => false,
            },
            Err(e) => e is InvalidArgument && (!test_fraction.is_proper() || !ds.has_column(
                column@,
            )),
        },
{
    let spec = SplitSpec { test_fraction, stratify_column: Some(column.to_owned()), seed };
    split(ds, &spec)
}

} // verus!
