//! Grouping rows by the value of one column, in the order values first occur.
use vstd::prelude::*;
use crate::dataset::{Cell, same_cell};

verus! {

/// Some cell of `s` holds the same value as `c`.
pub open spec fn has_same(s: Seq<Cell>, c: Cell) -> bool {
    exists|i: int| 0 <= i < s.len() && same_cell(#[trigger] s[i], c)
}

/// The distinct values of `s`, in the order they first occur.
pub open spec fn distinct_cells(s: Seq<Cell>) -> Seq<Cell>
    decreases s.len(),
{
    if s.len() == 0 {
        Seq::empty()
    } else {
        let prev = distinct_cells(s.drop_last());
        if has_same(prev, s.last()) {
            prev
        } else {
            prev.push(s.last())
        }
    }
}

/// The indices below `upto` of the cells that hold the value `g`, ascending.
pub open spec fn matching_rows(cells: Seq<Cell>, g: Cell, upto: nat) -> Seq<usize>
    decreases upto,
{
    if upto == 0 {
        Seq::empty()
    } else {
        let prev = matching_rows(cells, g, (upto - 1) as nat);
        if same_cell(cells[upto - 1], g) {
            prev.push((upto - 1) as usize)
        } else {
            prev
        }
    }
}

/// No two values in `s` are the same.
pub open spec fn pairwise_distinct(s: Seq<Cell>) -> bool {
    forall|i: int, j: int|
        0 <= i < s.len() && 0 <= j < s.len() && i != j ==> !same_cell(#[trigger] s[i], #[trigger] s[j])
}

pub proof fn lemma_distinct_cells(s: Seq<Cell>)
    ensures
        pairwise_distinct(distinct_cells(s)),
        forall|i: int| 0 <= i < s.len() ==> has_same(distinct_cells(s), #[trigger] s[i]),
    decreases s.len(),
{
    if s.len() > 0 {
        let prev = distinct_cells(s.drop_last());
        lemma_distinct_cells(s.drop_last());
        assert forall|i: int| 0 <= i < s.len() implies has_same(distinct_cells(s), #[trigger] s[i]) by {
            if i < s.len() - 1 {
                assert(s.drop_last()[i] == s[i]);
                let k = choose|k: int| 0 <= k < prev.len() && same_cell(#[trigger] prev[k], s[i]);
                assert(distinct_cells(s)[k] == prev[k]);
            } else if !has_same(prev, s.last()) {
                assert(distinct_cells(s)[prev.len() as int] == s.last());
            }
        }
    }
}

pub proof fn lemma_matching_rows(cells: Seq<Cell>, g: Cell, upto: nat)
    requires
        upto <= cells.len() <= usize::MAX,
    ensures
        matching_rows(cells, g, upto).no_duplicates(),
        forall|j: int|
            0 <= j < matching_rows(cells, g, upto).len() ==> #[trigger] matching_rows(cells, g, upto)[j]
                < upto && same_cell(cells[matching_rows(cells, g, upto)[j] as int], g),
        forall|i: int|
            0 <= i < upto && same_cell(cells[i], g) ==> matching_rows(cells, g, upto).contains(
                i as usize,
            ),
    decreases upto,
{
    if upto > 0 {
        lemma_matching_rows(cells, g, (upto - 1) as nat);
        let prev = matching_rows(cells, g, (upto - 1) as nat);
        let cur = matching_rows(cells, g, upto);
        assert forall|i: int| 0 <= i < upto && same_cell(cells[i], g) implies cur.contains(
            i as usize,
        ) by {
            if i < upto - 1 {
                let k = choose|k: int| 0 <= k < prev.len() && prev[k] == i as usize;
                assert(cur[k] == prev[k]);
            } else {
                assert(cur[prev.len() as int] == i as usize);
            }
        }
    }
}

/// The distinct values of `cells`, in the order they first occur.
pub fn distinct_values(cells: &Vec<Cell>) -> (r: Vec<Cell>)
    ensures
        r@ == distinct_cells(cells@),
{
    let mut groups: Vec<Cell> = Vec::new();
    let mut i: usize = 0;
    while i < cells.len()
        invariant
            i <= cells@.len(),
            groups@ == distinct_cells(cells@.subrange(0, i as int)),
        decreases cells@.len() - i,
    {
        assert(cells@.subrange(0, i as int + 1).drop_last() == cells@.subrange(0, i as int));
        let mut found = false;
        let mut k: usize = 0;
        while k < groups.len()
            invariant
                k <= groups@.len(),
                i < cells@.len(),
                found == exists|l: int| 0 <= l < k && same_cell(#[trigger] groups@[l], cells@[i as int]),
            decreases groups@.len() - k,
        {
            if groups[k].same_as(&cells[i]) {
                found = true;
            }
            k = k + 1;
        }
        if !found {
            groups.push(cells[i].duplicate());
        }
        i = i + 1;
    }
    assert(cells@.subrange(0, cells@.len() as int) == cells@);
    groups
}

/// The indices of the cells that hold the value `g`, ascending.
pub fn rows_matching(cells: &Vec<Cell>, g: &Cell) -> (r: Vec<usize>)
    ensures
        r@ == matching_rows(cells@, *g, cells@.len()),
{
    let mut rows: Vec<usize> = Vec::new();
    let mut i: usize = 0;
    while i < cells.len()
        invariant
            i <= cells@.len(),
            rows@ == matching_rows(cells@, *g, i as nat),
        decreases cells@.len() - i,
    {
        if cells[i].same_as(g) {
            rows.push(i);
        }
        i = i + 1;
    }
    rows
}

} // verus!
