//! The tabular data model: cells, columns and datasets.
//!
//! Numbers that the validator compares are held as *order keys*: integers that
//! order exactly as the floating-point values they stand for. The engine only
//! compares keys; it never does arithmetic on them.
use vstd::prelude::*;
use crate::error::EngineError;

verus! {

/// The order key of the IEEE-754 double with bit pattern `bits`: its
/// magnitude bits, negated when the sign bit is set, so that keys order as
/// the numbers do and both zeros get key 0. A not-a-number has no key.
pub open spec fn key_of_bits(bits: u64) -> Option<i64> {
    let negative = bits >= 0x8000_0000_0000_0000u64;
    let magnitude: int = if negative {
        bits - 0x8000_0000_0000_0000u64
    } else {
        bits as int
    };
    if magnitude > 0x7ff0_0000_0000_0000 {
        None
    } else if negative {
        Some((-magnitude) as i64)
    } else {
        Some(magnitude as i64)
    }
}

/// The order key of the double with bit pattern `bits` (see [`key_of_bits`]).
pub fn order_key(bits: u64) -> (r: Option<i64>)
    ensures
        r == key_of_bits(bits),
{
    let negative = bits >= 0x8000_0000_0000_0000u64;
    let magnitude: u64 = if negative {
        bits - 0x8000_0000_0000_0000u64
    } else {
        bits
    };
    if magnitude > 0x7ff0_0000_0000_0000u64 {
        None
    } else if negative {
        Some(-(magnitude as i64))
    } else {
        Some(magnitude as i64)
    }
}

/// One value of a column.
#[derive(Debug, PartialEq, Eq)]
pub enum Cell {
    Null,
    Int(i64),
    /// A floating-point value, held as its IEEE-754 bit pattern.
    Float(u64),
    Bool(bool),
    Text(String),
}

/// Two cells hold the same value: text is compared character by character,
/// floating-point values by bit pattern.
pub open spec fn same_cell(a: Cell, b: Cell) -> bool {
    match (a, b) {
        (Cell::Null, Cell::Null) => true,
        (Cell::Int(x), Cell::Int(y)) => x == y,
        (Cell::Float(x), Cell::Float(y)) => x == y,
        (Cell::Bool(x), Cell::Bool(y)) => x == y,
        (Cell::Text(x), Cell::Text(y)) => x@ == y@,
        _ => false,
    }
}

impl Cell {
    pub fn is_null(&self) -> (r: bool)
        ensures
            r == (*self is Null),
    {
        match self {
            Cell::Null => true,
            _ => false,
        }
    }

    pub fn same_as(&self, other: &Cell) -> (r: bool)
        ensures
            r == same_cell(*self, *other),
    {
        match (self, other) {
            (Cell::Null, Cell::Null) => true,
            (Cell::Int(x), Cell::Int(y)) => *x == *y,
            (Cell::Float(x), Cell::Float(y)) => *x == *y,
            (Cell::Bool(x), Cell::Bool(y)) => *x == *y,
            (Cell::Text(x), Cell::Text(y)) => *x == *y,
            _ => false,
        }
    }

    /// A copy of the cell.
    pub fn duplicate(&self) -> (r: Cell)
        ensures
            r == *self,
    {
        match self {
            Cell::Null => Cell::Null,
            Cell::Int(x) => Cell::Int(*x),
            Cell::Float(x) => Cell::Float(*x),
            Cell::Bool(x) => Cell::Bool(*x),
            Cell::Text(s) => Cell::Text(s.clone()),
        }
    }
}

/// The family of a column's declared scalar type.
#[derive(Debug, Clone, Copy, PartialEq, Eq)]
pub enum ColumnKind {
    Integer,
    Float,
    Text,
    Boolean,
    Temporal,
    Other,
}

/// A named, typed column.
#[derive(Debug, PartialEq, Eq)]
pub struct Column {
    pub name: String,
    /// The declared type as the data engine names it (`Int64`, `String`, ...).
    pub dtype: String,
    pub kind: ColumnKind,
    pub cells: Vec<Cell>,
    /// The column cast to floating point, one order key per row, `None` for a
    /// null or not-a-number value; `None` as a whole where the cast fails.
    pub numeric: Option<Vec<Option<i64>>>,
}

impl Column {
    pub open spec fn len(&self) -> nat {
        self.cells@.len()
    }

    /// The numeric view, where there is one, has a key for every row.
    pub open spec fn wf(&self) -> bool {
        match self.numeric {
            Some(v) => v@.len() == self.cells@.len(),
            None => true,
        }
    }

    pub fn new(
        name: String,
        dtype: String,
        kind: ColumnKind,
        cells: Vec<Cell>,
        numeric: Option<Vec<Option<i64>>>,
    ) -> (r: Column)
        ensures
            r == (Column { name, dtype, kind, cells, numeric }),
    {
        Column { name, dtype, kind, cells, numeric }
    }
}

/// An ordered set of named columns that share one row count.
#[derive(Debug, PartialEq, Eq)]
pub struct Dataset {
    pub columns: Vec<Column>,
    pub row_count: usize,
}

/// Row `j` of `out` is row `rows[j]` of `src`, in every column.
pub open spec fn column_selection(out: Column, src: Column, rows: Seq<usize>) -> bool {
    &&& out.name == src.name
    &&& out.dtype == src.dtype
    &&& out.kind == src.kind
    &&& out.cells@.len() == rows.len()
    &&& forall|j: int| 0 <= j < rows.len() ==> #[trigger] out.cells@[j] == src.cells@[rows[j] as int]
    &&& match src.numeric {
        Some(v) => match out.numeric {
            Some(w) => w@.len() == rows.len() && forall|j: int|
                0 <= j < rows.len() ==> #[trigger] w@[j] == v@[rows[j] as int],
            None => false,
        },
        None => out.numeric is None,
    }
}

/// `out` holds the rows `rows` of `src`, in that order.
pub open spec fn is_selection(out: Dataset, src: Dataset, rows: Seq<usize>) -> bool {
    &&& out.row_count == rows.len()
    &&& out.columns@.len() == src.columns@.len()
    &&& forall|c: int|
        0 <= c < src.columns@.len() ==> column_selection(
            #[trigger] out.columns@[c],
            src.columns@[c],
            rows,
        )
}

/// The column called `name` (meaningful where there is one).
pub open spec fn column_named(ds: Dataset, name: Seq<char>) -> Column {
    let c = choose|c: int| 0 <= c < ds.columns@.len() && (#[trigger] ds.columns@[c]).name@ == name;
    ds.columns@[c]
}

/// Every index in `rows` addresses a row of a table of `n` rows.
pub open spec fn rows_below(rows: Seq<usize>, n: nat) -> bool {
    forall|j: int| 0 <= j < rows.len() ==> #[trigger] rows[j] < n
}

/// The indices `0, 1, ..., n - 1`.
pub open spec fn all_rows(n: nat) -> Seq<usize> {
    Seq::new(n, |i: int| i as usize)
}

impl Dataset {
    /// Every column has `row_count` rows and column names are distinct.
    pub open spec fn wf(&self) -> bool {
        &&& forall|c: int|
            0 <= c < self.columns@.len() ==> (#[trigger] self.columns@[c]).len()
                == self.row_count && self.columns@[c].wf()
        &&& forall|c: int, d: int|
            0 <= c < self.columns@.len() && 0 <= d < self.columns@.len() && c != d
                ==> (#[trigger] self.columns@[c]).name@ != (#[trigger] self.columns@[d]).name@
    }

    /// The position of the column called `name`.
    pub open spec fn has_column(&self, name: Seq<char>) -> bool {
        exists|c: int| 0 <= c < self.columns@.len() && (#[trigger] self.columns@[c]).name@ == name
    }

    /// Builds a dataset from its columns; they must have equal lengths (and
    /// numeric views of that length) and distinct names.
    pub fn new(columns: Vec<Column>) -> (r: Result<Dataset, EngineError>)
        ensures
            match r {
                Ok(ds) => ds.wf() && ds.columns == columns && (columns@.len() == 0
                    ==> ds.row_count == 0) && (columns@.len() > 0 ==> ds.row_count
                    == columns@[0].len()),
                Err(e) => e is InvalidArgument && (!(forall|c: int|
                    0 <= c < columns@.len() ==> (#[trigger] columns@[c]).len()
                        == columns@[0].len() && columns@[c].wf()) || !(forall|c: int, d: int|
                    0 <= c < columns@.len() && 0 <= d < columns@.len() && c != d
                        ==> (#[trigger] columns@[c]).name@ != (#[trigger] columns@[d]).name@)),
            },
    {
        let row_count: usize = if columns.len() == 0 {
            0
        } else {
            columns[0].cells.len()
        };
        let mut c: usize = 0;
        while c < columns.len()
            invariant
                c <= columns@.len(),
                columns@.len() > 0 ==> row_count == columns@[0].len(),
                forall|k: int| 0 <= k < c ==> (#[trigger] columns@[k]).len() == row_count
                    && columns@[k].wf(),
                forall|k: int, l: int|
                    0 <= k < c && 0 <= l < c && k != l ==> (#[trigger] columns@[k]).name@
                        != (#[trigger] columns@[l]).name@,
            decreases columns@.len() - c,
        {
            let col = &columns[c];
            let numeric_ok = match &col.numeric {
                Some(v) => v.len() == col.cells.len(),
                None => true,
            };
            if col.cells.len() != row_count || !numeric_ok {
                return Err(EngineError::InvalidArgument("columns differ in length".to_owned()));
            }
            let mut d: usize = 0;
            while d < c
                invariant
                    d <= c < columns@.len(),
                    forall|l: int| 0 <= l < d ==> columns@[l].name@ != columns@[c as int].name@,
                decreases c - d,
            {
                if columns[d].name == columns[c].name {
                    return Err(EngineError::InvalidArgument("duplicate column name".to_owned()));
                }
                d = d + 1;
            }
            c = c + 1;
        }
        Ok(Dataset { columns, row_count })
    }

    /// The position of the column called `name`, if there is one.
    pub fn column_position(&self, name: &str) -> (r: Option<usize>)
        ensures
            match r {
                Some(c) => c < self.columns@.len() && self.columns@[c as int].name@ == name@,
                None => !self.has_column(name@),
            },
    {
        let wanted = name.to_owned();
        let mut c: usize = 0;
        while c < self.columns.len()
            invariant
                c <= self.columns@.len(),
                wanted@ == name@,
                forall|k: int| 0 <= k < c ==> (#[trigger] self.columns@[k]).name@ != name@,
            decreases self.columns@.len() - c,
        {
            if self.columns[c].name == wanted {
                return Some(c);
            }
            c = c + 1;
        }
        None
    }

    /// The position of the column called `name`, which is the column that
    /// `column_named` describes.
    pub fn find(&self, name: &str) -> (r: Option<usize>)
        requires
            self.wf(),
        ensures
            match r {
                Some(c) => c < self.columns@.len() && self.has_column(name@)
                    && self.columns@[c as int] == column_named(*self, name@)
                    && self.columns@[c as int].len() == self.row_count,
                None => !self.has_column(name@),
            },
    {
        let r = self.column_position(name);
        if let Some(c) = r {
            proof {
                let d = choose|d: int|
                    0 <= d < self.columns@.len() && (#[trigger] self.columns@[d]).name@ == name@;
                assert(d == c);
            }
        }
        r
    }

    /// The rows `rows` of the dataset, in that order, as a new dataset.
    pub fn take_rows(&self, rows: &Vec<usize>) -> (r: Dataset)
        requires
            self.wf(),
            rows_below(rows@, self.row_count as nat),
        ensures
            r.wf(),
            is_selection(r, *self, rows@),
    {
        let mut columns: Vec<Column> = Vec::new();
        let mut c: usize = 0;
        while c < self.columns.len()
            invariant
                self.wf(),
                rows_below(rows@, self.row_count as nat),
                c <= self.columns@.len(),
                columns@.len() == c,
                forall|k: int|
                    0 <= k < c ==> column_selection(#[trigger] columns@[k], self.columns@[k], rows@),
            decreases self.columns@.len() - c,
        {
            let src = &self.columns[c];
            assert(src.len() == self.row_count);
            let mut cells: Vec<Cell> = Vec::new();
            let mut j: usize = 0;
            while j < rows.len()
                invariant
                    src == self.columns@[c as int],
                    src.len() == self.row_count,
                    rows_below(rows@, self.row_count as nat),
                    j <= rows@.len(),
                    cells@.len() == j,
                    forall|i: int| 0 <= i < j ==> #[trigger] cells@[i] == src.cells@[rows@[i] as int],
                decreases rows@.len() - j,
            {
                cells.push(src.cells[rows[j]].duplicate());
                j = j + 1;
            }
            let numeric = match &src.numeric {
                Some(v) => {
                    let mut keys: Vec<Option<i64>> = Vec::new();
                    let mut j: usize = 0;
                    while j < rows.len()
                        invariant
                            src == self.columns@[c as int],
                            src.wf(),
                            src.numeric == Some(*v),
                            src.len() == self.row_count,
                            rows_below(rows@, self.row_count as nat),
                            j <= rows@.len(),
                            keys@.len() == j,
                            forall|i: int| 0 <= i < j ==> #[trigger] keys@[i] == v@[rows@[i] as int],
                        decreases rows@.len() - j,
                    {
                        keys.push(v[rows[j]]);
                        j = j + 1;
                    }
                    Some(keys)
                },
                None => None,
            };
            let col = Column {
                name: src.name.clone(),
                dtype: src.dtype.clone(),
                kind: src.kind,
                cells,
                numeric,
            };
            columns.push(col);
            c = c + 1;
        }
        let r = Dataset { columns, row_count: rows.len() };
        assert forall|k: int| 0 <= k < r.columns@.len() implies (#[trigger] r.columns@[k]).len()
            == r.row_count && r.columns@[k].wf() by {
            assert(column_selection(r.columns@[k], self.columns@[k], rows@));
        }
        assert forall|k: int, l: int|
            0 <= k < r.columns@.len() && 0 <= l < r.columns@.len() && k != l
                implies (#[trigger] r.columns@[k]).name@ != (#[trigger] r.columns@[l]).name@ by {
            assert(column_selection(r.columns@[k], self.columns@[k], rows@));
            assert(column_selection(r.columns@[l], self.columns@[l], rows@));
        }
        r
    }
}

} // verus!
