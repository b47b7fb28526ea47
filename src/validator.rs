//! The rule validator: schema conformance, type-mix detection, range and
//! outlier checks, and custom rules, in that order.
//!
//! Two inputs come from numeric work done outside the engine, on floating
//! point: for each column, the band `[mean - 3 sd, mean + 3 sd]` as order keys
//! (where the column has a mean and a sample standard deviation), and for each
//! custom rule, the rows its expression selects or its bounds as order keys.
use vstd::prelude::*;
use crate::dataset::{Column, ColumnKind, Dataset, column_named};
use crate::error::EngineError;
use crate::findings::{
    Finding, FindingView, Severity, views, flagged, new_finding, extend_findings, CellTest,
    rows_passing, cell_rows, KeyTest, keys_passing, key_rows,
};
use crate::text::{
    decimal_text, decimal, percent_text, percent, contains_text, text_contains, chars_of,
    lower_of, lowercase, trimmed, trim,
};

verus! {

/// The order keys of the ends of a closed interval of numbers.
#[derive(Debug, Clone, Copy, PartialEq, Eq, Structural)]
pub struct Band {
    pub low: i64,
    pub high: i64,
}

/// One finding, as a list.
fn single(f: Finding) -> (r: Vec<Finding>)
    ensures
        views(r@) == seq![f@],
{
    let mut r: Vec<Finding> = Vec::new();
    r.push(f);
    assert(views(r@) =~= seq![f@]);
    r
}

fn no_findings() -> (r: Vec<Finding>)
    ensures
        views(r@) == Seq::<FindingView>::empty(),
{
    let r: Vec<Finding> = Vec::new();
    assert(views(r@) =~= Seq::<FindingView>::empty());
    r
}

// ---------------------------------------------------------------- schema

/// What the schema entry `column: expected` finds: a missing column, or a
/// column whose declared type is not the expected one.
pub open spec fn schema_entry_findings(ds: Dataset, column: Seq<char>, expected: Seq<char>) -> Seq<
    FindingView,
> {
    if !ds.has_column(column) {
        seq![
            flagged(
                column,
                "schema_missing"@,
                "Column not found in dataset"@,
                Severity::Error,
                Seq::empty(),
            ),
        ]
    } else if column_named(ds, column).dtype@ == expected {
        Seq::empty()
    } else {
        seq![
            flagged(
                column,
                "schema_type"@,
                "Expected type '"@ + expected + "', got '"@ + column_named(ds, column).dtype@
                    + "'"@,
                Severity::Error,
                Seq::empty(),
            ),
        ]
    }
}

/// The findings of the first `k` schema entries.
pub open spec fn schema_findings(ds: Dataset, schema: Seq<(String, String)>, k: nat) -> Seq<
    FindingView,
>
    decreases k,
{
    if k == 0 || k > schema.len() {
        Seq::empty()
    } else {
        schema_findings(ds, schema, (k - 1) as nat) + schema_entry_findings(
            ds,
            schema[k - 1].0@,
            schema[k - 1].1@,
        )
    }
}

fn schema_entry(ds: &Dataset, column: &String, expected: &String) -> (r: Vec<Finding>)
    requires
        ds.wf(),
    ensures
        views(r@) == schema_entry_findings(*ds, column@, expected@),
{
    match ds.find(column.as_str()) {
        None => single(
            new_finding(
                column.clone(),
                "schema_missing".to_owned(),
                "Column not found in dataset".to_owned(),
                Severity::Error,
                Vec::new(),
            ),
        ),
        Some(c) => {
            let actual = &ds.columns[c].dtype;
            if *actual == *expected {
                no_findings()
            } else {
                let mut m = "Expected type '".to_owned();
                m.append(expected.as_str());
                m.append("', got '");
                m.append(actual.as_str());
                m.append("'");
                single(
                    new_finding(
                        column.clone(),
                        "schema_type".to_owned(),
                        m,
                        Severity::Error,
                        Vec::new(),
                    ),
                )
            }
        },
    }
}

/// Checks each `(column, expected type)` pair of `schema` against the dataset.
pub fn validate_schema(ds: &Dataset, schema: &Vec<(String, String)>) -> (r: Vec<Finding>)
    requires
        ds.wf(),
    ensures
        views(r@) == schema_findings(*ds, schema@, schema@.len()),
{
    let mut out = no_findings();
    let mut k: usize = 0;
    while k < schema.len()
        invariant
            ds.wf(),
            k <= schema@.len(),
            views(out@) == schema_findings(*ds, schema@, k as nat),
        decreases schema@.len() - k,
    {
        let more = schema_entry(ds, &schema[k].0, &schema[k].1);
        extend_findings(&mut out, more);
        k = k + 1;
    }
    out
}

// ---------------------------------------------------------------- type mix

/// A text column whose non-null values mostly read as numbers, or mostly as
/// dates, gets a warning for each.
pub open spec fn type_mix_findings(col: Column) -> Seq<FindingView> {
    let n = col.cells@.len();
    let total = rows_passing(col.cells@, CellTest::NonNull, n).len();
    let numeric = rows_passing(col.cells@, CellTest::Numeric, n);
    let dates = rows_passing(col.cells@, CellTest::DateLike, n);
    if col.kind != ColumnKind::Text || total == 0 {
        Seq::empty()
    } else {
        (if 2 * numeric.len() > total {
            seq![
                flagged(
                    col.name@,
                    "mixed_types"@,
                    percent_text(numeric.len(), total)
                        + " of values appear to be numeric - consider converting to numeric type"@,
                    Severity::Warning,
                    numeric,
                ),
            ]
        } else {
            Seq::empty()
        }) + (if 2 * dates.len() > total {
            seq![
                flagged(
                    col.name@,
                    "mixed_types"@,
                    percent_text(dates.len(), total)
                        + " of values appear to be dates - consider converting to datetime type"@,
                    Severity::Warning,
                    dates,
                ),
            ]
        } else {
            Seq::empty()
        })
    }
}

/// The type-mix findings of the first `k` columns.
pub open spec fn type_mix_upto(ds: Dataset, k: nat) -> Seq<FindingView>
    decreases k,
{
    if k == 0 || k > ds.columns@.len() {
        Seq::empty()
    } else {
        type_mix_upto(ds, (k - 1) as nat) + type_mix_findings(ds.columns@[k - 1])
    }
}

/// A cell that passes a text test holds a value.
proof fn lemma_text_rows_within_non_null(cells: Seq<crate::dataset::Cell>, t: CellTest, k: nat)
    requires
        t != CellTest::NonNull,
        k <= cells.len(),
    ensures
        rows_passing(cells, t, k).len() <= rows_passing(cells, CellTest::NonNull, k).len(),
    decreases k,
{
    if k > 0 {
        lemma_text_rows_within_non_null(cells, t, (k - 1) as nat);
    }
}

fn type_mix_column(col: &Column) -> (r: Vec<Finding>)
    ensures
        views(r@) == type_mix_findings(*col),
{
    match col.kind {
        ColumnKind::Text => {},
        _ => {
            return no_findings();
        },
    }
    let total = cell_rows(&col.cells, CellTest::NonNull).len();
    if total == 0 {
        return no_findings();
    }
    let numeric = cell_rows(&col.cells, CellTest::Numeric);
    let dates = cell_rows(&col.cells, CellTest::DateLike);
    proof {
        lemma_text_rows_within_non_null(col.cells@, CellTest::Numeric, col.cells@.len());
        lemma_text_rows_within_non_null(col.cells@, CellTest::DateLike, col.cells@.len());
    }
    let mut out = no_findings();
    if numeric.len() > total - numeric.len() {
        let mut m = percent(numeric.len(), total);
        m.append(" of values appear to be numeric - consider converting to numeric type");
        let f = new_finding(col.name.clone(), "mixed_types".to_owned(), m, Severity::Warning, numeric);
        extend_findings(&mut out, single(f));
    }
    if dates.len() > total - dates.len() {
        let mut m = percent(dates.len(), total);
        m.append(" of values appear to be dates - consider converting to datetime type");
        let f = new_finding(col.name.clone(), "mixed_types".to_owned(), m, Severity::Warning, dates);
        extend_findings(&mut out, single(f));
    }
    assert(views(out@) =~= type_mix_findings(*col));
    out
}

/// Warns of text columns whose values mostly read as numbers or as dates.
pub fn validate_data_types(ds: &Dataset) -> (r: Vec<Finding>)
    ensures
        views(r@) == type_mix_upto(*ds, ds.columns@.len()),
{
    let mut out = no_findings();
    let mut k: usize = 0;
    while k < ds.columns.len()
        invariant
            k <= ds.columns@.len(),
            views(out@) == type_mix_upto(*ds, k as nat),
        decreases ds.columns@.len() - k,
    {
        let more = type_mix_column(&ds.columns[k]);
        extend_findings(&mut out, more);
        k = k + 1;
    }
    out
}

// ---------------------------------------------------------------- ranges

/// A column name that speaks of amounts, prices or counts (in any case).
pub open spec fn watched_name(name: Seq<char>) -> bool {
    ||| contains_text(lower_of(name), "amount"@)
    ||| contains_text(lower_of(name), "price"@)
    ||| contains_text(lower_of(name), "count"@)
}

/// The band for column `c`, where one is given.
pub open spec fn band_at(bands: Seq<Option<Band>>, c: int) -> Option<Band> {
    if 0 <= c < bands.len() {
        bands[c]
    } else {
        None
    }
}

/// A numeric column with at least one value gets a warning for values outside
/// its band, and, where its name is watched, an error for negative values.
pub open spec fn range_findings(col: Column, band: Option<Band>) -> Seq<FindingView> {
    match col.numeric {
        None => Seq::empty(),
        Some(v) => {
            let keys = v@;
            let n = keys.len();
            if keys_passing(keys, KeyTest::Present, n).len() == 0 {
                Seq::empty()
            } else {
                (match band {
                    Some(b) => {
                        let out = keys_passing(keys, KeyTest::Outside(b.low, b.high), n);
                        if out.len() > 0 {
                            seq![
                                flagged(
                                    col.name@,
                                    "outliers"@,
                                    decimal_text(out.len())
                                        + " outliers detected (beyond 3 standard deviations from the mean)"@,
                                    Severity::Warning,
                                    out,
                                ),
                            ]
                        } else {
                            Seq::empty()
                        }
                    },
                    None => Seq::empty(),
                }) + (if watched_name(col.name@) {
                    let neg = keys_passing(keys, KeyTest::Negative, n);
                    if neg.len() > 0 {
                        seq![
                            flagged(
                                col.name@,
                                "negative_values"@,
                                decimal_text(neg.len())
                                    + " negative values found in column that should be positive"@,
                                Severity::Error,
                                neg,
                            ),
                        ]
                    } else {
                        Seq::empty()
                    }
                } else {
                    Seq::empty()
                })
            }
        },
    }
}

/// The range findings of the first `k` columns.
pub open spec fn ranges_upto(ds: Dataset, bands: Seq<Option<Band>>, k: nat) -> Seq<FindingView>
    decreases k,
{
    if k == 0 || k > ds.columns@.len() {
        Seq::empty()
    } else {
        ranges_upto(ds, bands, (k - 1) as nat) + range_findings(
            ds.columns@[k - 1],
            band_at(bands, k - 1),
        )
    }
}

/// Whether the column name speaks of amounts, prices or counts.
pub fn is_watched_name(name: &str) -> (r: bool)
    ensures
        r == watched_name(name@),
{
    let lower = lowercase(name);
    let l = chars_of(lower.as_str());
    text_contains(&l, &chars_of("amount")) || text_contains(&l, &chars_of("price"))
        || text_contains(&l, &chars_of("count"))
}

fn range_column(col: &Column, band: Option<Band>) -> (r: Vec<Finding>)
    ensures
        views(r@) == range_findings(*col, band),
{
    let keys = match &col.numeric {
        None => {
            return no_findings();
        },
        Some(v) => v,
    };
    if key_rows(keys, KeyTest::Present).len() == 0 {
        return no_findings();
    }
    let mut out = no_findings();
    match band {
        Some(b) => {
            let outside = key_rows(keys, KeyTest::Outside(b.low, b.high));
            if outside.len() > 0 {
                let mut m = decimal(outside.len() as u64);
                m.append(" outliers detected (beyond 3 standard deviations from the mean)");
                let f = new_finding(col.name.clone(), "outliers".to_owned(), m, Severity::Warning, outside);
                extend_findings(&mut out, single(f));
            }
        },
        None => {},
    }
    if is_watched_name(col.name.as_str()) {
        let neg = key_rows(keys, KeyTest::Negative);
        if neg.len() > 0 {
            let mut m = decimal(neg.len() as u64);
            m.append(" negative values found in column that should be positive");
            let f = new_finding(col.name.clone(), "negative_values".to_owned(), m, Severity::Error, neg);
            extend_findings(&mut out, single(f));
        }
    }
    assert(views(out@) =~= range_findings(*col, band));
    out
}

/// Flags values outside each numeric column's band, and negative values in
/// columns whose names speak of amounts, prices or counts.
pub fn validate_ranges(ds: &Dataset, bands: &Vec<Option<Band>>) -> (r: Vec<Finding>)
    ensures
        views(r@) == ranges_upto(*ds, bands@, ds.columns@.len()),
{
    let mut out = no_findings();
    let mut k: usize = 0;
    while k < ds.columns.len()
        invariant
            k <= ds.columns@.len(),
            views(out@) == ranges_upto(*ds, bands@, k as nat),
        decreases ds.columns@.len() - k,
    {
        let band = if k < bands.len() {
            bands[k]
        } else {
            None
        };
        let more = range_column(&ds.columns[k], band);
        extend_findings(&mut out, more);
        k = k + 1;
    }
    out
}

// ---------------------------------------------------------------- custom rules

/// A rule supplied from outside, as read from a rule file.
#[derive(Debug, PartialEq, Eq)]
pub struct CustomRule {
    pub name: String,
    pub column: String,
    /// `expression` or `range`; anything else is reported as unknown.
    pub rule_type: String,
    /// A predicate selecting invalid rows, or `min,max` for a range rule.
    pub expression: String,
    pub message: String,
    /// `error`, or anything else for a warning.
    pub severity: String,
}

/// The kinds of custom rule.
#[derive(Debug, Clone, Copy, PartialEq, Eq, Structural)]
pub enum RuleKind {
    Expression,
    Range,
    Unknown,
}

pub open spec fn kind_of(rule_type: Seq<char>) -> RuleKind {
    if rule_type == "expression"@ {
        RuleKind::Expression
    } else if rule_type == "range"@ {
        RuleKind::Range
    } else {
        RuleKind::Unknown
    }
}

pub open spec fn severity_named(s: Seq<char>) -> Severity {
    if s == "error"@ {
        Severity::Error
    } else {
        Severity::Warning
    }
}

/// What was evaluated outside the engine for a custom rule.
#[derive(Debug, PartialEq, Eq)]
pub enum RuleInput {
    /// The rows that an expression rule's predicate selected.
    Selection(Vec<usize>),
    /// A range rule's bounds, as order keys.
    Bounds(Band),
    /// Nothing could be evaluated (bounds that do not read as numbers).
    Missing,
}

/// `p` is the position of the only comma in `e`.
pub open spec fn only_comma_at(e: Seq<char>, p: int) -> bool {
    &&& 0 <= p < e.len()
    &&& e[p] == ','
    &&& forall|q: int| 0 <= q < e.len() && q != p ==> #[trigger] e[q] != ','
}

/// The two bounds of a range expression `min,max`, trimmed; `None` unless the
/// expression holds exactly one comma.
pub open spec fn bound_texts(e: Seq<char>) -> Option<(Seq<char>, Seq<char>)> {
    if exists|p: int| only_comma_at(e, p) {
        let p = choose|p: int| only_comma_at(e, p);
        Some((trimmed(e.subrange(0, p)), trimmed(e.subrange(p + 1, e.len() as int))))
    } else {
        None
    }
}

/// The findings of one custom rule, or `None` where the rule refers to a
/// column that the dataset does not have.
pub open spec fn rule_findings(ds: Dataset, rule: CustomRule, input: RuleInput) -> Option<
    Seq<FindingView>,
> {
    match kind_of(rule.rule_type@) {
        RuleKind::Unknown => Some(
            seq![
                flagged(
                    rule.column@,
                    rule.name@,
                    "Unknown rule type: "@ + rule.rule_type@,
                    Severity::Error,
                    Seq::empty(),
                ),
            ],
        ),
        RuleKind::Expression => if !ds.has_column(rule.column@) {
            None
        } else {
            match input {
                RuleInput::Selection(rows) => if rows@.len() > 0 {
                    Some(
                        seq![
                            flagged(
                                rule.column@,
                                rule.name@,
                                rule.message@,
                                severity_named(rule.severity@),
                                rows@,
                            ),
                        ],
                    )
                } else {
                    Some(Seq::empty())
                },
                _ => Some(Seq::empty()),
            }
        },
        RuleKind::Range => if !ds.has_column(rule.column@) {
            None
        } else {
            match (column_named(ds, rule.column@).numeric, input, bound_texts(rule.expression@)) {
                (Some(v), RuleInput::Bounds(b), Some(texts)) => {
                    let out = keys_passing(v@, KeyTest::Outside(b.low, b.high), v@.len());
                    if out.len() > 0 {
                        Some(
                            seq![
                                flagged(
                                    rule.column@,
                                    rule.name@,
                                    decimal_text(out.len()) + " values outside range ["@
                                        + texts.0 + ", "@ + texts.1 + "]"@,
                                    severity_named(rule.severity@),
                                    out,
                                ),
                            ],
                        )
                    } else {
                        Some(Seq::empty())
                    }
                },
                _ => Some(Seq::empty()),
            }
        },
    }
}

/// The input for rule `i`, where one is given.
pub open spec fn input_at(inputs: Seq<RuleInput>, i: int) -> RuleInput {
    if 0 <= i < inputs.len() {
        inputs[i]
    } else {
        RuleInput::Missing
    }
}

/// The findings of the first `k` rules, or `None` if one of them refers to a
/// missing column.
pub open spec fn custom_upto(
    ds: Dataset,
    rules: Seq<CustomRule>,
    inputs: Seq<RuleInput>,
    k: nat,
) -> Option<Seq<FindingView>>
    decreases k,
{
    if k == 0 || k > rules.len() {
        Some(Seq::empty())
    } else {
        match custom_upto(ds, rules, inputs, (k - 1) as nat) {
            None => None,
            Some(prev) => match rule_findings(ds, rules[k - 1], input_at(inputs, k - 1)) {
                None => None,
                Some(more) => Some(prev + more),
            },
        }
    }
}

/// The kind of rule that `rule_type` names.
pub fn rule_kind(rule_type: &str) -> (r: RuleKind)
    ensures
        r == kind_of(rule_type@),
{
    let t = rule_type.to_owned();
    if t == "expression".to_owned() {
        RuleKind::Expression
    } else if t == "range".to_owned() {
        RuleKind::Range
    } else {
        RuleKind::Unknown
    }
}

fn severity_of(s: &String) -> (r: Severity)
    ensures
        r == severity_named(s@),
{
    if *s == "error".to_owned() {
        Severity::Error
    } else {
        Severity::Warning
    }
}

/// The two trimmed bounds of a range expression `min,max`, or `None` unless
/// it holds exactly one comma.
pub fn range_bound_texts(expression: &str) -> (r: Option<(String, String)>)
    ensures
        match r {
            Some(texts) => bound_texts(expression@) == Some((texts.0@, texts.1@)),
            None => bound_texts(expression@) is None,
        },
{
    let e = chars_of(expression);
    let n = e.len();
    let mut commas: usize = 0;
    let mut at: usize = 0;
    let mut i: usize = 0;
    while i < n
        invariant
            n == e@.len() == expression@.len(),
            e@ == expression@,
            i <= n,
            commas <= i,
            commas == 0 ==> forall|q: int| 0 <= q < i ==> #[trigger] e@[q] != ',',
            commas >= 1 ==> at < i && e@[at as int] == ',',
            commas == 1 ==> forall|q: int| 0 <= q < i && q != at ==> #[trigger] e@[q] != ',',
            commas >= 2 ==> exists|q: int| 0 <= q < i && q != at && #[trigger] e@[q] == ',',
        decreases n - i,
    {
        if e[i] == ',' {
            if commas == 0 {
                at = i;
            }
            commas = commas + 1;
        }
        i = i + 1;
    }
    if commas != 1 {
        proof {
            assert forall|p: int| !only_comma_at(expression@, p) by {
                if only_comma_at(expression@, p) {
                    if commas >= 2 {
                        let q = choose|q: int| 0 <= q < n && q != at && #[trigger] e@[q] == ',';
                    }
                }
            }
        }
        return None;
    }
    assert(only_comma_at(expression@, at as int));
    proof {
        let p = choose|p: int| only_comma_at(expression@, p);
        assert(p == at);
    }
    let low = expression.substring_char(0, at);
    let high = expression.substring_char(at + 1, n);
    Some((trim(low), trim(high)))
}

fn custom_rule(ds: &Dataset, rule: &CustomRule, input: &RuleInput) -> (r: Result<
    Vec<Finding>,
    EngineError,
>)
    requires
        ds.wf(),
    ensures
        match r {
            Ok(fs) => rule_findings(*ds, *rule, *input) == Some(views(fs@)),
            Err(e) => e is InvalidArgument && rule_findings(*ds, *rule, *input) is None,
        },
{
    match rule_kind(rule.rule_type.as_str()) {
        RuleKind::Unknown => {
            let mut m = "Unknown rule type: ".to_owned();
            m.append(rule.rule_type.as_str());
            Ok(
                single(
                    new_finding(
                        rule.column.clone(),
                        rule.name.clone(),
                        m,
                        Severity::Error,
                        Vec::new(),
                    ),
                ),
            )
        },
        RuleKind::Expression => {
            if ds.find(rule.column.as_str()).is_none() {
                return Err(
                    EngineError::InvalidArgument("rule refers to a missing column".to_owned()),
                );
            }
            match input {
                RuleInput::Selection(rows) => {
                    if rows.len() > 0 {
                        Ok(
                            single(
                                new_finding(
                                    rule.column.clone(),
                                    rule.name.clone(),
                                    rule.message.clone(),
                                    severity_of(&rule.severity),
                                    rows.clone(),
                                ),
                            ),
                        )
                    } else {
                        Ok(no_findings())
                    }
                },
                _ => Ok(no_findings()),
            }
        },
        RuleKind::Range => {
            let c = match ds.find(rule.column.as_str()) {
                Some(c) => c,
                None => {
                    return Err(
                        EngineError::InvalidArgument("rule refers to a missing column".to_owned()),
                    );
                },
            };
            let keys = match &ds.columns[c].numeric {
                Some(v) => v,
                None => {
                    return Ok(no_findings());
                },
            };
            let b = match input {
                RuleInput::Bounds(b) => *b,
                _ => {
                    return Ok(no_findings());
                },
            };
            let (low, high) = match range_bound_texts(rule.expression.as_str()) {
                Some(texts) => texts,
                None => {
                    return Ok(no_findings());
                },
            };
            let outside = key_rows(keys, KeyTest::Outside(b.low, b.high));
            if outside.len() == 0 {
                return Ok(no_findings());
            }
            let mut m = decimal(outside.len() as u64);
            m.append(" values outside range [");
            m.append(low.as_str());
            m.append(", ");
            m.append(high.as_str());
            m.append("]");
            Ok(
                single(
                    new_finding(
                        rule.column.clone(),
                        rule.name.clone(),
                        m,
                        severity_of(&rule.severity),
                        outside,
                    ),
                ),
            )
        },
    }
}

/// Applies each custom rule with its evaluated input (`inputs[i]` for
/// `rules[i]`; a missing input counts as `Missing`). Fails when a rule refers
/// to a column that the dataset does not have.
pub fn validate_custom_rules(
    ds: &Dataset,
    rules: &Vec<CustomRule>,
    inputs: &Vec<RuleInput>,
) -> (r: Result<Vec<Finding>, EngineError>)
    requires
        ds.wf(),
    ensures
        match r {
            Ok(fs) => custom_upto(*ds, rules@, inputs@, rules@.len()) == Some(views(fs@)),
            Err(e) => e is InvalidArgument && custom_upto(*ds, rules@, inputs@, rules@.len()) is None,
        },
{
    let mut out = no_findings();
    let missing = RuleInput::Missing;
    let mut k: usize = 0;
    while k < rules.len()
        invariant
            ds.wf(),
            k <= rules@.len(),
            missing == RuleInput::Missing,
            custom_upto(*ds, rules@, inputs@, k as nat) == Some(views(out@)),
        decreases rules@.len() - k,
    {
        let input = if k < inputs.len() {
            &inputs[k]
        } else {
            &missing
        };
        match custom_rule(ds, &rules[k], input) {
            Ok(more) => extend_findings(&mut out, more),
            Err(e) => {
                proof {
                    lemma_custom_error_sticks(*ds, rules@, inputs@, (k + 1) as nat, rules@.len());
                }
                return Err(e);
            },
        }
        k = k + 1;
    }
    Ok(out)
}

/// Once a rule fails, the rules after it do not undo the failure.
proof fn lemma_custom_error_sticks(
    ds: Dataset,
    rules: Seq<CustomRule>,
    inputs: Seq<RuleInput>,
    k: nat,
    m: nat,
)
    requires
        0 < k <= m <= rules.len(),
        custom_upto(ds, rules, inputs, k) is None,
    ensures
        custom_upto(ds, rules, inputs, m) is None,
    decreases m - k,
{
    if k < m {
        lemma_custom_error_sticks(ds, rules, inputs, k, (m - 1) as nat);
    }
}

// ---------------------------------------------------------------- all passes

/// All findings of a validation in the order schema, type mix, ranges,
/// custom rules; `None` where a custom rule refers to a missing column.
pub open spec fn validation_outcome(
    ds: Dataset,
    schema: Seq<(String, String)>,
    bands: Seq<Option<Band>>,
    rules: Seq<CustomRule>,
    inputs: Seq<RuleInput>,
) -> Option<Seq<FindingView>> {
    match custom_upto(ds, rules, inputs, rules.len()) {
        None => None,
        Some(custom) => Some(
            schema_findings(ds, schema, schema.len()) + type_mix_upto(ds, ds.columns@.len())
                + ranges_upto(ds, bands, ds.columns@.len()) + custom,
        ),
    }
}

/// Runs the four rule families over the dataset. An empty schema or rule list
/// skips that family.
pub fn validate(
    ds: &Dataset,
    schema: &Vec<(String, String)>,
    bands: &Vec<Option<Band>>,
    rules: &Vec<CustomRule>,
    inputs: &Vec<RuleInput>,
) -> (r: Result<Vec<Finding>, EngineError>)
    requires
        ds.wf(),
    ensures
        match r {
            Ok(fs) => validation_outcome(*ds, schema@, bands@, rules@, inputs@) == Some(
                views(fs@),
            ),
            Err(e) => e is InvalidArgument && validation_outcome(
                *ds,
                schema@,
                bands@,
                rules@,
                inputs@,
            ) is None,
        },
{
    let mut out = validate_schema(ds, schema);
    extend_findings(&mut out, validate_data_types(ds));
    extend_findings(&mut out, validate_ranges(ds, bands));
    match validate_custom_rules(ds, rules, inputs) {
        Ok(more) => {
            extend_findings(&mut out, more);
            Ok(out)
        },
        Err(e) => Err(e),
    }
}

} // verus!
