use dpa_core::dataset::{order_key, Cell, Column, ColumnKind, Dataset};
use dpa_core::error::EngineError;
use dpa_core::findings::{Finding, Severity};
use dpa_core::validator::{
    is_watched_name, range_bound_texts, rule_kind, validate, validate_custom_rules,
    validate_data_types, validate_ranges, validate_schema, Band, CustomRule, RuleInput, RuleKind,
};

fn key(x: f64) -> Option<i64> {
    order_key(x.to_bits())
}

fn float_column(name: &str, values: &[f64]) -> Column {
    Column::new(
        name.to_string(),
        "Float64".to_string(),
        ColumnKind::Float,
        values.iter().map(|v| Cell::Float(v.to_bits())).collect(),
        Some(values.iter().map(|v| key(*v)).collect()),
    )
}

fn text_column(name: &str, values: &[Option<&str>]) -> Column {
    Column::new(
        name.to_string(),
        "String".to_string(),
        ColumnKind::Text,
        values
            .iter()
            .map(|v| match v {
                Some(s) => Cell::Text(s.to_string()),
                None => Cell::Null,
            })
            .collect(),
        None,
    )
}

/// The band of mean plus or minus three sample standard deviations.
fn band_of(values: &[f64]) -> Option<Band> {
    let n = values.len() as f64;
    let mean = values.iter().sum::<f64>() / n;
    let var = values.iter().map(|v| (v - mean) * (v - mean)).sum::<f64>() / (n - 1.0);
    let sd = var.sqrt();
    Some(Band { low: key(mean - 3.0 * sd)?, high: key(mean + 3.0 * sd)? })
}

fn rule(name: &str, column: &str, rule_type: &str, expression: &str, severity: &str) -> CustomRule {
    CustomRule {
        name: name.to_string(),
        column: column.to_string(),
        rule_type: rule_type.to_string(),
        expression: expression.to_string(),
        message: format!("{name} failed"),
        severity: severity.to_string(),
    }
}

fn only(findings: &[Finding], rule: &str) -> Vec<Finding> {
    findings
        .iter()
        .filter(|f| f.rule == rule)
        .map(|f| Finding {
            column: f.column.clone(),
            rule: f.rule.clone(),
            message: f.message.clone(),
            severity: f.severity,
            invalid_count: f.invalid_count,
            rows: f.rows.clone(),
        })
        .collect()
}

#[test]
fn schema_type_mismatch_is_one_error() {
    let ds = Dataset::new(vec![float_column("age", &[31.0, 45.5])]).unwrap();
    let schema = vec![("age".to_string(), "Int64".to_string())];
    let findings = validate(&ds, &schema, &vec![], &vec![], &vec![]).unwrap();
    let schema_findings = only(&findings, "schema_type");
    assert_eq!(schema_findings.len(), 1);
    let f = &schema_findings[0];
    assert_eq!(f.column, "age");
    assert_eq!(f.severity, Severity::Error);
    assert_eq!(f.message, "Expected type 'Int64', got 'Float64'");
    assert_eq!(f.invalid_count, 0);
}

#[test]
fn schema_reports_missing_and_accepts_matching_columns() {
    let ds = Dataset::new(vec![float_column("score", &[1.0])]).unwrap();
    let schema = vec![
        ("score".to_string(), "Float64".to_string()),
        ("name".to_string(), "String".to_string()),
    ];
    let findings = validate_schema(&ds, &schema);
    assert_eq!(findings.len(), 1);
    assert_eq!(findings[0].column, "name");
    assert_eq!(findings[0].rule, "schema_missing");
    assert_eq!(findings[0].message, "Column not found in dataset");
    assert_eq!(findings[0].severity, Severity::Error);
}

#[test]
fn small_sample_has_no_three_sigma_outlier() {
    let values = [1.0, 2.0, 3.0, 4.0, 1000.0];
    let ds = Dataset::new(vec![float_column("x", &values)]).unwrap();
    let findings = validate_ranges(&ds, &vec![band_of(&values)]);
    assert!(only(&findings, "outliers").is_empty());
}

#[test]
fn far_value_is_an_outlier() {
    let mut values = vec![10.0; 20];
    values.push(1000.0);
    let ds = Dataset::new(vec![float_column("x", &values)]).unwrap();
    let findings = validate_ranges(&ds, &vec![band_of(&values)]);
    assert_eq!(findings.len(), 1);
    assert_eq!(findings[0].rule, "outliers");
    assert_eq!(findings[0].severity, Severity::Warning);
    assert_eq!(findings[0].invalid_count, 1);
    assert_eq!(findings[0].rows, vec![20]);
    assert_eq!(findings[0].message, "1 outliers detected (beyond 3 standard deviations from the mean)");
}

#[test]
fn negative_price_is_an_error() {
    let ds = Dataset::new(vec![float_column("price", &[3.0, -5.0, 7.5])]).unwrap();
    let findings = validate_ranges(&ds, &vec![]);
    assert_eq!(findings.len(), 1);
    assert_eq!(findings[0].rule, "negative_values");
    assert_eq!(findings[0].severity, Severity::Error);
    assert_eq!(findings[0].invalid_count, 1);
    assert_eq!(findings[0].rows, vec![1]);
    assert_eq!(findings[0].message, "1 negative values found in column that should be positive");
}

#[test]
fn watched_names_ignore_case() {
    assert!(is_watched_name("Total_PRICE"));
    assert!(is_watched_name("AmountDue"));
    assert!(is_watched_name("row_count"));
    assert!(!is_watched_name("temperature"));
    let ds = Dataset::new(vec![
        float_column("Unit_AMOUNT", &[-1.0, -2.0]),
        float_column("delta", &[-1.0, -2.0]),
    ])
    .unwrap();
    let findings = validate_ranges(&ds, &vec![]);
    assert_eq!(findings.len(), 1);
    assert_eq!(findings[0].column, "Unit_AMOUNT");
    assert_eq!(findings[0].invalid_count, 2);
}

#[test]
fn mostly_numeric_text_is_flagged() {
    let ds = Dataset::new(vec![text_column(
        "code",
        &[Some("12"), Some("3.5e2"), Some("abc"), None],
    )])
    .unwrap();
    let findings = validate_data_types(&ds);
    assert_eq!(findings.len(), 1);
    assert_eq!(findings[0].rule, "mixed_types");
    assert_eq!(findings[0].severity, Severity::Warning);
    assert_eq!(findings[0].invalid_count, 2);
    assert_eq!(findings[0].rows, vec![0, 1]);
    assert_eq!(
        findings[0].message,
        "66.7% of values appear to be numeric - consider converting to numeric type"
    );
}

#[test]
fn mostly_date_text_is_flagged() {
    let ds = Dataset::new(vec![text_column(
        "when",
        &[Some("2024-01-31"), Some("2023-12-01T08:30:00"), Some("soon")],
    )])
    .unwrap();
    let findings = validate_data_types(&ds);
    assert_eq!(findings.len(), 1);
    assert_eq!(findings[0].rows, vec![0, 1]);
    assert_eq!(
        findings[0].message,
        "66.7% of values appear to be dates - consider converting to datetime type"
    );
}

#[test]
fn half_numeric_text_is_not_flagged() {
    let ds = Dataset::new(vec![text_column("code", &[Some("1"), Some("x")])]).unwrap();
    assert!(validate_data_types(&ds).is_empty());
    let empty = Dataset::new(vec![text_column("code", &[None, None])]).unwrap();
    assert!(validate_data_types(&empty).is_empty());
}

#[test]
fn number_text_follows_the_float_grammar() {
    let yes = ["1", "-2.5", "+.5", "5.", "1e5", "1E-3", "inf", "-Infinity", "NaN", "007"];
    let no = ["", "e5", "1e", "--1", "1.2.3", ".", "1e+", " 1", "0x10", "infinit", "1_000"];
    for t in yes {
        let ds = Dataset::new(vec![text_column("t", &[Some(t)])]).unwrap();
        assert_eq!(validate_data_types(&ds).len(), 1, "{t}");
    }
    for t in no {
        let ds = Dataset::new(vec![text_column("t", &[Some(t)])]).unwrap();
        assert!(validate_data_types(&ds).is_empty(), "{t}");
    }
}

#[test]
fn expression_rule_reports_selected_rows() {
    let ds = Dataset::new(vec![float_column("qty", &[1.0, 2.0, 3.0, 4.0])]).unwrap();
    let rules = vec![rule("big_qty", "qty", "expression", "qty > 2", "error")];
    let inputs = vec![RuleInput::Selection(vec![2, 3])];
    let findings = validate_custom_rules(&ds, &rules, &inputs).unwrap();
    assert_eq!(findings.len(), 1);
    assert_eq!(findings[0].rule, "big_qty");
    assert_eq!(findings[0].message, "big_qty failed");
    assert_eq!(findings[0].severity, Severity::Error);
    assert_eq!(findings[0].invalid_count, 2);
    let none = validate_custom_rules(&ds, &rules, &vec![RuleInput::Selection(vec![])]).unwrap();
    assert!(none.is_empty());
}

#[test]
fn range_rule_counts_values_outside() {
    let ds = Dataset::new(vec![float_column("pct", &[-1.0, 0.0, 50.0, 100.0, 100.5])]).unwrap();
    let rules = vec![rule("pct_range", "pct", "range", " 0 ,100 ", "warning")];
    let inputs = vec![RuleInput::Bounds(Band { low: key(0.0).unwrap(), high: key(100.0).unwrap() })];
    let findings = validate_custom_rules(&ds, &rules, &inputs).unwrap();
    assert_eq!(findings.len(), 1);
    assert_eq!(findings[0].severity, Severity::Warning);
    assert_eq!(findings[0].rows, vec![0, 4]);
    assert_eq!(findings[0].message, "2 values outside range [0, 100]");
}

#[test]
fn unknown_rule_type_is_an_error() {
    let ds = Dataset::new(vec![float_column("a", &[1.0])]).unwrap();
    let rules = vec![rule("r1", "a", "regex", "^x", "warning")];
    let findings = validate_custom_rules(&ds, &rules, &vec![]).unwrap();
    assert_eq!(findings.len(), 1);
    assert_eq!(findings[0].severity, Severity::Error);
    assert_eq!(findings[0].message, "Unknown rule type: regex");
    assert_eq!(findings[0].invalid_count, 0);
}

#[test]
fn rule_on_missing_column_fails() {
    let ds = Dataset::new(vec![float_column("a", &[1.0])]).unwrap();
    let rules = vec![rule("r1", "b", "range", "0,1", "error")];
    let r = validate_custom_rules(&ds, &rules, &vec![RuleInput::Missing]);
    assert!(matches!(r, Err(EngineError::InvalidArgument(_))));
    let e = validate(&ds, &vec![], &vec![], &rules, &vec![]);
    assert!(matches!(e, Err(EngineError::InvalidArgument(_))));
}

#[test]
fn rule_kinds_and_bounds() {
    assert_eq!(rule_kind("expression"), RuleKind::Expression);
    assert_eq!(rule_kind("range"), RuleKind::Range);
    assert_eq!(rule_kind("sql"), RuleKind::Unknown);
    assert_eq!(range_bound_texts(" 1.5 , 9 "), Some(("1.5".to_string(), "9".to_string())));
    assert_eq!(range_bound_texts("1,2,3"), None);
    assert_eq!(range_bound_texts("12"), None);
}

#[test]
fn findings_come_in_family_order() {
    let ds = Dataset::new(vec![
        text_column("price", &[Some("1"), Some("2"), Some("3")]),
        float_column("amount", &[-1.0, 2.0, 3.0]),
    ])
    .unwrap();
    let schema = vec![("missing".to_string(), "Int64".to_string())];
    let rules = vec![rule("r", "amount", "other", "", "error")];
    let findings = validate(&ds, &schema, &vec![None, None], &rules, &vec![]).unwrap();
    let order: Vec<&str> = findings.iter().map(|f| f.rule.as_str()).collect();
    assert_eq!(order, vec!["schema_missing", "mixed_types", "negative_values", "r"]);
}
