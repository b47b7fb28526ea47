use dpa_core::dataset::{Cell, Column, ColumnKind, Dataset};
use dpa_core::findings::{Finding, Severity};
use dpa_core::report::{build_report, get_invalid_rows, invalid_row_indices};

fn finding(column: &str, message: &str, severity: Severity, rows: Vec<usize>) -> Finding {
    Finding {
        column: column.to_string(),
        rule: "r".to_string(),
        message: message.to_string(),
        severity,
        invalid_count: rows.len(),
        rows,
    }
}

#[test]
fn empty_report_passes() {
    let r = build_report(&vec![]);
    assert_eq!(r.summary, "All validations passed!\n");
    assert!(!r.has_errors);
}

#[test]
fn report_lists_errors_then_warnings() {
    let fs = vec![
        finding("a", "looks odd", Severity::Warning, vec![1, 2]),
        finding("b", "is negative", Severity::Error, vec![12]),
    ];
    let r = build_report(&fs);
    assert!(r.has_errors);
    assert_eq!(
        r.summary,
        "Data Validation Report\n\
         Errors (1):\n   - b: is negative (1 invalid values)\n\n\
         Warnings (1):\n   - a: looks odd (2 affected values)\n\n\
         Summary: 1 errors, 1 warnings\n"
    );
}

#[test]
fn warnings_alone_do_not_fail() {
    let fs = vec![finding("a", "w", Severity::Warning, vec![])];
    let r = build_report(&fs);
    assert!(!r.has_errors);
    assert!(r.summary.ends_with("Summary: 0 errors, 1 warnings\n"));
}

#[test]
fn invalid_rows_are_the_flagged_ones() {
    let fs = vec![
        finding("a", "x", Severity::Warning, vec![4, 1]),
        finding("b", "y", Severity::Error, vec![1, 2, 9]),
    ];
    assert_eq!(invalid_row_indices(5, &fs), vec![1, 2, 4]);
    let ds = Dataset::new(vec![Column::new(
        "id".to_string(),
        "Int64".to_string(),
        ColumnKind::Integer,
        (0..5).map(Cell::Int).collect(),
        None,
    )])
    .unwrap();
    let out = get_invalid_rows(&ds, &fs);
    assert_eq!(out.columns[0].cells, vec![Cell::Int(1), Cell::Int(2), Cell::Int(4)]);
    assert_eq!(invalid_row_indices(5, &vec![]), Vec::<usize>::new());
}

#[test]
fn counts_render_in_decimal() {
    let rows: Vec<usize> = (0..1234).collect();
    let fs = vec![finding("c", "m", Severity::Error, rows)];
    let r = build_report(&fs);
    assert!(r.summary.contains("(1234 invalid values)"));
}
