use dpa_core::dataset::{Cell, Column, ColumnKind, Dataset};
use dpa_core::error::EngineError;
use dpa_core::format::{input_format, output_format, FileFormat};
use dpa_core::groups::{distinct_values, rows_matching};

#[test]
fn extensions_choose_readers() {
    assert_eq!(input_format("parquet"), Ok(FileFormat::Parquet));
    assert_eq!(input_format("PQ"), Ok(FileFormat::Parquet));
    assert_eq!(input_format("Csv"), Ok(FileFormat::Csv));
    assert_eq!(input_format("json"), Ok(FileFormat::JsonLines));
    assert_eq!(input_format("jsonl"), Ok(FileFormat::JsonLines));
    assert!(matches!(input_format("xlsx"), Err(EngineError::UnsupportedFormat(_))));
    assert!(matches!(input_format(""), Err(EngineError::UnsupportedFormat(_))));
}

#[test]
fn extensions_choose_writers() {
    assert_eq!(output_format("PARQUET"), Ok(FileFormat::Parquet));
    assert_eq!(output_format("csv"), Ok(FileFormat::Csv));
    assert!(matches!(output_format("jsonl"), Err(EngineError::UnsupportedFormat(_))));
}

#[test]
fn distinct_values_keep_first_occurrence_order() {
    let cells = vec![
        Cell::Text("b".to_string()),
        Cell::Null,
        Cell::Text("a".to_string()),
        Cell::Text("b".to_string()),
        Cell::Null,
        Cell::Int(3),
    ];
    assert_eq!(
        distinct_values(&cells),
        vec![Cell::Text("b".to_string()), Cell::Null, Cell::Text("a".to_string()), Cell::Int(3)]
    );
    assert_eq!(rows_matching(&cells, &Cell::Text("b".to_string())), vec![0, 3]);
    assert_eq!(rows_matching(&cells, &Cell::Null), vec![1, 4]);
    assert_eq!(rows_matching(&cells, &Cell::Bool(true)), Vec::<usize>::new());
}

#[test]
fn take_rows_copies_every_column() {
    let ds = Dataset::new(vec![
        Column::new(
            "n".to_string(),
            "Int64".to_string(),
            ColumnKind::Integer,
            vec![Cell::Int(10), Cell::Int(20), Cell::Int(30)],
            Some(vec![Some(1), Some(2), None]),
        ),
        Column::new(
            "s".to_string(),
            "String".to_string(),
            ColumnKind::Text,
            vec![Cell::Text("x".to_string()), Cell::Null, Cell::Text("z".to_string())],
            None,
        ),
    ])
    .unwrap();
    assert_eq!(ds.column_position("s"), Some(1));
    assert_eq!(ds.column_position("t"), None);
    let out = ds.take_rows(&vec![2, 0, 2]);
    assert_eq!(out.row_count, 3);
    assert_eq!(out.columns[0].cells, vec![Cell::Int(30), Cell::Int(10), Cell::Int(30)]);
    assert_eq!(out.columns[0].numeric, Some(vec![None, Some(1), None]));
    assert_eq!(out.columns[1].name, "s");
    assert_eq!(
        out.columns[1].cells,
        vec![Cell::Text("z".to_string()), Cell::Text("x".to_string()), Cell::Text("z".to_string())]
    );
}
