use dpa_core::dataset::{order_key, Cell, Column, ColumnKind, Dataset};
use dpa_core::error::EngineError;
use dpa_core::splitter::{
    split, split_indices, split_random, split_stratified, test_rows, Fraction, SplitSpec,
};

fn int_column(name: &str, values: &[i64]) -> Column {
    Column::new(
        name.to_string(),
        "Int64".to_string(),
        ColumnKind::Integer,
        values.iter().map(|v| Cell::Int(*v)).collect(),
        Some(values.iter().map(|v| order_key((*v as f64).to_bits())).collect()),
    )
}

fn text_column(name: &str, values: &[&str]) -> Column {
    Column::new(
        name.to_string(),
        "String".to_string(),
        ColumnKind::Text,
        values.iter().map(|v| Cell::Text(v.to_string())).collect(),
        None,
    )
}

fn numbered(n: i64) -> Dataset {
    let values: Vec<i64> = (0..n).collect();
    Dataset::new(vec![int_column("id", &values)]).unwrap()
}

fn fraction(numerator: u32, denominator: u32) -> Fraction {
    Fraction { numerator, denominator }
}

fn assert_partition(train: &[usize], test: &[usize], n: usize) {
    let mut all: Vec<usize> = train.iter().chain(test.iter()).copied().collect();
    all.sort();
    assert_eq!(all, (0..n).collect::<Vec<usize>>());
}

#[test]
fn seeded_split_is_a_partition() {
    let ds = numbered(10);
    let spec = SplitSpec { test_fraction: fraction(3, 10), stratify_column: None, seed: Some(7) };
    let (train, test) = split_indices(&ds, &spec).unwrap();
    assert_eq!(train.len(), 7);
    assert_eq!(test.len(), 3);
    assert_partition(&train, &test, 10);
    let (a, b) = split(&ds, &spec).unwrap();
    assert_eq!(a.row_count + b.row_count, 10);
}

#[test]
fn seeded_split_is_shuffled_and_reproducible() {
    let ds = numbered(100);
    let spec = SplitSpec { test_fraction: fraction(1, 5), stratify_column: None, seed: Some(3) };
    let (train, test) = split_indices(&ds, &spec).unwrap();
    assert_ne!(train, (0..80).collect::<Vec<usize>>());
    assert_eq!(split_indices(&ds, &spec).unwrap(), (train, test));
}

#[test]
fn unseeded_split_takes_head_and_rest() {
    let ds = numbered(10);
    let (train, test) = split_random(&ds, fraction(2, 10), None).unwrap();
    let train_ids: Vec<&Cell> = train.columns[0].cells.iter().collect();
    assert_eq!(train.row_count, 8);
    assert_eq!(test.row_count, 2);
    assert_eq!(*train_ids[0], Cell::Int(0));
    assert_eq!(test.columns[0].cells, vec![Cell::Int(8), Cell::Int(9)]);
}

#[test]
fn test_size_rounds_half_up() {
    assert_eq!(test_rows(5, fraction(1, 2)), 3);
    assert_eq!(test_rows(10, fraction(1, 4)), 3);
    assert_eq!(test_rows(10, fraction(2, 10)), 2);
    assert_eq!(test_rows(0, fraction(1, 3)), 0);
    assert_eq!(test_rows(1, fraction(1, 3)), 0);
}

#[test]
fn split_rejects_improper_fractions() {
    let ds = numbered(4);
    for f in [fraction(0, 10), fraction(10, 10), fraction(11, 10), fraction(1, 0)] {
        let r = split_random(&ds, f, Some(1));
        assert!(matches!(r, Err(EngineError::InvalidArgument(_))));
    }
}

#[test]
fn stratified_split_is_a_partition() {
    let values: Vec<i64> = (0..10).collect();
    let ds = Dataset::new(vec![
        int_column("id", &values),
        text_column("label", &["x", "y", "x", "x", "y", "x", "y", "x", "x", "y"]),
    ])
    .unwrap();
    let spec = SplitSpec {
        test_fraction: fraction(1, 2),
        stratify_column: Some("label".to_string()),
        seed: Some(21),
    };
    let (train, test) = split_indices(&ds, &spec).unwrap();
    assert_partition(&train, &test, 10);
    // six x rows split 3/3, four y rows split 2/2
    assert_eq!(train.len(), 5);
    assert_eq!(test.len(), 5);
    let (a, b) = split_stratified(&ds, fraction(1, 2), "label", None).unwrap();
    assert_eq!(a.row_count + b.row_count, 10);
}

#[test]
fn stratified_split_needs_an_existing_column() {
    let ds = numbered(4);
    let r = split_stratified(&ds, fraction(1, 2), "label", Some(1));
    assert!(matches!(r, Err(EngineError::InvalidArgument(_))));
}

#[test]
fn fractions_read_from_decimal_text() {
    assert_eq!(Fraction::from_decimal("0.25"), Some(fraction(25, 100)));
    assert_eq!(Fraction::from_decimal(".2"), Some(fraction(2, 10)));
    assert_eq!(Fraction::from_decimal("1"), Some(fraction(1, 1)));
    assert_eq!(Fraction::from_decimal("0."), None);
    assert_eq!(Fraction::from_decimal(""), None);
    assert_eq!(Fraction::from_decimal("0.2.1"), None);
    assert_eq!(Fraction::from_decimal("-0.2"), None);
    assert_eq!(Fraction::from_decimal("0.0000000001"), None);
}
