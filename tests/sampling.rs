use dpa_core::dataset::{order_key, Cell, Column, ColumnKind, Dataset};
use dpa_core::error::EngineError;
use dpa_core::sampler::{
    sample, sample_head, sample_indices, sample_random, sample_stratified, sample_tail,
    SamplingMethod,
};

fn key(x: f64) -> Option<i64> {
    order_key(x.to_bits())
}

fn int_column(name: &str, values: &[i64]) -> Column {
    Column::new(
        name.to_string(),
        "Int64".to_string(),
        ColumnKind::Integer,
        values.iter().map(|v| Cell::Int(*v)).collect(),
        Some(values.iter().map(|v| key(*v as f64)).collect()),
    )
}

fn text_column(name: &str, values: &[&str]) -> Column {
    Column::new(
        name.to_string(),
        "String".to_string(),
        ColumnKind::Text,
        values.iter().map(|v| Cell::Text(v.to_string())).collect(),
        None,
    )
}

fn numbered(n: i64) -> Dataset {
    let values: Vec<i64> = (0..n).collect();
    Dataset::new(vec![int_column("id", &values)]).unwrap()
}

fn ids(ds: &Dataset) -> Vec<i64> {
    ds.columns[0]
        .cells
        .iter()
        .map(|c| match c {
            Cell::Int(v) => *v,
            _ => panic!("not an integer"),
        })
        .collect()
}

fn grouped() -> Dataset {
    let values: Vec<i64> = (0..9).collect();
    Dataset::new(vec![
        int_column("id", &values),
        text_column("g", &["a", "b", "a", "c", "b", "a", "c", "c", "a"]),
    ])
    .unwrap()
}

#[test]
fn seeded_random_sample_is_reproducible() {
    let ds = numbered(50);
    let a = sample(&ds, 10, SamplingMethod::Random, None, Some(42)).unwrap();
    let b = sample(&ds, 10, SamplingMethod::Random, None, Some(42)).unwrap();
    assert_eq!(a, b);
    assert_eq!(a.row_count, 10);
    let mut seen = ids(&a);
    seen.sort();
    seen.dedup();
    assert_eq!(seen.len(), 10);
    assert!(seen.iter().all(|v| *v >= 0 && *v < 50));
}

#[test]
fn seeded_random_sample_is_shuffled() {
    let ds = numbered(100);
    let rows = sample_indices(&ds, 5, SamplingMethod::Random, None, Some(1)).unwrap();
    assert_eq!(rows.len(), 5);
    assert_ne!(rows, vec![95, 96, 97, 98, 99]);
    assert_ne!(rows, vec![0, 1, 2, 3, 4]);
}

#[test]
fn unseeded_random_sample_takes_the_first_rows() {
    let ds = numbered(8);
    let out = sample_random(&ds, 3, None);
    assert_eq!(ids(&out), vec![0, 1, 2]);
}

#[test]
fn random_sample_larger_than_dataset_takes_every_row() {
    let ds = numbered(6);
    let out = sample_random(&ds, 100, Some(9));
    let mut seen = ids(&out);
    seen.sort();
    assert_eq!(seen, vec![0, 1, 2, 3, 4, 5]);
}

#[test]
fn head_sample_keeps_first_rows_in_order() {
    let ds = numbered(5);
    let out = sample_head(&ds, 3);
    assert_eq!(out.row_count, 3);
    assert_eq!(ids(&out), vec![0, 1, 2]);
    let all = sample(&ds, 10, SamplingMethod::Head, None, None).unwrap();
    assert_eq!(ids(&all), vec![0, 1, 2, 3, 4]);
}

#[test]
fn tail_sample_keeps_last_rows_in_order() {
    let ds = numbered(5);
    let out = sample_tail(&ds, 2);
    assert_eq!(ids(&out), vec![3, 4]);
    let none = sample(&ds, 0, SamplingMethod::Tail, None, None).unwrap();
    assert_eq!(none.row_count, 0);
}

#[test]
fn sample_of_empty_dataset_is_empty() {
    let ds = numbered(0);
    for method in [SamplingMethod::Random, SamplingMethod::Head, SamplingMethod::Tail] {
        let out = sample(&ds, 4, method, None, Some(3)).unwrap();
        assert_eq!(out.row_count, 0);
    }
}

#[test]
fn stratified_sample_draws_from_each_group() {
    let ds = grouped();
    // three groups, size 6: two rows from each
    let rows = sample_indices(&ds, 6, SamplingMethod::Stratified, Some("g"), Some(5)).unwrap();
    assert_eq!(rows.len(), 6);
    let mut sorted = rows.clone();
    sorted.sort();
    sorted.dedup();
    assert_eq!(sorted.len(), 6);
    let groups = ["a", "b", "a", "c", "b", "a", "c", "c", "a"];
    // groups come in the order their values first occur: a, b, c
    let labels: Vec<&str> = rows.iter().map(|r| groups[*r]).collect();
    assert_eq!(labels, vec!["a", "a", "b", "b", "c", "c"]);
}

#[test]
fn stratified_sample_is_capped_by_group_size() {
    let ds = grouped();
    // size 9 over three groups asks three of each; group b has only two
    let out = sample_stratified(&ds, 9, "g", Some(11)).unwrap();
    assert_eq!(out.row_count, 3 + 2 + 3);
    let mut seen = ids(&out);
    seen.sort();
    seen.dedup();
    assert_eq!(seen.len(), 8);
}

#[test]
fn unseeded_stratified_sample_takes_first_rows_of_each_group() {
    let ds = grouped();
    let rows = sample_indices(&ds, 3, SamplingMethod::Stratified, Some("g"), None).unwrap();
    assert_eq!(rows, vec![0, 1, 3]);
}

#[test]
fn stratified_sample_needs_a_column() {
    let ds = grouped();
    let missing = sample(&ds, 3, SamplingMethod::Stratified, None, Some(1));
    assert!(matches!(missing, Err(EngineError::InvalidArgument(_))));
    let absent = sample(&ds, 3, SamplingMethod::Stratified, Some("nope"), Some(1));
    assert!(matches!(absent, Err(EngineError::InvalidArgument(_))));
}

#[test]
fn sampling_method_names() {
    assert_eq!(SamplingMethod::from_name("random"), Ok(SamplingMethod::Random));
    assert_eq!(SamplingMethod::from_name("stratified"), Ok(SamplingMethod::Stratified));
    assert_eq!(SamplingMethod::from_name("head"), Ok(SamplingMethod::Head));
    assert_eq!(SamplingMethod::from_name("tail"), Ok(SamplingMethod::Tail));
    assert!(matches!(
        SamplingMethod::from_name("systematic"),
        Err(EngineError::InvalidArgument(_))
    ));
}

#[test]
fn dataset_rejects_ragged_columns() {
    let r = Dataset::new(vec![int_column("a", &[1, 2]), int_column("b", &[1])]);
    assert!(matches!(r, Err(EngineError::InvalidArgument(_))));
    let dup = Dataset::new(vec![int_column("a", &[1]), int_column("a", &[2])]);
    assert!(matches!(dup, Err(EngineError::InvalidArgument(_))));
}

#[test]
fn order_keys_follow_numbers() {
    assert_eq!(key(0.0), Some(0));
    assert_eq!(key(-0.0), Some(0));
    assert_eq!(key(f64::NAN), None);
    assert!(key(1.5).unwrap() < key(2.0).unwrap());
    assert!(key(-3.0).unwrap() < key(-2.5).unwrap());
    assert!(key(-1e-300).unwrap() < 0);
    assert!(key(f64::NEG_INFINITY).unwrap() < key(-1e300).unwrap());
}
