//! Which file format a path's extension names.
use vstd::prelude::*;
use crate::error::EngineError;
use crate::number_text::{spells, spells_word};

verus! {

/// The file formats that datasets are read from and written to.
#[derive(Debug, Clone, Copy, PartialEq, Eq, Structural)]
pub enum FileFormat {
    Parquet,
    Csv,
    /// Line-delimited JSON; read only.
    JsonLines,
}

/// The format that an extension names, in any case; JSON lines only where
/// `reading`.
pub open spec fn format_named(ext: Seq<char>, reading: bool) -> Option<FileFormat> {
    if spells(ext, seq!['p', 'a', 'r', 'q', 'u', 'e', 't'], seq!['P', 'A', 'R', 'Q', 'U', 'E', 'T'])
        || spells(ext, seq!['p', 'q'], seq!['P', 'Q']) {
        Some(FileFormat::Parquet)
    } else if spells(ext, seq!['c', 's', 'v'], seq!['C', 'S', 'V']) {
        Some(FileFormat::Csv)
    } else if reading && (spells(ext, seq!['j', 's', 'o', 'n'], seq!['J', 'S', 'O', 'N']) || spells(
        ext,
        seq!['j', 's', 'o', 'n', 'l'],
        seq!['J', 'S', 'O', 'N', 'L'],
    )) {
        Some(FileFormat::JsonLines)
    } else {
        None
    }
}

fn word_is(e: &Vec<char>, lower: Vec<char>, upper: Vec<char>) -> (r: bool)
    requires
        lower@.len() == upper@.len(),
    ensures
        r == spells(e@, lower@, upper@),
{
    assert(e@.subrange(0, e@.len() as int) =~= e@);
    spells_word(e, 0, &lower, &upper)
}

fn format_of(ext: &str, reading: bool) -> (r: Option<FileFormat>)
    ensures
        r == format_named(ext@, reading),
{
    let e = crate::text::chars_of(ext);
    let parquet_l = vec!['p', 'a', 'r', 'q', 'u', 'e', 't'];
    let parquet_u = vec!['P', 'A', 'R', 'Q', 'U', 'E', 'T'];
    let pq_l = vec!['p', 'q'];
    let pq_u = vec!['P', 'Q'];
    let csv_l = vec!['c', 's', 'v'];
    let csv_u = vec!['C', 'S', 'V'];
    let json_l = vec!['j', 's', 'o', 'n'];
    let json_u = vec!['J', 'S', 'O', 'N'];
    let jsonl_l = vec!['j', 's', 'o', 'n', 'l'];
    let jsonl_u = vec!['J', 'S', 'O', 'N', 'L'];
    assert(parquet_l@ =~= seq!['p', 'a', 'r', 'q', 'u', 'e', 't']);
    assert(parquet_u@ =~= seq!['P', 'A', 'R', 'Q', 'U', 'E', 'T']);
    assert(pq_l@ =~= seq!['p', 'q']);
    assert(pq_u@ =~= seq!['P', 'Q']);
    assert(csv_l@ =~= seq!['c', 's', 'v']);
    assert(csv_u@ =~= seq!['C', 'S', 'V']);
    assert(json_l@ =~= seq!['j', 's', 'o', 'n']);
    assert(json_u@ =~= seq!['J', 'S', 'O', 'N']);
    assert(jsonl_l@ =~= seq!['j', 's', 'o', 'n', 'l']);
    assert(jsonl_u@ =~= seq!['J', 'S', 'O', 'N', 'L']);
    if word_is(&e, parquet_l, parquet_u) || word_is(&e, pq_l, pq_u) {
        Some(FileFormat::Parquet)
    } else if word_is(&e, csv_l, csv_u) {
        Some(FileFormat::Csv)
    } else if reading && (word_is(&e, json_l, json_u) || word_is(&e, jsonl_l, jsonl_u)) {
        Some(FileFormat::JsonLines)
    } else {
        None
    }
}

/// The format to read a file with extension `ext` in: `parquet`/`pq`, `csv`,
/// `json`/`jsonl`, in any case.
pub fn input_format(ext: &str) -> (r: Result<FileFormat, EngineError>)
    ensures
        match format_named(ext@, true) {
            Some(f) => r == Ok::<FileFormat, EngineError>(f),
            None => r is Err && r->Err_0 is UnsupportedFormat,
        },
{
    match format_of(ext, true) {
        Some(f) => Ok(f),
        None => Err(EngineError::UnsupportedFormat("unsupported input extension".to_owned())),
    }
}

/// The format to write a file with extension `ext` in: `parquet`/`pq` or
/// `csv`, in any case.
pub fn output_format(ext: &str) -> (r: Result<FileFormat, EngineError>)
    ensures
        match format_named(ext@, false) {
            Some(f) => r == Ok::<FileFormat, EngineError>(f),
            None => r is Err && r->Err_0 is UnsupportedFormat,
        },
{
    match format_of(ext, false) {
        Some(f) => Ok(f),
        None => Err(EngineError::UnsupportedFormat("unsupported output extension".to_owned())),
    }
}

} // verus!
