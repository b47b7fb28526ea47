//! Sampling, splitting and rule-based validation of in-memory tabular data.
//!
//! A [`dataset::Dataset`] holds named, typed columns of equal length. The
//! sampler and the splitter choose row indices and materialise them; the
//! validator runs four rule families and the report builder turns their
//! findings into a summary and a verdict.

pub mod error;
pub mod dataset;
pub mod shuffle;
pub mod groups;
pub mod sampler;
pub mod splitter;
pub mod text;
pub mod number_text;
pub mod findings;
pub mod validator;
pub mod report;
pub mod format;
