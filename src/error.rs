use vstd::prelude::*;

verus! {

/// Why an operation of the engine refused to run.
#[derive(Debug, PartialEq, Eq)]
pub enum EngineError {
    /// A bad method name, a missing column, an out-of-range fraction.
    InvalidArgument(String),
    /// A file extension that no reader or writer handles.
    UnsupportedFormat(String),
}

impl EngineError {
    /// The human-readable text carried by the error.
    pub fn message(&self) -> (r: String)
        ensures
            r@ == (match self {
                EngineError::InvalidArgument(m) => m@,
                EngineError::UnsupportedFormat(m) => m@,
            }),
    {
        match self {
            EngineError::InvalidArgument(m) => m.clone(),
            EngineError::UnsupportedFormat(m) => m.clone(),
        }
    }
}

} // verus!
