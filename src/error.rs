//! The library's error type.

use vstd::prelude::*;

verus! {

/// What can go wrong while loading, validating or saving activity data.
#[derive(Debug, Clone)]
pub enum Application {
    /// The external activity listing could not be run or ended in failure.
    CommandFailed { command: &'static str, error_text: String },
    /// A value read from the outside was malformed.
    InvalidValue { category: &'static str, value: String },
    /// A value is well formed but not supported.
    UnsupportedValue { category: &'static str, value: String },
    /// Writing the link of one activity and event failed.
    SaveDataError { activity: String, event: &'static str, script_path: String },
    /// A configured value broke its validation rules.
    BadInitData { category: &'static str, value: String },
}

} // verus!
