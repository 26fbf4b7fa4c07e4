//! The recoverable scan-failure value.

use vstd::prelude::*;

use crate::model::SpecError;

verus! {

/// One recoverable scan failure: a message and the 1-based line on which the
/// offending character occurred. Pure data, independent of the source
/// buffer; rendering it to a diagnostic sink is the caller's business.
#[derive(Debug, PartialEq)]
pub struct Error {
    pub message: String,
    pub line: u32,
}

impl View for Error {
    type V = SpecError;

    open spec fn view(&self) -> SpecError {
        SpecError { message: self.message@, line: self.line as int }
    }
}

} // verus!
