//! A thin driver over the scanner: runs one scan and remembers whether any
//! scan it ran produced errors.

use vstd::prelude::*;

use crate::lexer::{errors_view, get_tokens};
use crate::model::scan;
use crate::utils::Error;

verus! {

/// Driver state: whether any source handed to [`Interpreter::run`] failed
/// to scan cleanly.
pub struct Interpreter {
    had_error: bool,
}

impl Interpreter {
    /// Whether some earlier scan produced errors.
    pub closed spec fn spec_had_error(self) -> bool {
        self.had_error
    }

    pub fn new() -> (r: Interpreter)
        ensures
            !r.spec_had_error(),
    {
        Interpreter { had_error: false }
    }

    /// Scans one source text: the token count when the scan is clean, the
    /// scan errors otherwise, in which case the error flag is set. Reporting
    /// either outcome to a sink is the caller's business.
    pub fn run(&mut self, source: String) -> (r: Result<usize, Vec<Error>>)
        requires
            source@.len() < u32::MAX,
        ensures
            (match r {
                Ok(n) => {
                    &&& scan(source@).errors.len() == 0
                    &&& n == scan(source@).tokens.len()
                    &&& final(self).spec_had_error() == old(self).spec_had_error()
                },
                Err(errors) => {
                    &&& scan(source@).errors.len() > 0
                    &&& errors_view(errors@) == scan(source@).errors
                    &&& final(self).spec_had_error()
                },
            }),
    {
        match get_tokens(source) {
            Ok(tokens) => Ok(tokens.len()),
            Err(errors) => {
                self.had_error = true;
                Err(errors)
            },
        }
    }
}

/// Runs one source text through a fresh interpreter: the token count when
/// the scan is clean, the scan errors otherwise.
pub fn run(source: String) -> (r: Result<usize, Vec<Error>>)
    requires
        source@.len() < u32::MAX,
    ensures
        (match r {
            Ok(n) => scan(source@).errors.len() == 0 && n == scan(source@).tokens.len(),
            Err(errors) => scan(source@).errors.len() > 0 && errors_view(errors@) == scan(
                source@,
            ).errors,
        }),
{
    let mut interpreter = Interpreter::new();
    interpreter.run(source)
}

} // verus!
