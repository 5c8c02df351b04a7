//! Errors shared across the tool's reading paths.
use vstd::prelude::*;

verus! {

/// Failure to read a file, with the offending path and the reading error's
/// text attached.
pub struct ReadError {
    pub path: String,
    pub message: String,
}

impl ReadError {
    /// The error rendered for reporting.
    pub fn render(&self) -> (r: String)
        ensures
            r@ == "Could not read `"@ + self.path@ + "`"@,
    {
        let mut v = crate::text::str_chars("Could not read `");
        crate::text::vec_extend_str(&mut v, self.path.as_str());
        crate::text::vec_extend_str(&mut v, "`");
        crate::text::string_from_chars(v)
    }
}

} // verus!
