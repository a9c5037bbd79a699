//! The error of name resolution.
use vstd::prelude::*;
use crate::text::concat_strings;
use vstd::string::StringExecFns;

verus! {

/// A name that resolution could not tie to a declaration.
#[derive(Debug, Clone)]
pub enum Error {
    Unresolved(String),
}

/// The text by which an error is shown.
pub open spec fn error_text(e: Error) -> Seq<char> {
    match e {
        Error::Unresolved(name) => "unresolved name: "@ + name@,
    }
}

impl Error {
    /// The message of the error: `unresolved name: ` and the name.
    pub fn message(&self) -> (r: String)
        ensures
            r@ == error_text(*self),
    {
        match self {
            Error::Unresolved(name) => {
                let head = String::from_str("unresolved name: ");
                concat_strings(&head, name)
            },
        }
    }
}

} // verus!
