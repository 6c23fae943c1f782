//! The error of a run.

use vstd::prelude::*;
use vstd::std_specs::convert::FromSpecImpl;
use vstd::string::to_string_from_display_ensures;

verus! {

/// `std::io::Error`, carried through as it came; nothing is known of what is
/// in it.
#[verifier::external_type_specification]
#[verifier::external_body]
pub struct ExIoError(std::io::Error);

/// What can go wrong in a run: reading the input failed.
#[derive(Debug)]
pub enum LouisError {
    Io(std::io::Error),
}

impl From<std::io::Error> for LouisError {
    fn from(e: std::io::Error) -> (r: Self) {
        LouisError::Io(e)
    }
}

impl FromSpecImpl<std::io::Error> for LouisError {
    open spec fn obeys_from_spec() -> bool {
        true
    }

    open spec fn from_spec(e: std::io::Error) -> Self {
        LouisError::Io(e)
    }
}

impl LouisError {
    /// The error in words: for an error of reading, the text that the
    /// underlying error is displayed as.
    pub fn message(&self) -> (text: String)
        ensures
            match self {
                LouisError::Io(e) => to_string_from_display_ensures::<std::io::Error>(e, text),
            },
    {
        match self {
            LouisError::Io(e) => e.to_string(),
        }
    }
}

} // verus!
