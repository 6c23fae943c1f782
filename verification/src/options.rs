//! The numeric base of a table and the settings of one run.

use crate::error::LouisError;
use crate::text::same_text;
use std::path::PathBuf;
use vstd::pervasive::unreached;
use vstd::prelude::*;

verus! {

/// `std::path::PathBuf`, carried through as it came.
#[verifier::external_type_specification]
#[verifier::external_body]
pub struct ExPathBuf(PathBuf);

/// What `str::to_lowercase` makes of a text.
pub uninterp spec fn lowercase(text: Seq<char>) -> Seq<char>;

/// `str::to_lowercase` returns the lower-case equivalent of the text as a new
/// string. All that is claimed of it here is that it depends on the text
/// alone.
pub assume_specification[ str::to_lowercase ](s: &str) -> (lowered: String)
    ensures
        lowered@ == lowercase(s@),
;

/// The settings of one run.
#[derive(Debug)]
pub struct Options {
    /// The file to show.
    pub entry: PathBuf,
    /// The base in which the data is shown.
    pub base: Base,
    pub non_color: bool,
    /// The number of bytes at the start of the file that are passed over.
    pub skip: u64,
    /// The largest number of bytes that are read.
    pub limit: u64,
}

/// The numeric base in which addresses and byte values are written.
#[derive(Debug, Copy, Clone, PartialEq, Eq, Structural)]
pub enum Base {
    Binary,
    Octal,
    Decimal,
    Hexadecimal,
}

impl Base {
    /// The radix of the base: 2, 8, 10 or 16.
    pub open spec fn spec_radix(&self) -> u64 {
        match self {
            Base::Binary => 2,
            Base::Octal => 8,
            Base::Decimal => 10,
            Base::Hexadecimal => 16,
        }
    }

    /// The number of characters that one byte takes in this base, leading
    /// zeros included.
    pub open spec fn spec_len(&self) -> usize {
        match self {
            Base::Binary => 8,
            Base::Octal | Base::Decimal => 3,
            Base::Hexadecimal => 2,
        }
    }

    /// The lower-case English name of the base.
    pub open spec fn name(&self) -> Seq<char> {
        match self {
            Base::Binary => "binary"@,
            Base::Octal => "octal"@,
            Base::Decimal => "decimal"@,
            Base::Hexadecimal => "hexadecimal"@,
        }
    }

    /// The base that goes by the given name, if any does. Each base has three
    /// names: its first letter, its first three letters, and its full name.
    pub open spec fn named(name: Seq<char>) -> Option<Base> {
        if name == "b"@ || name == "bin"@ || name == "binary"@ {
            Some(Base::Binary)
        } else if name == "o"@ || name == "oct"@ || name == "octal"@ {
            Some(Base::Octal)
        } else if name == "d"@ || name == "dec"@ || name == "decimal"@ {
            Some(Base::Decimal)
        } else if name == "h"@ || name == "hex"@ || name == "hexadecimal"@ {
            Some(Base::Hexadecimal)
        } else {
            None
        }
    }

    /// The base that goes by the given name, written in lower case.
    pub fn from_name(name: &str) -> (base: Option<Base>)
        ensures
            base == Base::named(name@),
    {
        if same_text(name, "b") || same_text(name, "bin") || same_text(name, "binary") {
            Some(Base::Binary)
        } else if same_text(name, "o") || same_text(name, "oct") || same_text(name, "octal") {
            Some(Base::Octal)
        } else if same_text(name, "d") || same_text(name, "dec") || same_text(name, "decimal") {
            Some(Base::Decimal)
        } else if same_text(name, "h") || same_text(name, "hex") || same_text(
            name,
            "hexadecimal",
        ) {
            Some(Base::Hexadecimal)
        } else {
            None
        }
    }

    /// The base that `s` names, in whatever case it is written. The text has to
    /// name one.
    pub fn from_str(s: &str) -> (r: Result<Base, LouisError>)
        requires
            Base::named(lowercase(s@)) is Some,
        ensures
            r matches Ok(base) && Some(base) == Base::named(lowercase(s@)),
    {
        let lowered = s.to_lowercase();
        match Base::from_name(lowered.as_str()) {
            Some(base) => Ok(base),
            None => unreached(),
        }
    }

    /// The base that `s` names, in whatever case it is written, or `None` where
    /// it names none.
    pub fn parse(s: &str) -> (base: Option<Base>)
        ensures
            base == Base::named(lowercase(s@)),
    {
        let lowered = s.to_lowercase();
        if Base::from_name(lowered.as_str()).is_some() {
            match Base::from_str(s) {
                Ok(base) => Some(base),
                Err(_) => None,
            }
        } else {
            None
        }
    }

    #[verifier::when_used_as_spec(spec_radix)]
    pub fn radix(&self) -> (r: u64)
        ensures
            r == self.spec_radix(),
    {
        match self {
            Base::Binary => 2,
            Base::Octal => 8,
            Base::Decimal => 10,
            Base::Hexadecimal => 16,
        }
    }

    #[verifier::when_used_as_spec(spec_len)]
    pub fn len(&self) -> (n: usize)
        ensures
            n == self.spec_len(),
    {
        match self {
            Base::Binary => 8,
            Base::Octal | Base::Decimal => 3,
            Base::Hexadecimal => 2,
        }
    }

    pub fn as_str(&self) -> (s: &'static str)
        ensures
            s@ == self.name(),
    {
        match self {
            Base::Binary => "binary",
            Base::Octal => "octal",
            Base::Decimal => "decimal",
            Base::Hexadecimal => "hexadecimal",
        }
    }
}

/// Each base goes by its own full name: what `as_str` gives, `from_name`
/// takes back.
pub proof fn lemma_name_round_trip(base: Base)
    ensures
        Base::named(base.name()) == Some(base),
{
    reveal_strlit("b");
    reveal_strlit("bin");
    reveal_strlit("binary");
    reveal_strlit("o");
    reveal_strlit("oct");
    reveal_strlit("octal");
    reveal_strlit("d");
    reveal_strlit("dec");
    reveal_strlit("decimal");
    reveal_strlit("h");
    reveal_strlit("hex");
    reveal_strlit("hexadecimal");
    assert("binary"@[0] == 'b' && "octal"@[0] == 'o' && "decimal"@[0] == 'd' && "hexadecimal"@[0]
        == 'h');
    assert("binary"@.len() == 6 && "octal"@.len() == 5 && "decimal"@.len() == 7
        && "hexadecimal"@.len() == 11);
    assert("b"@.len() == 1 && "o"@.len() == 1 && "d"@.len() == 1 && "h"@.len() == 1);
    assert("bin"@.len() == 3 && "oct"@.len() == 3 && "dec"@.len() == 3 && "hex"@.len() == 3);
}

} // verus!
