//! The error taxonomy: malformed lines (`ParseError`) and, for callers that
//! feed the parser from a file or reader, wrapped I/O failures (`Error`).

use vstd::prelude::*;
use vstd::string::StringExecFns;

verus! {

/// Spec-level picture of a parse failure: which rule a line broke, and for
/// `InvalidValue` the characters of the offending token.
pub ghost enum SpecParseError {
    InvalidValue(Seq<char>),
    TooFewFields,
}

/// Spec-level picture of an [`Error`]: either a parse failure or some I/O
/// failure (whose contents stay opaque).
pub ghost enum SpecError {
    Parse(SpecParseError),
    Io,
}

/// Why a data line was rejected: a field that must be one of a fixed set of
/// literals (`secure`) or a specific lexical form (`expiration`, a base-10
/// signed 64-bit integer) held the carried token, or the line had fewer than
/// the seven required tab-separated fields.
#[derive(Debug)]
pub enum ParseError {
    InvalidValue(String),
    TooFewFields,
}

/// Everything that can stop a whole parse operation: a malformed line, or a
/// failure to read the source before parsing began.
#[derive(Debug)]
pub enum Error {
    ParseError(ParseError),
    IoError(std::io::Error),
}

/// `std::io::Error` is declared so that [`Error`] can wrap a reader's native
/// failure; the library treats such a value as opaque.
#[verifier::external_type_specification]
#[verifier::external_body]
pub struct ExIoError(std::io::Error);

impl View for ParseError {
    type V = SpecParseError;

    open spec fn view(&self) -> SpecParseError {
        match self {
            ParseError::InvalidValue(t) => SpecParseError::InvalidValue(t@),
            ParseError::TooFewFields => SpecParseError::TooFewFields,
        }
    }
}

impl View for Error {
    type V = SpecError;

    open spec fn view(&self) -> SpecError {
        match self {
            Error::ParseError(e) => SpecError::Parse(e@),
            Error::IoError(_) => SpecError::Io,
        }
    }
}

impl ParseError {
    /// A short human-readable rendering: the variant's name, and for
    /// `InvalidValue` the offending token after a colon.
    pub fn message(&self) -> (r: String)
        ensures
            r@ == match self@ {
                SpecParseError::InvalidValue(t) => "InvalidValue: "@ + t,
                SpecParseError::TooFewFields => "TooFewFields"@,
            },
    {
        match self {
            ParseError::InvalidValue(t) => String::from_str("InvalidValue: ").concat(t.as_str()),
            ParseError::TooFewFields => String::from_str("TooFewFields"),
        }
    }
}

impl Error {
    /// A short human-readable rendering of the error's kind; a wrapped I/O
    /// failure is summarized as `IoError` (its native rendering stays with
    /// the wrapped value).
    pub fn message(&self) -> (r: String)
        ensures
            r@ == match self@ {
                SpecError::Parse(SpecParseError::InvalidValue(t)) => "ParseError: InvalidValue: "@
                    + t,
                SpecError::Parse(SpecParseError::TooFewFields) => "ParseError: TooFewFields"@,
                SpecError::Io => "IoError"@,
            },
    {
        match self {
            Error::ParseError(e) => {
                let m = e.message();
                proof {
                    reveal_strlit("ParseError: ");
                    reveal_strlit("InvalidValue: ");
                    reveal_strlit("ParseError: InvalidValue: ");
                    reveal_strlit("TooFewFields");
                    reveal_strlit("ParseError: TooFewFields");
                }
                let r = String::from_str("ParseError: ").concat(m.as_str());
                proof {
                    assert(r@ =~= match self@ {
                        SpecError::Parse(SpecParseError::InvalidValue(t)) =>
                            "ParseError: InvalidValue: "@ + t,
                        SpecError::Parse(SpecParseError::TooFewFields) =>
                            "ParseError: TooFewFields"@,
                        SpecError::Io => "IoError"@,
                    });
                }
                r
            },
            Error::IoError(_) => String::from_str("IoError"),
        }
    }
}

impl From<ParseError> for Error {
    /// Wraps a parse failure as a whole-operation [`Error`].
    fn from(e: ParseError) -> (r: Self) {
        Error::ParseError(e)
    }
}

impl vstd::std_specs::convert::FromSpecImpl<ParseError> for Error {
    open spec fn obeys_from_spec() -> bool {
        true
    }

    open spec fn from_spec(e: ParseError) -> Self {
        Error::ParseError(e)
    }
}

impl From<std::io::Error> for Error {
    /// Wraps a reader's native failure as a whole-operation [`Error`].
    fn from(e: std::io::Error) -> (r: Self) {
        Error::IoError(e)
    }
}

impl vstd::std_specs::convert::FromSpecImpl<std::io::Error> for Error {
    open spec fn obeys_from_spec() -> bool {
        true
    }

    open spec fn from_spec(e: std::io::Error) -> Self {
        Error::IoError(e)
    }
}

} // verus!
