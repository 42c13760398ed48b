//! Why a byte source is not accepted as a patch.

use vstd::prelude::*;

verus! {

/// Which framing marker a rejected patch lacks.
#[derive(Debug, Clone, Copy, PartialEq, Eq)]
pub enum InvalidFormatCause {
    /// The source does not begin with `PATCH`.
    MissingHeader,
    /// The source does not end with `EOF`.
    MissingEOF,
}

impl InvalidFormatCause {
    /// The text that tells this cause to a reader.
    pub open spec fn text(self) -> Seq<char> {
        match self {
            InvalidFormatCause::MissingHeader => "IPS file has no header"@,
            InvalidFormatCause::MissingEOF => "IPS file has no EOF marker"@,
        }
    }

    /// One line that says which marker is missing.
    pub fn description(&self) -> (text: &'static str)
        ensures
            text@ == self.text(),
    {
        match self {
            InvalidFormatCause::MissingHeader => "IPS file has no header",
            InvalidFormatCause::MissingEOF => "IPS file has no EOF marker",
        }
    }

    /// The same line as an owned string, for display.
    pub fn message(&self) -> (text: String)
        ensures
            text@ == self.text(),
    {
        self.description().to_owned()
    }
}

/// The error of a byte source that is not framed as a patch.
#[derive(Debug)]
pub struct InvalidFormatError(InvalidFormatCause);

impl InvalidFormatError {
    /// The marker whose absence this error reports.
    pub closed spec fn cause(&self) -> InvalidFormatCause {
        self.0
    }

    /// The error for a source that lacks the marker `cause` names.
    pub fn new(cause: InvalidFormatCause) -> (error: Self)
        ensures
            error.cause() == cause,
    {
        InvalidFormatError(cause)
    }

    /// What went wrong, in general terms.
    pub fn description(&self) -> (text: &'static str)
        ensures
            text@ == "Given patch file doesn't conform to IPS format"@,
    {
        "Given patch file doesn't conform to IPS format"
    }

    /// The line under which the error is displayed.
    pub fn message(&self) -> (text: String)
        ensures
            text@ == "IPS file has invalid format"@,
    {
        "IPS file has invalid format".to_owned()
    }

    /// The underlying cause: which marker is missing.
    pub fn source(&self) -> (cause: Option<&InvalidFormatCause>)
        ensures
            cause == Some(&self.cause()),
    {
        Some(&self.0)
    }
}

} // verus!
