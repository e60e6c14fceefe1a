//! The error taxonomy of the library: invalid arguments, I/O failures and
//! parse/format failures, each carrying a human-readable description.

use vstd::prelude::*;

verus! {

/// A typed failure of the extraction-and-serialization pipeline.
#[derive(Debug, Clone)]
pub enum ImagextractorError {
    /// The input path is not an acceptable image argument.
    InvalidArgs(String),
    /// Opening, reading or writing a file failed; holds the system error text.
    IOError(String),
    /// The embedded metadata container or a JSON document is malformed.
    ParseError(String),
    /// Any other failure.
    Other,
}

/// The description of each failure: a fixed prefix naming its class,
/// followed by the carried text.
pub open spec fn spec_message(e: ImagextractorError) -> Seq<char> {
    match e {
        ImagextractorError::InvalidArgs(err) => "Invalid arguments: "@ + err@,
        ImagextractorError::IOError(err) => "I/O error: "@ + err@,
        ImagextractorError::ParseError(err) => "Parse error: "@ + err@,
        ImagextractorError::Other => "Other Error"@,
    }
}

impl ImagextractorError {
    /// A human-readable description of the failure.
    pub fn message(&self) -> (m: String)
        ensures
            m@ == spec_message(*self),
    {
        match self {
            ImagextractorError::InvalidArgs(err) => {
                let mut m = String::from_str("Invalid arguments: ");
                m.append(err.as_str());
                m
            },
            ImagextractorError::IOError(err) => {
                let mut m = String::from_str("I/O error: ");
                m.append(err.as_str());
                m
            },
            ImagextractorError::ParseError(err) => {
                let mut m = String::from_str("Parse error: ");
                m.append(err.as_str());
                m
            },
            ImagextractorError::Other => String::from_str("Other Error"),
        }
    }
}

} // verus!
