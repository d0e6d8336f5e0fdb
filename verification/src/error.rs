//! The errors that the library's operations report.
use crate::part::PartName;
use vstd::prelude::*;
use vstd::string::StringExecFns;

verus! {

/// An error of a package, metadata or document operation.
#[derive(Debug)]
pub enum OfficeError {
    /// An operating-system or filesystem error, with its description.
    Io(String),
    /// The input is not a valid ZIP package.
    Zip(String),
    /// An XML part could not be parsed or serialized.
    Xml(String),
    /// A requested package part does not exist.
    PartNotFound(PartName),
    /// The document uses an Office file type unsupported by the operation.
    UnsupportedFileType(String),
    /// The package contains invalid or inconsistent Office data.
    InvalidDocument(String),
    /// An AI policy embedded in a document is malformed.
    InvalidAiPolicy(String),
}

/// `e` reports invalid Office data with exactly this message.
pub open spec fn invalid_document_with(e: OfficeError, message: Seq<char>) -> bool {
    match e {
        OfficeError::InvalidDocument(m) => m@ == message,
        _ => false,
    }
}

/// `e` reports invalid Office data with a message that starts with
/// `prefix`.
pub open spec fn invalid_document_starting(e: OfficeError, prefix: Seq<char>) -> bool {
    match e {
        OfficeError::InvalidDocument(m) => prefix.is_prefix_of(m@),
        _ => false,
    }
}

/// `e` reports a malformed AI policy with exactly this message.
pub open spec fn invalid_policy_with(e: OfficeError, message: Seq<char>) -> bool {
    match e {
        OfficeError::InvalidAiPolicy(m) => m@ == message,
        _ => false,
    }
}

/// The message of an error: what kind of error it is, then its details.
pub open spec fn error_message(e: OfficeError) -> Seq<char> {
    match e {
        OfficeError::Io(s) => "I/O error: "@ + s@,
        OfficeError::Zip(s) => "Invalid ZIP package: "@ + s@,
        OfficeError::Xml(s) => "XML processing error: "@ + s@,
        OfficeError::PartNotFound(p) => "Package part not found: "@ + p@,
        OfficeError::UnsupportedFileType(s) => "Unsupported Office file type: "@ + s@,
        OfficeError::InvalidDocument(s) => "Invalid Office office: "@ + s@,
        OfficeError::InvalidAiPolicy(s) => "AI policy error: "@ + s@,
    }
}

impl OfficeError {
    /// The message of the error.
    pub fn to_string(&self) -> (message: String)
        ensures
            message@ == error_message(*self),
    {
        let (prefix, detail) = match self {
            OfficeError::Io(s) => ("I/O error: ", s.as_str()),
            OfficeError::Zip(s) => ("Invalid ZIP package: ", s.as_str()),
            OfficeError::Xml(s) => ("XML processing error: ", s.as_str()),
            OfficeError::PartNotFound(p) => ("Package part not found: ", p.as_str()),
            OfficeError::UnsupportedFileType(s) => ("Unsupported Office file type: ", s.as_str()),
            OfficeError::InvalidDocument(s) => ("Invalid Office office: ", s.as_str()),
            OfficeError::InvalidAiPolicy(s) => ("AI policy error: ", s.as_str()),
        };
        let mut message = String::from_str(prefix);
        message.append(detail);
        message
    }
}

} // verus!
