//! The error taxonomy: structured server errors, configuration errors,
//! transport-level errors, and the blob error union.

use vstd::prelude::*;
use vstd::string::*;

verus! {

/// A structured error reported by the remote SQL engine.
/// Two values are equal exactly when message and code are equal.
#[derive(Debug, Clone, PartialEq)]
pub struct CrateDBError {
    pub message: String,
    pub code: String,
    pub description: String,
}

/// The derived description of a server error with the given message
/// and code.
pub open spec fn error_description(message: Seq<char>, code: Seq<char>) -> Seq<char> {
    "Error [Code "@ + code + "]: "@ + message
}

impl CrateDBError {
    /// Builds an error value; the description is derived from message
    /// and code.
    pub fn new(message: &str, code: &str) -> (r: CrateDBError)
        ensures
            r.message@ == message@,
            r.code@ == code@,
            r.description@ == error_description(message@, code@),
    {
        let mut desc = String::from_str("Error [Code ");
        desc.append(code);
        desc.append("]: ");
        desc.append(message);
        CrateDBError {
            message: String::from_str(message),
            code: String::from_str(code),
            description: desc,
        }
    }
}

/// The error raised when a cluster is built without any node.
#[derive(Debug)]
pub struct CrateDBConfigurationError {
    pub description: String,
}

/// A failure below the protocol layer: the transport, response
/// parsing, or local I/O.
#[derive(Debug, Clone, PartialEq)]
pub struct BackendError {
    pub description: String,
}

impl BackendError {
    /// Wraps the text of a transport-level failure.
    pub fn from_transport(detail: &str) -> (r: BackendError)
        ensures
            r.description@ == "Error on Transport: "@ + detail@,
    {
        let mut d = String::from_str("Error on Transport: ");
        d.append(detail);
        BackendError { description: d }
    }

    /// Wraps the text of a URL parsing failure.
    pub fn from_parser(detail: &str) -> (r: BackendError)
        ensures
            r.description@ == "Error on Parse: "@ + detail@,
    {
        let mut d = String::from_str("Error on Parse: ");
        d.append(detail);
        BackendError { description: d }
    }

    /// Wraps the text of a local I/O failure.
    pub fn from_io(detail: &str) -> (r: BackendError)
        ensures
            r.description@ == "Error on I/O: "@ + detail@,
    {
        let mut d = String::from_str("Error on I/O: ");
        d.append(detail);
        BackendError { description: d }
    }

    /// An error with the given description.
    pub fn new(error: String) -> (r: BackendError)
        ensures
            r.description@ == error@,
    {
        BackendError { description: error }
    }
}

/// A failure of a blob operation: either a protocol-level outcome
/// (`Action`) or a transport failure below it.
#[derive(Debug, Clone)]
pub enum BlobError {
    Action(CrateDBError),
    Transport(BackendError),
}

} // verus!
