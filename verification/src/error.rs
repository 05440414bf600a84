//! What can go wrong while heartbeats are exchanged.

use vstd::prelude::*;
use vstd::std_specs::convert::FromSpecImpl;
use vstd::string::StringExecFns;

verus! {

/// `std::io::Error`, the failure of a transport operation, carried as it is.
#[verifier::external_type_specification]
#[verifier::external_body]
pub struct ExIoError(std::io::Error);

/// `serde_json::Error`, the failure to read or write JSON, carried as it is.
#[verifier::external_type_specification]
#[verifier::external_body]
pub struct ExJsonError(serde_json::Error);

/// Whether the kind of a transport error is `WouldBlock`: the error only
/// reports that nothing was waiting to be read.
pub uninterp spec fn reports_would_block(err: std::io::Error) -> bool;

/// A failure met while receiving, storing or sending a heartbeat.
#[derive(Debug)]
pub enum HeartbeatError {
    /// The transport failed.
    Io(std::io::Error),
    /// A payload was not a well-formed heartbeat.
    Serde(serde_json::Error),
    /// Nothing was waiting to be read; try again later.
    WouldBlock,
    /// Anything else, in words.
    Other(String),
}

/// `std::io::Error::kind`, matched against `ErrorKind::WouldBlock`: tells
/// whether the error is the one that a non-blocking read gives when no data
/// is pending.
#[verifier::external_body]
fn is_would_block(err: &std::io::Error) -> (r: bool)
    ensures
        r == reports_would_block(*err),
{
    matches!(err.kind(), std::io::ErrorKind::WouldBlock)
}

/// The `Display` text of a `std::io::Error`. Nothing is claimed of the text:
/// for an error of the operating system it is the system's own wording.
#[verifier::external_body]
fn io_error_text(err: &std::io::Error) -> (text: String) {
    format!("{}", err)
}

/// The `Display` text of a `serde_json::Error`. Nothing is claimed of the text.
#[verifier::external_body]
fn json_error_text(err: &serde_json::Error) -> (text: String) {
    format!("{}", err)
}

impl From<std::io::Error> for HeartbeatError {
    fn from(err: std::io::Error) -> (e: HeartbeatError) {
        if is_would_block(&err) {
            HeartbeatError::WouldBlock
        } else {
            HeartbeatError::Io(err)
        }
    }
}

impl FromSpecImpl<std::io::Error> for HeartbeatError {
    open spec fn obeys_from_spec() -> bool {
        true
    }

    open spec fn from_spec(err: std::io::Error) -> HeartbeatError {
        if reports_would_block(err) {
            HeartbeatError::WouldBlock
        } else {
            HeartbeatError::Io(err)
        }
    }
}

impl From<serde_json::Error> for HeartbeatError {
    fn from(err: serde_json::Error) -> (e: HeartbeatError) {
        HeartbeatError::Serde(err)
    }
}

impl FromSpecImpl<serde_json::Error> for HeartbeatError {
    open spec fn obeys_from_spec() -> bool {
        true
    }

    open spec fn from_spec(err: serde_json::Error) -> HeartbeatError {
        HeartbeatError::Serde(err)
    }
}

impl From<String> for HeartbeatError {
    fn from(err: String) -> (e: HeartbeatError) {
        HeartbeatError::Other(err)
    }
}

impl FromSpecImpl<String> for HeartbeatError {
    open spec fn obeys_from_spec() -> bool {
        true
    }

    open spec fn from_spec(err: String) -> HeartbeatError {
        HeartbeatError::Other(err)
    }
}

impl HeartbeatError {
    /// What the message of this error begins with; for `WouldBlock` it is the
    /// whole message.
    pub open spec fn headline(&self) -> Seq<char> {
        match self {
            HeartbeatError::Io(_) => "IO error: "@,
            HeartbeatError::Serde(_) => "Serialization error: "@,
            HeartbeatError::WouldBlock => "Operation would block"@,
            HeartbeatError::Other(_) => "Other error: "@,
        }
    }

    /// The error in words, for a log line.
    pub fn message(&self) -> (text: String)
        ensures
            self.headline().is_prefix_of(text@),
            self is WouldBlock ==> text@ == self.headline(),
            self matches HeartbeatError::Other(detail) ==> text@ == self.headline() + detail@,
    {
        match self {
            HeartbeatError::Io(err) => {
                let detail = io_error_text(err);
                String::from_str("IO error: ").concat(detail.as_str())
            },
            HeartbeatError::Serde(err) => {
                let detail = json_error_text(err);
                String::from_str("Serialization error: ").concat(detail.as_str())
            },
            HeartbeatError::WouldBlock => String::from_str("Operation would block"),
            HeartbeatError::Other(detail) => String::from_str("Other error: ").concat(
                detail.as_str(),
            ),
        }
    }
}

} // verus!
