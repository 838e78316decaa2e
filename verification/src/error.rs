//! Error values shared by the backend and the agent logic.

use vstd::prelude::*;

verus! {

/// Errors of a network backend.
#[derive(Clone, Debug, PartialEq, Eq)]
pub enum BackendError {
    MissingCommand(String),
    CommandFailed(String),
    UnsupportedPlatform(String),
}

impl BackendError {
    /// The text of the error, as it is displayed.
    pub fn message(&self) -> (out: String)
        ensures
            out@ == self.text(),
    {
        match self {
            BackendError::MissingCommand(m) => {
                crate::text::concat2("required command is missing: ", m.as_str())
            },
            BackendError::CommandFailed(m) => {
                crate::text::concat2("backend command failed: ", m.as_str())
            },
            BackendError::UnsupportedPlatform(m) => {
                crate::text::concat2("unsupported platform: ", m.as_str())
            },
        }
    }

    /// The rendered text of the error.
    pub open spec fn text(&self) -> Seq<char> {
        match self {
            BackendError::MissingCommand(m) => "required command is missing: "@ + m@,
            BackendError::CommandFailed(m) => "backend command failed: "@ + m@,
            BackendError::UnsupportedPlatform(m) => "unsupported platform: "@ + m@,
        }
    }
}

/// `e` is a `CommandFailed` error whose detail reads `msg`.
pub open spec fn command_failed(e: BackendError, msg: Seq<char>) -> bool {
    e matches BackendError::CommandFailed(m) && m@ == msg
}

/// A `CommandFailed` error with the given detail.
pub fn failed(msg: &str) -> (e: BackendError)
    ensures
        command_failed(e, msg@),
{
    BackendError::CommandFailed(crate::text::owned(msg))
}

/// A `CommandFailed` error whose detail is `msg` followed by the decimal text of `n`.
pub fn failed_with_number(msg: &str, n: u64) -> (e: BackendError)
    ensures
        command_failed(e, msg@ + crate::text::decimal_text(n as nat)),
{
    let digits = crate::text::format_decimal(n);
    BackendError::CommandFailed(crate::text::concat2(msg, digits.as_str()))
}

/// Errors of the shared core types.
#[derive(Clone, Debug, PartialEq, Eq)]
pub enum CoreError {
    InvalidValue { field: &'static str, reason: String },
}

} // verus!
