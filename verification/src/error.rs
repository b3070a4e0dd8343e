//! The error type shared by the whole library.

use vstd::prelude::*;
use vstd::string::*;

verus! {

/// What went wrong, by kind, with a message for the caller.
#[derive(Debug, Clone, PartialEq)]
pub enum NatureError {
    VerifyError(String),
    LogicalError(String),
    DaoDuplicated(String),
    SystemError(String),
    EnvironmentError(String),
}

/// The kind and message of a [`NatureError`] as plain values.
pub enum ErrorText {
    VerifyError(Seq<char>),
    LogicalError(Seq<char>),
    DaoDuplicated(Seq<char>),
    SystemError(Seq<char>),
    EnvironmentError(Seq<char>),
}

impl View for NatureError {
    type V = ErrorText;

    open spec fn view(&self) -> ErrorText {
        match self {
            NatureError::VerifyError(m) => ErrorText::VerifyError(m@),
            NatureError::LogicalError(m) => ErrorText::LogicalError(m@),
            NatureError::DaoDuplicated(m) => ErrorText::DaoDuplicated(m@),
            NatureError::SystemError(m) => ErrorText::SystemError(m@),
            NatureError::EnvironmentError(m) => ErrorText::EnvironmentError(m@),
        }
    }
}

/// The text that Rust's `Debug` formatting gives for the string `s`: `s`
/// between double quotes, with the characters that need it escaped.
pub uninterp spec fn quoted_text(s: Seq<char>) -> Seq<char>;

/// `s` as `Debug` formatting (`{:?}`) writes a string. The result depends
/// on the characters of `s` alone.
#[verifier::external_body]
pub(crate) fn quoted(s: &str) -> (r: String)
    ensures
        r@ == quoted_text(s@),
{
    format!("{:?}", s)
}

/// The text of an error: the name of its kind with the quoted message in
/// round brackets behind it.
pub open spec fn shown(e: ErrorText) -> Seq<char> {
    match e {
        ErrorText::VerifyError(m) => "VerifyError("@ + quoted_text(m) + ")"@,
        ErrorText::LogicalError(m) => "LogicalError("@ + quoted_text(m) + ")"@,
        ErrorText::DaoDuplicated(m) => "DaoDuplicated("@ + quoted_text(m) + ")"@,
        ErrorText::SystemError(m) => "SystemError("@ + quoted_text(m) + ")"@,
        ErrorText::EnvironmentError(m) => "EnvironmentError("@ + quoted_text(m) + ")"@,
    }
}

impl NatureError {
    /// The text of this error.
    pub fn to_string(&self) -> (r: String)
        ensures
            r@ == shown(self@),
    {
        let (mut r, m) = match self {
            NatureError::VerifyError(m) => ("VerifyError(".to_owned(), m),
            NatureError::LogicalError(m) => ("LogicalError(".to_owned(), m),
            NatureError::DaoDuplicated(m) => ("DaoDuplicated(".to_owned(), m),
            NatureError::SystemError(m) => ("SystemError(".to_owned(), m),
            NatureError::EnvironmentError(m) => ("EnvironmentError(".to_owned(), m),
        };
        let q = quoted(m.as_str());
        r.append(q.as_str());
        r.append(")");
        r
    }
}

} // verus!
