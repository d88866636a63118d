//! The errors of decoding.

use vstd::prelude::*;
use vstd::string::StringExecFns;

verus! {

/// Which kind of failure a [`DecodeError`] reports.
#[derive(Clone, Copy, Debug, PartialEq, Eq)]
pub enum DecodeErrorKind {
    /// The text is not one JSON document: a token is malformed, the text
    /// ends too early, or something follows the document.
    Syntax,
    /// The input is not well-formed UTF-8.
    InvalidString,
    /// The input is neither text nor bytes.
    InputType,
}

/// Why an input could not be decoded. Line and column are kept for a
/// richer report and are always zero.
#[derive(Debug, PartialEq, Eq)]
pub struct DecodeError {
    pub kind: DecodeErrorKind,
    pub message: String,
    pub line: usize,
    pub column: usize,
}

/// What a [`DecodeError`] holds.
pub struct DecodeErrorView {
    pub kind: DecodeErrorKind,
    pub message: Seq<char>,
    pub line: nat,
    pub column: nat,
}

impl View for DecodeError {
    type V = DecodeErrorView;

    open spec fn view(&self) -> DecodeErrorView {
        DecodeErrorView {
            kind: self.kind,
            message: self.message@,
            line: self.line as nat,
            column: self.column as nat,
        }
    }
}

/// The message for input that is not well-formed UTF-8.
pub open spec fn invalid_string_message() -> Seq<char> {
    "str is not valid UTF-8: surrogates not allowed"@
}

/// The message for input that is neither text nor bytes.
pub open spec fn input_type_message() -> Seq<char> {
    "Input must be bytes, bytearray, or str"@
}

/// The error with the parser's message for a text that is not JSON.
pub open spec fn syntax_error(message: Seq<char>) -> DecodeErrorView {
    DecodeErrorView { kind: DecodeErrorKind::Syntax, message, line: 0, column: 0 }
}

/// The one error for input that is not well-formed UTF-8, wherever the
/// fault lies in it.
pub open spec fn invalid_string_error() -> DecodeErrorView {
    DecodeErrorView {
        kind: DecodeErrorKind::InvalidString,
        message: invalid_string_message(),
        line: 0,
        column: 0,
    }
}

/// The error for input that is neither text nor bytes.
pub open spec fn input_type_error() -> DecodeErrorView {
    DecodeErrorView {
        kind: DecodeErrorKind::InputType,
        message: input_type_message(),
        line: 0,
        column: 0,
    }
}

/// The two fixed messages of decoding can be told apart.
pub proof fn lemma_messages_differ()
    ensures
        invalid_string_message() != input_type_message(),
{
    reveal_strlit("str is not valid UTF-8: surrogates not allowed");
    reveal_strlit("Input must be bytes, bytearray, or str");
    assert(invalid_string_message().len() != input_type_message().len());
}

impl DecodeError {
    /// The error for a text that is not JSON, with the parser's message.
    pub fn syntax(message: String) -> (error: DecodeError)
        ensures
            error@ == syntax_error(message@),
    {
        DecodeError { kind: DecodeErrorKind::Syntax, message, line: 0, column: 0 }
    }

    /// The error for input that is not well-formed UTF-8.
    pub fn invalid_string() -> (error: DecodeError)
        ensures
            error@ == invalid_string_error(),
    {
        DecodeError {
            kind: DecodeErrorKind::InvalidString,
            message: String::from_str("str is not valid UTF-8: surrogates not allowed"),
            line: 0,
            column: 0,
        }
    }

    /// The error for input that is neither text nor bytes.
    pub fn input_type() -> (error: DecodeError)
        ensures
            error@ == input_type_error(),
    {
        DecodeError {
            kind: DecodeErrorKind::InputType,
            message: String::from_str("Input must be bytes, bytearray, or str"),
            line: 0,
            column: 0,
        }
    }

    /// The message of this error.
    pub fn message(&self) -> (message: String)
        ensures
            message@ == self@.message,
    {
        self.message.clone()
    }
}

} // verus!
