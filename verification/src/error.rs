//! The error that buffers and codecs share.
use vstd::prelude::*;

verus! {

/// Code of an error in encoded bytes.
pub const PROTOCOL_DECODE: &'static str = "protocol.decode";

/// Code of a frame that is longer than allowed.
pub const PROTOCOL_BUDGET_EXCEEDED: &'static str = "protocol.budget_exceeded";

/// Code of a call that its receiver cannot serve.
pub const APP_INVALID_ARGUMENT: &'static str = "app.invalid_argument";

/// An error with a stable code and a message for people.
#[derive(Debug, Clone, PartialEq, Eq)]
pub struct CoreError {
    code: &'static str,
    message: String,
}

impl CoreError {
    /// The code.
    pub closed spec fn code_text(&self) -> Seq<char> {
        self.code@
    }

    /// The message.
    pub closed spec fn text(&self) -> Seq<char> {
        self.message@
    }

    /// Whether the error has this code and this message.
    pub open spec fn says(&self, code: Seq<char>, text: Seq<char>) -> bool {
        self.code_text() == code && self.text() == text
    }

    /// An error with this code and this message.
    pub fn new(code: &'static str, message: String) -> (r: Self)
        ensures
            r.says(code@, message@),
    {
        CoreError { code, message }
    }

    /// The code.
    pub fn code(&self) -> (r: &'static str)
        ensures
            r@ == self.code_text(),
    {
        self.code
    }

    /// The message.
    pub fn message(&self) -> (r: &str)
        ensures
            r@ == self.text(),
    {
        self.message.as_str()
    }
}

/// The codes are these words.
pub proof fn law_codes_are_words()
    ensures
        PROTOCOL_DECODE@ == "protocol.decode"@,
        PROTOCOL_BUDGET_EXCEEDED@ == "protocol.budget_exceeded"@,
        APP_INVALID_ARGUMENT@ == "app.invalid_argument"@,
{
}

} // verus!
