//! The error value of the JSON API.

use crate::text::debug_quote;
use crate::text::debug_quoted;
use vstd::prelude::*;
use vstd::string::*;

verus! {

/// An error that the API reports to its client.
#[derive(Debug, PartialEq, Eq)]
pub struct ApiError {
    pub message: String,
}

/// The text of an error whose message, in quoted form, is `quoted`.
pub open spec fn error_text(quoted: Seq<char>) -> Seq<char> {
    "api error: "@ + quoted
}

/// The text of an error, given its message in quoted form.
pub fn describe(quoted: &str) -> (text: String)
    ensures
        text@ == error_text(quoted@),
{
    let mut text = "api error: ".to_owned();
    text.append(quoted);
    text
}

impl ApiError {
    /// The HTTP status the error is reported with: 400, a bad request.
    pub fn status_code(&self) -> (code: u16)
        ensures
            code == 400,
    {
        400
    }

    /// The error as text: "api error: " and the message in quoted form.
    pub fn to_text(&self) -> (text: String)
        ensures
            text@ == error_text(debug_quoted(self.message@)),
    {
        let quoted = debug_quote(self.message.as_str());
        describe(quoted.as_str())
    }
}

} // verus!
