//! The errors that the library's own decisions produce, with the wording the
//! user sees.

use vstd::prelude::*;

verus! {

/// An error decided by the library (as opposed to one raised by I/O).
#[derive(Debug, Clone, PartialEq, Eq)]
pub enum AppError {
    Anthropic(String),
    CostCapReached,
    NoApiKey,
    NotFound(String),
    Invalid(String),
    Internal(String),
}

/// A string with the characters of `s`.
pub fn owned(s: &str) -> (r: String)
    ensures
        r@ == s@,
{
    broadcast use vstd::string::group_string_axioms;

    s.to_string()
}

/// `a` followed by `b`.
pub fn concat(a: &str, b: &str) -> (r: String)
    ensures
        r@ == a@ + b@,
{
    let mut r = owned(a);
    r.append(b);
    r
}

impl AppError {
    /// The text shown to the user for this error.
    pub open spec fn message_spec(&self) -> Seq<char> {
        match self {
            AppError::Anthropic(m) => "Anthropic API error: "@ + m@,
            AppError::CostCapReached => "Daily cost cap reached — raise it in Settings or wait until tomorrow"@,
            AppError::NoApiKey => "No Anthropic API key set — add it in Settings"@,
            AppError::NotFound(m) => "Not found: "@ + m@,
            AppError::Invalid(m) => m@,
            AppError::Internal(m) => "Something went wrong: "@ + m@,
        }
    }

    /// The text shown to the user for this error.
    pub fn message(&self) -> (s: String)
        ensures
            s@ == self.message_spec(),
    {
        match self {
            AppError::Anthropic(m) => concat("Anthropic API error: ", m.as_str()),
            AppError::CostCapReached => owned(
                "Daily cost cap reached — raise it in Settings or wait until tomorrow",
            ),
            AppError::NoApiKey => owned("No Anthropic API key set — add it in Settings"),
            AppError::NotFound(m) => concat("Not found: ", m.as_str()),
            AppError::Invalid(m) => owned(m.as_str()),
            AppError::Internal(m) => concat("Something went wrong: ", m.as_str()),
        }
    }
}

} // verus!
