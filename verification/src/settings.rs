//! Decisions about the stored Anthropic API key.

use vstd::prelude::*;
use crate::error::{owned, AppError};
use crate::text::{str_to_chars, trim_ws, trimmed_range};

verus! {

/// The API key, given what the credential store holds: the key itself, or
/// `NoApiKey` when none is stored.
pub fn require_api_key(stored: Option<String>) -> (r: Result<String, AppError>)
    ensures
        match stored {
            Some(k) => r == Ok::<String, AppError>(k),
            None => r == Err::<String, AppError>(AppError::NoApiKey),
        },
{
    match stored {
        Some(k) => Ok(k),
        None => Err(AppError::NoApiKey),
    }
}

/// Check a key the user wants to store: one that is empty or only
/// whitespace is refused as `Invalid("empty api key")`.
pub fn check_api_key_value(value: &str) -> (r: Result<(), AppError>)
    ensures
        trim_ws(value@).len() == 0 ==> (r matches Err(AppError::Invalid(m)) && m@ == "empty api key"@),
        trim_ws(value@).len() > 0 ==> r is Ok,
{
    let chars = str_to_chars(value);
    let t = trimmed_range(chars.as_slice(), 0, chars.len());
    proof {
        assert(chars@.subrange(0, chars@.len() as int) =~= value@);
    }
    if t.as_str().is_empty() {
        Err(AppError::Invalid(owned("empty api key")))
    } else {
        Ok(())
    }
}

} // verus!
