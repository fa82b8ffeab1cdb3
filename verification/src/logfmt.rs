//! Rendering of operation outcomes for observability.
//!
//! The operation surface reports, after every call, whether it succeeded
//! and with which content or error.  These helpers turn an outcome into the
//! text that is attached to such a report: the carried content where there
//! is one, and the fixed text `none` where there is not.

use vstd::prelude::*;

verus! {

/// The text of an error, or `none` where there is no error.
pub fn log_err(error_option: &Option<String>) -> (r: String)
    ensures
        match error_option {
            Some(e) => r@ == e@,
            None => r@ == "none"@,
        },
{
    match error_option {
        Some(error) => error.clone(),
        None => "none".to_owned(),
    }
}

/// The content of a successful outcome, or `none` for a failed one.
pub fn log_ok_content(result: &Result<String, String>) -> (r: String)
    ensures
        match result {
            Ok(c) => r@ == c@,
            Err(_) => r@ == "none"@,
        },
{
    match result {
        Ok(content) => content.clone(),
        Err(_) => "none".to_owned(),
    }
}

} // verus!
