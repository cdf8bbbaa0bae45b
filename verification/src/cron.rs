//! The one gate to the cron evaluator of the `croner` crate.
//!
//! What instant a cron expression fires at next is far too large a
//! function to restate here, but it is a function of the expression and
//! the start instant alone, so it is given a name, `cron_next_after`,
//! and the library's contracts speak of that name.

use std::str::FromStr;

use vstd::prelude::*;

verus! {

/// The next occurrence of the cron expression `expr` strictly after the
/// instant `after` (seconds since the epoch), or `None` when the
/// expression does not parse or no occurrence can be found.
pub uninterp spec fn cron_next_after(expr: Seq<char>, after: int) -> Option<i64>;

/// Relies on `croner::Cron::from_str` and `Cron::find_next_occurrence`
/// (croner 4, evaluated in UTC): for a fixed expression and start instant
/// the outcome is deterministic, and with `inclusive = false` a found
/// occurrence lies strictly after the start instant.
#[verifier::external_body]
pub(crate) fn cron_next_occurrence(expr: &str, after: i64) -> (r: Option<i64>)
    ensures
        r == cron_next_after(expr@, after as int),
        match r {
            Some(t) => t > after,
            None => true,
        },
{
    let cron = match croner::Cron::from_str(expr) {
        Ok(c) => c,
        Err(_) => return None,
    };
    let start = match chrono::DateTime::<chrono::Utc>::from_timestamp(after, 0) {
        Some(s) => s,
        None => return None,
    };
    match cron.find_next_occurrence(&start, false) {
        Ok(next) => Some(next.timestamp()),
        Err(_) => None,
    }
}

} // verus!
