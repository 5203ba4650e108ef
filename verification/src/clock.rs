//! The wall clock, as the text that new blocks are stamped with.

use vstd::prelude::*;

verus! {

/// Calls `chrono::Utc::now` and renders the instant with `to_string`, which
/// goes through the `Display` impl of `chrono::DateTime<Utc>`.
///
/// Trusted, and nothing is claimed of the text: it differs from call to
/// call. `Utc::now` stops the program if the system clock stands before
/// 1970.
#[verifier::external_body]
pub(crate) fn utc_now_text() -> String {
    chrono::Utc::now().to_string()
}

} // verus!
