//! Calendar text for millisecond timestamps.

use vstd::prelude::*;

verus! {

/// The text that stands for the instant `millis` milliseconds after the Unix
/// epoch, in UTC: the date, the time of day with its milliseconds where they
/// are not zero, and the word `UTC`. It is `None` for an instant that lies
/// outside the years the calendar can hold.
pub uninterp spec fn utc_timestamp_text(millis: i64) -> Option<Seq<char>>;

/// Trusted: calls `chrono::DateTime::from_timestamp_millis` and, where that
/// gives an instant, turns it into text with the `Display` of
/// `chrono::DateTime<Utc>`. The contract gives that text the name
/// [`utc_timestamp_text`] and claims only that the outcome depends on
/// `millis` alone.
#[verifier::external_body]
pub(crate) fn format_utc_millis(millis: i64) -> (text: Option<String>)
    ensures
        text is Some <==> utc_timestamp_text(millis) is Some,
        text matches Some(t) ==> utc_timestamp_text(millis) == Some(t@),
{
    match chrono::DateTime::from_timestamp_millis(millis) {
        Some(instant) => Some(instant.to_string()),
        None => None,
    }
}

} // verus!
