//! Calendar dates, held as the text that chrono writes for them.
//!
//! Reading a timestamp is left to chrono. What it returns is a function of
//! the text alone, too long to restate here, so it is given a name and the
//! contracts of this library speak of that name.

use vstd::prelude::*;

verus! {

/// The error that chrono reports for text it cannot read.
#[verifier::external_type_specification]
#[verifier::external_body]
pub struct ExParseError(chrono::ParseError);

/// The calendar date of an RFC 3339 timestamp, as chrono reads `text` and
/// writes the date of the result in the timestamp's own offset; `None` where
/// chrono rejects `text`.
pub uninterp spec fn rfc3339_date(text: Seq<char>) -> Option<Seq<char>>;

/// The calendar date that chrono reads from `text` under the format
/// `format`, as chrono writes it; `None` where chrono rejects the text or the
/// format.
pub uninterp spec fn formatted_date(text: Seq<char>, format: Seq<char>) -> Option<Seq<char>>;

/// Calls `chrono::DateTime::parse_from_rfc3339`, takes the date of the result
/// with `date_naive` and writes it with `to_string`. The contract claims only
/// that the outcome is the one named [`rfc3339_date`]: the same text gives the
/// same date, or is rejected, every time.
#[verifier::external_body]
fn read_rfc3339_date(text: &str) -> (date: Result<String, chrono::ParseError>)
    ensures
        date matches Ok(d) ==> rfc3339_date(text@) == Some(d@),
        date is Err ==> rfc3339_date(text@) is None,
{
    match chrono::DateTime::parse_from_rfc3339(text) {
        Ok(stamp) => Ok(stamp.date_naive().to_string()),
        Err(e) => Err(e),
    }
}

/// Calls `chrono::NaiveDate::parse_from_str` and writes the result with
/// `to_string`. The contract claims only that the outcome is the one named
/// [`formatted_date`].
#[verifier::external_body]
fn read_formatted_date(text: &str, format: &str) -> (date: Result<String, chrono::ParseError>)
    ensures
        date matches Ok(d) ==> formatted_date(text@, format@) == Some(d@),
        date is Err ==> formatted_date(text@, format@) is None,
{
    match chrono::NaiveDate::parse_from_str(text, format) {
        Ok(day) => Ok(day.to_string()),
        Err(e) => Err(e),
    }
}

/// The format of a calendar date: year, month and day, joined by hyphens.
pub open spec fn day_format() -> Seq<char> {
    "%Y-%m-%d"@
}

/// The calendar date of a day written as year, month and day; `None` where
/// the text is no such day.
pub open spec fn day_date(text: Seq<char>) -> Option<Seq<char>> {
    formatted_date(text, day_format())
}

/// The view of an optional string.
pub open spec fn text_of(s: Option<String>) -> Option<Seq<char>> {
    match s {
        Some(t) => Some(t@),
        None => None,
    }
}

/// The calendar date of the RFC 3339 timestamp `text`, or `None` where it is
/// not a timestamp.
pub fn timestamp_date(text: &str) -> (date: Option<String>)
    ensures
        text_of(date) == rfc3339_date(text@),
{
    match read_rfc3339_date(text) {
        Ok(d) => Some(d),
        Err(_) => None,
    }
}

/// The calendar date written in `text` as year, month and day, or `None`
/// where it is no such date.
pub fn parse_day(text: &str) -> (date: Option<String>)
    ensures
        text_of(date) == day_date(text@),
{
    match read_formatted_date(text, "%Y-%m-%d") {
        Ok(d) => Some(d),
        Err(_) => None,
    }
}

} // verus!
