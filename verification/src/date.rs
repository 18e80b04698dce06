//! Week starts as text.

use vstd::prelude::*;

verus! {

/// The month and year in which a unix timestamp falls in UTC, as chrono
/// writes them: the abbreviated English month name, a space, the year.
pub uninterp spec fn month_and_year(timestamp: u32) -> Seq<char>;

/// Calls `chrono::DateTime::from_timestamp`, then `DateTime::format` with
/// `%b` and `Datelike::year`.
///
/// Trusted: the text depends on the timestamp alone. `from_timestamp` answers
/// `None` only for days outside chrono's range of years, which no `u32`
/// reaches, and `%b` is a format that chrono accepts, so nothing panics.
#[verifier::external_body]
fn month_and_year_of(timestamp: u32) -> (text: String)
    ensures
        text@ == month_and_year(timestamp),
{
    let moment = chrono::DateTime::from_timestamp(timestamp as i64, 0).unwrap();
    format!("{} {}", moment.format("%b"), chrono::Datelike::year(&moment))
}

/// The month and year of a week start, such as `Feb 2013`.
pub fn convert_timestamp_to_month_and_year(timestamp: &u32) -> (text: String)
    ensures
        text@ == month_and_year(*timestamp),
{
    month_and_year_of(*timestamp)
}

} // verus!
