//! Dates as `chrono` reads and writes them. The library keeps a moment as
//! whole seconds since the Unix epoch and a calendar date as text.
use std::fmt::Write;
use vstd::prelude::*;

verus! {

/// The seconds since the Unix epoch of the moment that `s` writes in the
/// form of RFC 3339, as `chrono::DateTime::parse_from_rfc3339` reads it and
/// `chrono::DateTime::timestamp` counts it; `None` where `s` is not read.
pub uninterp spec fn rfc3339_seconds(s: Seq<char>) -> Option<i64>;

/// The RFC 3339 form, as `chrono::DateTime::to_rfc3339` writes it, of the
/// moment that `chrono::DateTime::parse_from_rfc3339` reads in `s`.
pub uninterp spec fn rfc3339_normal_form(s: Seq<char>) -> Option<Seq<char>>;

/// The RFC 3339 form, as `chrono::DateTime::to_rfc3339` writes it, of the
/// moment that `chrono::DateTime::parse_from_rfc2822` reads in `s`.
pub uninterp spec fn rfc2822_normal_form(s: Seq<char>) -> Option<Seq<char>>;

/// The date that `chrono::NaiveDate::parse_from_str` reads in `s` under
/// `format`, written back under the same format; `None` where `s` is not
/// read or the format cannot be written.
pub uninterp spec fn reformatted_date(s: Seq<char>, format: Seq<char>) -> Option<Seq<char>>;

/// The first stretch of `text` that `pattern` matches, as the `regex`
/// crate finds it; `None` where there is none or `pattern` is no pattern.
pub uninterp spec fn first_match(pattern: Seq<char>, text: Seq<char>) -> Option<Seq<char>>;

/// The calendar date that `s` writes as year, month and day.
pub open spec fn calendar_date(s: Seq<char>) -> Option<Seq<char>> {
    reformatted_date(s, "%Y-%m-%d"@)
}

/// The first stretch of `text` that looks like a calendar date: four
/// digits, two digits and two digits, with hyphens between.
pub open spec fn first_date_like(text: Seq<char>) -> Option<Seq<char>> {
    first_match("\\d{4}-\\d{2}-\\d{2}"@, text)
}

/// The character sequence of an optional string.
pub open spec fn text_of(s: Option<String>) -> Option<Seq<char>> {
    match s {
        Some(s) => Some(s@),
        None => None,
    }
}

/// Calls `chrono::DateTime::parse_from_rfc3339` and, on what it read,
/// `timestamp`. Trusted: the result depends on the characters alone.
#[verifier::external_body]
pub(crate) fn parse_rfc3339_seconds(s: &str) -> (r: Option<i64>)
    ensures
        r == rfc3339_seconds(s@),
{
    chrono::DateTime::parse_from_rfc3339(s).ok().map(|moment| moment.timestamp())
}

/// Calls `chrono::DateTime::parse_from_rfc3339` and, on what it read,
/// `to_rfc3339`. Trusted: the result depends on the characters alone.
#[verifier::external_body]
pub(crate) fn normalize_rfc3339(s: &str) -> (r: Option<String>)
    ensures
        text_of(r) == rfc3339_normal_form(s@),
{
    chrono::DateTime::parse_from_rfc3339(s).ok().map(|moment| moment.to_rfc3339())
}

/// Calls `chrono::DateTime::parse_from_rfc2822` and, on what it read,
/// `to_rfc3339`. Trusted: the result depends on the characters alone.
#[verifier::external_body]
pub(crate) fn normalize_rfc2822(s: &str) -> (r: Option<String>)
    ensures
        text_of(r) == rfc2822_normal_form(s@),
{
    chrono::DateTime::parse_from_rfc2822(s).ok().map(|moment| moment.to_rfc3339())
}

/// Calls `chrono::NaiveDate::parse_from_str` and writes what it read with
/// `chrono::NaiveDate::format`, both under `format`. Trusted: the result
/// depends on the two texts alone.
#[verifier::external_body]
pub(crate) fn reformat_date(s: &str, format: &str) -> (r: Option<String>)
    ensures
        text_of(r) == reformatted_date(s@, format@),
{
    let date = chrono::NaiveDate::parse_from_str(s, format).ok()?;
    let mut out = String::new();
    write!(out, "{}", date.format(format)).ok()?;
    Some(out)
}

/// Calls `regex::Regex::new` and `regex::Regex::find`. Trusted: the match
/// depends on the pattern and the text alone.
#[verifier::external_body]
pub(crate) fn find_first_match(pattern: &str, text: &str) -> (r: Option<String>)
    ensures
        text_of(r) == first_match(pattern@, text@),
{
    regex::Regex::new(pattern).ok()?.find(text).map(|found| found.as_str().to_string())
}

/// The date that a script's `edtf` makes of what the three readers found:
/// the moment of an RFC 2822 text, else that of an RFC 3339 text, else the
/// calendar date of the first date-like stretch, else nothing.
pub open spec fn edtf_of(
    rfc2822: Option<Seq<char>>,
    rfc3339: Option<Seq<char>>,
    date: Option<Seq<char>>,
) -> Seq<char> {
    match rfc2822 {
        Some(moment) => moment,
        None => match rfc3339 {
            Some(moment) => moment,
            None => match date {
                Some(day) => day,
                None => Seq::empty(),
            },
        },
    }
}

/// The calendar date that stands in `value`, if any.
pub open spec fn embedded_date(value: Seq<char>) -> Option<Seq<char>> {
    match first_date_like(value) {
        Some(found) => calendar_date(found),
        None => None,
    }
}

/// Picks among what the three readers found, as `edtf_of` says.
pub fn edtf_from(rfc2822: Option<String>, rfc3339: Option<String>, date: Option<String>) -> (r:
    String)
    ensures
        r@ == edtf_of(text_of(rfc2822), text_of(rfc3339), text_of(date)),
{
    match rfc2822 {
        Some(moment) => moment,
        None => match rfc3339 {
            Some(moment) => moment,
            None => match date {
                Some(day) => day,
                None => String::new(),
            },
        },
    }
}

/// The date of `value` in a uniform form: RFC 3339 for a moment written in
/// RFC 2822 or RFC 3339, `YYYY-MM-DD` for a text that holds such a date,
/// and the empty string for anything else.
pub fn edtf(value: &str) -> (r: String)
    ensures
        r@ == edtf_of(rfc2822_normal_form(value@), rfc3339_normal_form(value@), embedded_date(value@)),
{
    let rfc2822 = normalize_rfc2822(value);
    let rfc3339 = normalize_rfc3339(value);
    let date = match find_first_match("\\d{4}-\\d{2}-\\d{2}", value) {
        Some(found) => reformat_date(found.as_str(), "%Y-%m-%d"),
        None => None,
    };
    edtf_from(rfc2822, rfc3339, date)
}

} // verus!
