//! Feed-text helpers: parsing the fixed feed timestamp format into store
//! ticks, and the North American time-zone abbreviation table.
//!
//! Ticks are microseconds since the epoch, the same unit as
//! `Event::event_ts`, applied uniformly.

use vstd::prelude::*;
use crate::error::{Error, WxError};

verus! {

broadcast use vstd::string::group_string_axioms;

/// What chrono parses the fixed-format feed timestamp to: epoch seconds on
/// success.  The result is a function of the input text alone.
pub uninterp spec fn utc_secs_of(s: Seq<char>) -> Result<i64, ()>;

/// Relies on chrono's `NaiveDateTime::parse_from_str` with the fixed feed
/// format `%Y-%m-%dT%H:%M:%S+00:00` and on `DateTime::timestamp`: together
/// they map the input text alone to epoch seconds, or fail on text that does
/// not match the format.
#[verifier::external_body]
fn parse_utc_secs(input: &str) -> (r: Result<i64, ()>)
    ensures
        r == utc_secs_of(input@),
{
    match chrono::NaiveDateTime::parse_from_str(input, "%Y-%m-%dT%H:%M:%S+00:00") {
        Ok(dt) => Ok(dt.and_utc().timestamp()),
        Err(_) => Err(()),
    }
}

/// Parses a `YYYY-MM-DDTHH:MM:SS+00:00` feed timestamp into ticks
/// (microseconds since the epoch).  Text that does not match the format, or
/// a time outside the tick range, is a parse error.
pub fn ts_to_ticks(input: &str) -> (r: Result<u64, Error>)
    ensures
        (match utc_secs_of(input@) {
            Ok(secs) => {
                if 0 <= secs && secs <= 18_446_744_073_709i64 {
                    r == Ok::<u64, Error>((secs * 1_000_000) as u64)
                } else {
                    r matches Err(e) && e matches Error::Parse(w) && w.message@
                        == "timestamp out of range"@
                }
            },
            Err(_) => r matches Err(e) && e matches Error::Parse(w) && w.message@
                == "invalid timestamp"@,
        }),
{
    match parse_utc_secs(input) {
        Ok(secs) => {
            if secs >= 0 && secs <= 18_446_744_073_709i64 {
                Ok((secs as u64) * 1_000_000)
            } else {
                Err(Error::Parse(WxError::new("timestamp out of range")))
            }
        },
        Err(_) => Err(Error::Parse(WxError::new("invalid timestamp"))),
    }
}

/// Maps a North American time-zone abbreviation to its fixed UTC offset in
/// `&plusmn;HHMM` form.  An unknown abbreviation is an error, never a
/// default.
pub fn tz_to_offset(input: &str) -> (r: Result<&'static str, Error>)
    ensures
        input@ == "HST"@ ==> (r matches Ok(o) && o@ == "-1000"@),
        input@ == "HDT"@ ==> (r matches Ok(o) && o@ == "-0900"@),
        input@ == "AKST"@ ==> (r matches Ok(o) && o@ == "-0900"@),
        input@ == "AKDT"@ ==> (r matches Ok(o) && o@ == "-0800"@),
        input@ == "PST"@ ==> (r matches Ok(o) && o@ == "-0800"@),
        input@ == "PDT"@ ==> (r matches Ok(o) && o@ == "-0700"@),
        input@ == "MST"@ ==> (r matches Ok(o) && o@ == "-0700"@),
        input@ == "MDT"@ ==> (r matches Ok(o) && o@ == "-0600"@),
        input@ == "CST"@ ==> (r matches Ok(o) && o@ == "-0600"@),
        input@ == "CDT"@ ==> (r matches Ok(o) && o@ == "-0500"@),
        input@ == "EST"@ ==> (r matches Ok(o) && o@ == "-0500"@),
        input@ == "EDT"@ ==> (r matches Ok(o) && o@ == "-0400"@),
        input@ == "AST"@ ==> (r matches Ok(o) && o@ == "-0400"@),
        input@ == "ADT"@ ==> (r matches Ok(o) && o@ == "-0300"@),
        (input@ != "HST"@ && input@ != "HDT"@ && input@ != "AKST"@ && input@ != "AKDT"@ && input@
            != "PST"@ && input@ != "PDT"@ && input@ != "MST"@ && input@ != "MDT"@ && input@
            != "CST"@ && input@ != "CDT"@ && input@ != "EST"@ && input@ != "EDT"@ && input@
            != "AST"@ && input@ != "ADT"@) ==> (r matches Err(e) && e matches Error::Parse(w)
            && w.message@ == "unknown timezone"@),
{
    proof {
        reveal_strlit("HST");
        reveal_strlit("HDT");
        reveal_strlit("AKST");
        reveal_strlit("AKDT");
        reveal_strlit("PST");
        reveal_strlit("PDT");
        reveal_strlit("MST");
        reveal_strlit("MDT");
        reveal_strlit("CST");
        reveal_strlit("CDT");
        reveal_strlit("EST");
        reveal_strlit("EDT");
        reveal_strlit("AST");
        reveal_strlit("ADT");
        assert("HST"@ =~= seq!['H', 'S', 'T']);
        assert("HDT"@ =~= seq!['H', 'D', 'T']);
        assert("AKST"@ =~= seq!['A', 'K', 'S', 'T']);
        assert("AKDT"@ =~= seq!['A', 'K', 'D', 'T']);
        assert("PST"@ =~= seq!['P', 'S', 'T']);
        assert("PDT"@ =~= seq!['P', 'D', 'T']);
        assert("MST"@ =~= seq!['M', 'S', 'T']);
        assert("MDT"@ =~= seq!['M', 'D', 'T']);
        assert("CST"@ =~= seq!['C', 'S', 'T']);
        assert("CDT"@ =~= seq!['C', 'D', 'T']);
        assert("EST"@ =~= seq!['E', 'S', 'T']);
        assert("EDT"@ =~= seq!['E', 'D', 'T']);
        assert("AST"@ =~= seq!['A', 'S', 'T']);
        assert("ADT"@ =~= seq!['A', 'D', 'T']);
    }
    let s = input.to_owned();
    if s == "HST".to_owned() {
        return Ok("-1000");
    }
    if s == "HDT".to_owned() {
        return Ok("-0900");
    }
    if s == "AKST".to_owned() {
        return Ok("-0900");
    }
    if s == "AKDT".to_owned() {
        return Ok("-0800");
    }
    if s == "PST".to_owned() {
        return Ok("-0800");
    }
    if s == "PDT".to_owned() {
        return Ok("-0700");
    }
    if s == "MST".to_owned() {
        return Ok("-0700");
    }
    if s == "MDT".to_owned() {
        return Ok("-0600");
    }
    if s == "CST".to_owned() {
        return Ok("-0600");
    }
    if s == "CDT".to_owned() {
        return Ok("-0500");
    }
    if s == "EST".to_owned() {
        return Ok("-0500");
    }
    if s == "EDT".to_owned() {
        return Ok("-0400");
    }
    if s == "AST".to_owned() {
        return Ok("-0400");
    }
    if s == "ADT".to_owned() {
        return Ok("-0300");
    }
    Err(Error::Parse(WxError::new("unknown timezone")))
}

} // verus!
