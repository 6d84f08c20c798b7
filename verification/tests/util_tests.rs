//! Feed-text helper tests: timestamp parsing and the time-zone table.

use wx_store::error::Error;
use wx_store::util::{ts_to_ticks, tz_to_offset};

#[test]
fn ts_to_ticks_should_return_ticks() {
    let ts = "2018-11-25T22:46:23+00:00";
    let result = ts_to_ticks(&ts).unwrap();
    assert_eq!(result, 1543185983000000);
}

#[test]
fn ts_to_ticks_epoch_start() {
    assert_eq!(ts_to_ticks("1970-01-01T00:00:00+00:00").unwrap(), 0);
}

#[test]
fn ts_to_ticks_rejects_malformed_text() {
    for bad in ["", "yesterday", "2018-11-25 22:46:23", "2018-13-40T99:99:99+00:00"] {
        match ts_to_ticks(bad) {
            Err(Error::Parse(w)) => assert_eq!(w.message, "invalid timestamp"),
            _ => panic!("expected a parse error"),
        }
    }
}

#[test]
fn ts_to_ticks_rejects_times_before_the_epoch() {
    match ts_to_ticks("1969-12-31T23:59:59+00:00") {
        Err(Error::Parse(w)) => assert_eq!(w.message, "timestamp out of range"),
        _ => panic!("expected a parse error"),
    }
}

#[test]
fn tz_to_offset_maps_every_known_abbreviation() {
    let table = vec![
        ("HST", "-1000"),
        ("HDT", "-0900"),
        ("AKST", "-0900"),
        ("AKDT", "-0800"),
        ("PST", "-0800"),
        ("PDT", "-0700"),
        ("MST", "-0700"),
        ("MDT", "-0600"),
        ("CST", "-0600"),
        ("CDT", "-0500"),
        ("EST", "-0500"),
        ("EDT", "-0400"),
        ("AST", "-0400"),
        ("ADT", "-0300"),
    ];
    for (abbr, offset) in table {
        assert_eq!(tz_to_offset(abbr).unwrap(), offset);
    }
}

#[test]
fn tz_to_offset_rejects_unknown_abbreviations() {
    for bad in ["UTC", "GMT", "", "cst"] {
        match tz_to_offset(bad) {
            Err(Error::Parse(w)) => assert_eq!(w.message, "unknown timezone"),
            _ => panic!("expected a parse error"),
        }
    }
}
