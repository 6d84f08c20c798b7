//! Framing, status dispatch, request payloads and fetch-failure aggregation.

use wx_store::codec::encode_string;
use wx_store::domain::{Event, EventType, FetchFailure, WxApp};
use wx_store::domain_codec::{encode_event, encode_events_vec, encode_fetch_failures_vec};
use wx_store::error::Error;
use wx_store::protocol::{
    aggregate_fetch_failures, build_request, decode_events_reply, decode_fetch_failures_reply,
    decode_put_event_reply, get_all_events_request, get_events_request, get_fetch_failures_request,
    get_request, parse_reply, put_event_request, put_fetch_failure_request, Command, Status,
};

#[test]
fn command_bytes_round_trip() {
    let all = vec![
        Command::Put,
        Command::Get,
        Command::PutEvent,
        Command::GetEvents,
        Command::GetAllEvents,
        Command::PutFetchFailure,
        Command::GetFetchFailures,
    ];
    for (i, c) in all.iter().enumerate() {
        assert_eq!(c.value(), i as u8);
        assert_eq!(Command::from(i as u8), Some(*c));
    }
    assert_eq!(Command::from(7), None);
    assert_eq!(Command::from(255), None);
}

#[test]
fn status_bytes_round_trip() {
    assert_eq!(Status::OkByte.value(), 0);
    assert_eq!(Status::ErrorByte.value(), 1);
    assert_eq!(Status::from(0), Some(Status::OkByte));
    assert_eq!(Status::from(1), Some(Status::ErrorByte));
    assert_eq!(Status::from(2), None);
}

#[test]
fn short_reply_is_protocol_error_never_a_panic() {
    for reply in [vec![], vec![0u8], vec![1u8], vec![9u8]] {
        match parse_reply(&reply) {
            Err(Error::Protocol(w)) => assert_eq!(w.message, "invalid response payload"),
            _ => panic!("expected a protocol error"),
        }
    }
}

#[test]
fn ok_status_yields_payload() {
    let reply = vec![0u8, 10, 20, 30];
    assert_eq!(parse_reply(&reply).unwrap(), vec![10, 20, 30]);
}

#[test]
fn error_status_yields_application_error_with_message() {
    let mut reply = vec![1u8];
    encode_string(&mut reply, "no such key");
    match parse_reply(&reply) {
        Err(Error::Application(w)) => assert_eq!(w.message, "no such key"),
        _ => panic!("expected the store's error"),
    }
}

#[test]
fn error_status_with_bad_message_is_encoding_error() {
    // A length prefix of 2 followed by invalid UTF-8.
    let reply = vec![1u8, 2, 0, 0, 0, 0, 0, 0, 0, 0xff, 0xfe];
    match parse_reply(&reply) {
        Err(Error::Encoding(_)) => {},
        _ => panic!("expected an encoding error"),
    }
}

#[test]
fn unknown_status_is_protocol_error() {
    for status in [2u8, 3, 200] {
        let reply = vec![status, 0, 0];
        match parse_reply(&reply) {
            Err(Error::Protocol(w)) => assert_eq!(w.message, "unknown response payload"),
            _ => panic!("expected a protocol error"),
        }
    }
}

#[test]
fn get_events_request_payloads() {
    assert_eq!(get_events_request(0), vec![3u8]);
    let r = get_events_request(1_543_185_983_000_000);
    let mut expected = vec![3u8];
    encode_string(&mut expected, "1543185983000000");
    assert_eq!(r, expected);
    let r1 = get_events_request(7);
    let mut expected1 = vec![3u8];
    encode_string(&mut expected1, "7");
    assert_eq!(r1, expected1);
}

#[test]
fn request_framing() {
    assert_eq!(build_request(Command::Get, &[5, 6]), vec![1u8, 5, 6]);
    assert_eq!(get_all_events_request(), vec![4u8]);
    assert_eq!(get_fetch_failures_request(), vec![6u8]);
    let mut expected_get = vec![1u8];
    encode_string(&mut expected_get, "some-key");
    assert_eq!(get_request("some-key"), expected_get);
    let e = Event::new(5, EventType::NwsSwo, "outlook".to_string());
    let mut expected_pe = vec![2u8];
    encode_event(&mut expected_pe, &e);
    assert_eq!(put_event_request(&e), expected_pe);
    let f = FetchFailure { app: WxApp::Admin, ingest_ts: 17 };
    let r = put_fetch_failure_request(&f);
    assert_eq!(r[0], 5u8);
}

#[test]
fn put_event_reply_decodes_ingest_timestamp() {
    let payload = le_bytes_of(1_543_185_984_000_000);
    assert_eq!(decode_put_event_reply(&payload).unwrap(), 1_543_185_984_000_000);
    match decode_put_event_reply(&payload[..7]) {
        Err(Error::Serialization(_)) => {},
        _ => panic!("expected a serialization error"),
    }
    let mut long = payload.clone();
    long.push(0);
    match decode_put_event_reply(&long) {
        Err(Error::Serialization(_)) => {},
        _ => panic!("expected a serialization error"),
    }
}

fn le_bytes_of(v: u64) -> Vec<u8> {
    v.to_le_bytes().to_vec()
}

#[test]
fn events_reply_decodes_event_list() {
    let events = vec![
        Event::new(1, EventType::SnReport, "a".to_string()),
        Event::new(2, EventType::NwsLsr, "b".to_string()),
    ];
    let mut payload: Vec<u8> = Vec::new();
    encode_events_vec(&mut payload, &events);
    assert_eq!(decode_events_reply(&payload).unwrap(), events);
    match decode_events_reply(&payload[..payload.len() - 1]) {
        Err(Error::Serialization(_)) => {},
        _ => panic!("expected a serialization error"),
    }
}

#[test]
fn fetch_failures_reply_decodes_record_list() {
    let records = vec![
        FetchFailure { app: WxApp::SpotterNetworkLoader, ingest_ts: 100 },
        FetchFailure { app: WxApp::NwsApiLoader, ingest_ts: 200 },
    ];
    let mut payload: Vec<u8> = Vec::new();
    encode_fetch_failures_vec(&mut payload, &records);
    assert_eq!(decode_fetch_failures_reply(&payload).unwrap(), records);
}

#[test]
fn aggregation_counts_per_producer() {
    let records = vec![
        FetchFailure { app: WxApp::SpotterNetworkLoader, ingest_ts: 11 },
        FetchFailure { app: WxApp::SpotterNetworkLoader, ingest_ts: 22 },
        FetchFailure { app: WxApp::NwsApiLoader, ingest_ts: 33 },
    ];
    let counts = aggregate_fetch_failures(&records);
    assert_eq!(
        counts,
        vec![(WxApp::SpotterNetworkLoader, 2u16), (WxApp::NwsApiLoader, 1u16)]
    );
}

#[test]
fn aggregation_is_order_independent_and_counts_duplicates() {
    let records = vec![
        FetchFailure { app: WxApp::NwsApiLoader, ingest_ts: 33 },
        FetchFailure { app: WxApp::SpotterNetworkLoader, ingest_ts: 7 },
        FetchFailure { app: WxApp::SpotterNetworkLoader, ingest_ts: 7 },
    ];
    let reordered = vec![
        FetchFailure { app: WxApp::SpotterNetworkLoader, ingest_ts: 7 },
        FetchFailure { app: WxApp::NwsApiLoader, ingest_ts: 33 },
        FetchFailure { app: WxApp::SpotterNetworkLoader, ingest_ts: 7 },
    ];
    let a = aggregate_fetch_failures(&records);
    let b = aggregate_fetch_failures(&reordered);
    assert_eq!(a, b);
    assert_eq!(
        a,
        vec![(WxApp::SpotterNetworkLoader, 2u16), (WxApp::NwsApiLoader, 1u16)]
    );
}

#[test]
fn aggregation_of_empty_list_is_empty() {
    let counts = aggregate_fetch_failures(&Vec::new());
    assert_eq!(counts, Vec::<(WxApp, u16)>::new());
}

#[test]
fn error_accessors() {
    let e = Error::Transport(wx_store::error::WxError::new("receive timed out"));
    assert_eq!(e.message().as_str(), "receive timed out");
    assert_eq!(e.kind(), "transport");
    let io = Error::Io(wx_store::error::WxError::new("pipe closed"));
    assert_eq!(io.kind(), "io");
}
