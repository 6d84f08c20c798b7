//! Round-trip tests: for every domain type and every enumerated variant,
//! decoding an encoding yields the original value and consumes exactly the
//! encoded bytes.

use wx_store::domain::{
    Coordinates, Event, EventType, FetchFailure, HazardType, Location, MesoscaleDiscussion,
    MdConcerning, Outlook, OutlookRisk, Report, RiskArea, SwoType, Units, Warning, Watch,
    WatchStatus, WatchType, WxApp,
};
use wx_store::domain_codec::{
    decode_coordinates, decode_event, decode_event_type, decode_events_vec, decode_fetch_failure,
    decode_fetch_failures_vec, decode_hazard, decode_location, decode_md, decode_md_concerning,
    decode_outlook, decode_report, decode_risk, decode_swo_type, decode_units, decode_watch,
    decode_watch_status, decode_watch_type, decode_wx_app, encode_coordinates, encode_event,
    encode_event_type, encode_events_vec, encode_fetch_failure, encode_fetch_failures_vec,
    encode_hazard, encode_location, encode_md, encode_md_concerning, encode_outlook,
    encode_report, encode_risk, encode_swo_type, encode_units, encode_warning, encode_watch,
    encode_watch_status, encode_watch_type, encode_wx_app, decode_warning,
};

fn sample_location() -> Location {
    Location {
        wfo: Some("EAX".to_string()),
        point: Some(Coordinates { lat: 39_100_000, lon: -94_580_000 }),
        poly: Some(vec![
            Coordinates { lat: 39_000_000, lon: -94_000_000 },
            Coordinates { lat: 38_500_000, lon: -95_250_000 },
            Coordinates { lat: 40_000_000, lon: -93_125_000 },
        ]),
        county: Some("Jackson".to_string()),
    }
}

fn sample_report() -> Report {
    Report {
        reporter: "Trained Spotter".to_string(),
        hazard: HazardType::Hail,
        magnitude: Some(175),
        units: Some(Units::Inches),
        was_measured: Some(true),
        report_ts: None,
    }
}

fn sample_warning() -> Warning {
    Warning {
        is_pds: true,
        is_tor_emergency: Some(false),
        was_observed: Some(true),
        issued_for: "Jackson County".to_string(),
        motion_deg: Some(245),
        motion_kt: Some(35),
        source: Some("radar indicated".to_string()),
        time: "2018-11-25T22:46:23+00:00".to_string(),
    }
}

fn sample_watch() -> Watch {
    Watch {
        is_pds: false,
        id: 441,
        watch_type: WatchType::Tornado,
        status: WatchStatus::Issued,
        issued_for: Some("eastern Kansas".to_string()),
    }
}

fn sample_outlook() -> Outlook {
    Outlook {
        swo_type: SwoType::Day1,
        max_risk: OutlookRisk::ENH,
        polys: Some(vec![
            RiskArea {
                risk: OutlookRisk::SLGT,
                poly: vec![Coordinates { lat: 35_000_000, lon: -97_000_000 }],
            },
            RiskArea {
                risk: OutlookRisk::ENH,
                poly: vec![
                    Coordinates { lat: 35_500_000, lon: -97_500_000 },
                    Coordinates { lat: 36_000_000, lon: -98_000_000 },
                ],
            },
        ]),
    }
}

fn sample_md() -> MesoscaleDiscussion {
    MesoscaleDiscussion {
        id: 1551,
        affected: "portions of central Oklahoma".to_string(),
        concerning: MdConcerning::NewTorWatch,
        watch_issuance_probability: Some(80),
        wfos: vec!["OUN".to_string(), "TSA".to_string()],
    }
}

fn rich_event() -> Event {
    Event {
        event_ts: 1_543_185_983_000_000,
        event_type: EventType::NwsTor,
        expires_ts: Some(1_543_189_583_000_000),
        ext_uri: Some("https://example.org/warning".to_string()),
        ingest_ts: 1_543_185_984_000_000,
        location: Some(sample_location()),
        md: None,
        outlook: None,
        report: None,
        text: Some("Tornado warning for Jackson County".to_string()),
        title: "Tornado Warning".to_string(),
        valid_ts: Some(1_543_185_983_000_000),
        warning: Some(sample_warning()),
        watch: None,
    }
}

#[test]
fn event_type_variants_round_trip() {
    let variants = vec![
        EventType::SnReport,
        EventType::SpcSfcoa,
        EventType::NwsAfd,
        EventType::NwsFfa,
        EventType::NwsFla,
        EventType::NwsFfw,
        EventType::NwsFlw,
        EventType::NwsLsr,
        EventType::NwsPts,
        EventType::NwsSel,
        EventType::NwsSev,
        EventType::NwsSvr,
        EventType::NwsSvs,
        EventType::NwsSwo,
        EventType::NwsTor,
    ];
    for v in variants {
        let mut buf: Vec<u8> = Vec::new();
        encode_event_type(&mut buf, v);
        let (out, end) = decode_event_type(&buf, 0).unwrap();
        assert_eq!(out, v);
        assert_eq!(end, buf.len());
    }
}

#[test]
fn hazard_variants_round_trip() {
    let variants = vec![
        HazardType::Tornado,
        HazardType::Funnel,
        HazardType::WallCloud,
        HazardType::Hail,
        HazardType::Wind,
        HazardType::Flood,
        HazardType::FlashFlood,
        HazardType::Other { kind: "dust storm".to_string() },
        HazardType::FreezingRain,
        HazardType::Snow,
        HazardType::Downburst,
        HazardType::HeavyRain,
        HazardType::MarineWind,
        HazardType::Lightning,
        HazardType::Waterspout,
        HazardType::Wildfire,
    ];
    for v in variants {
        let mut buf: Vec<u8> = Vec::new();
        encode_hazard(&mut buf, &v);
        let (out, end) = decode_hazard(&buf, 0).unwrap();
        assert_eq!(out, v);
        assert_eq!(end, buf.len());
    }
}

#[test]
fn hazard_other_preserves_kind_exactly() {
    let v = HazardType::Other { kind: "dust storm".to_string() };
    let mut buf: Vec<u8> = Vec::new();
    encode_hazard(&mut buf, &v);
    let (out, _) = decode_hazard(&buf, 0).unwrap();
    match &out {
        HazardType::Other { kind } => assert_eq!(kind, "dust storm"),
        _ => panic!("expected the free-form hazard"),
    }
    let fixed = vec![
        HazardType::Tornado,
        HazardType::Funnel,
        HazardType::WallCloud,
        HazardType::Hail,
        HazardType::Wind,
        HazardType::Flood,
        HazardType::FlashFlood,
        HazardType::FreezingRain,
        HazardType::Snow,
        HazardType::Downburst,
        HazardType::HeavyRain,
        HazardType::MarineWind,
        HazardType::Lightning,
        HazardType::Waterspout,
        HazardType::Wildfire,
    ];
    for f in fixed {
        assert_ne!(out, f);
    }
}

#[test]
fn small_enums_round_trip() {
    for v in vec![Units::Knots, Units::Mph, Units::Inches] {
        let mut buf: Vec<u8> = Vec::new();
        encode_units(&mut buf, v);
        assert_eq!(decode_units(&buf, 0).unwrap(), (v, buf.len()));
    }
    for v in vec![WatchType::Tornado, WatchType::SevereThunderstorm, WatchType::Other] {
        let mut buf: Vec<u8> = Vec::new();
        encode_watch_type(&mut buf, v);
        assert_eq!(decode_watch_type(&buf, 0).unwrap(), (v, buf.len()));
    }
    for v in vec![WatchStatus::Issued, WatchStatus::Cancelled, WatchStatus::Unknown] {
        let mut buf: Vec<u8> = Vec::new();
        encode_watch_status(&mut buf, v);
        assert_eq!(decode_watch_status(&buf, 0).unwrap(), (v, buf.len()));
    }
    for v in vec![
        SwoType::Day1,
        SwoType::Day2,
        SwoType::Day3,
        SwoType::Day48,
        SwoType::MesoscaleDiscussion,
        SwoType::Unknown,
    ] {
        let mut buf: Vec<u8> = Vec::new();
        encode_swo_type(&mut buf, v);
        assert_eq!(decode_swo_type(&buf, 0).unwrap(), (v, buf.len()));
    }
    for v in vec![
        OutlookRisk::TSTM,
        OutlookRisk::MRGL,
        OutlookRisk::SLGT,
        OutlookRisk::ENH,
        OutlookRisk::MDT,
        OutlookRisk::HIGH,
    ] {
        let mut buf: Vec<u8> = Vec::new();
        encode_risk(&mut buf, v);
        assert_eq!(decode_risk(&buf, 0).unwrap(), (v, buf.len()));
    }
    for v in vec![
        MdConcerning::ExistingTorWatch,
        MdConcerning::ExistingSvrWatch,
        MdConcerning::NewTorWatch,
        MdConcerning::NewSvrWatch,
        MdConcerning::Unknown,
    ] {
        let mut buf: Vec<u8> = Vec::new();
        encode_md_concerning(&mut buf, v);
        assert_eq!(decode_md_concerning(&buf, 0).unwrap(), (v, buf.len()));
    }
    for v in vec![
        WxApp::SpotterNetworkLoader,
        WxApp::NwsApiLoader,
        WxApp::SpcSfcoaLoader,
        WxApp::FetchFailureLoader,
        WxApp::Admin,
    ] {
        let mut buf: Vec<u8> = Vec::new();
        encode_wx_app(&mut buf, v);
        assert_eq!(decode_wx_app(&buf, 0).unwrap(), (v, buf.len()));
    }
}

#[test]
fn coordinates_round_trip() {
    let c = Coordinates { lat: -37_813_600, lon: 144_963_100 };
    let mut buf: Vec<u8> = Vec::new();
    encode_coordinates(&mut buf, &c);
    assert_eq!(buf.len(), 8);
    assert_eq!(decode_coordinates(&buf, 0).unwrap(), (c, 8));
}

#[test]
fn location_round_trip() {
    let l = sample_location();
    let mut buf: Vec<u8> = Vec::new();
    encode_location(&mut buf, &l);
    let (out, end) = decode_location(&buf, 0).unwrap();
    assert_eq!(out, l);
    assert_eq!(end, buf.len());
    let empty = Location { wfo: None, point: None, poly: None, county: None };
    let mut buf2: Vec<u8> = Vec::new();
    encode_location(&mut buf2, &empty);
    assert_eq!(decode_location(&buf2, 0).unwrap(), (empty, buf2.len()));
}

#[test]
fn report_round_trip() {
    let r = sample_report();
    let mut buf: Vec<u8> = Vec::new();
    encode_report(&mut buf, &r);
    let (out, end) = decode_report(&buf, 0).unwrap();
    assert_eq!(out, r);
    assert_eq!(end, buf.len());
}

#[test]
fn watch_round_trip() {
    let w = sample_watch();
    let mut buf: Vec<u8> = Vec::new();
    encode_watch(&mut buf, &w);
    assert_eq!(decode_watch(&buf, 0).unwrap(), (w, buf.len()));
}

#[test]
fn warning_round_trip() {
    let w = sample_warning();
    let mut buf: Vec<u8> = Vec::new();
    encode_warning(&mut buf, &w);
    assert_eq!(decode_warning(&buf, 0).unwrap(), (w, buf.len()));
}

#[test]
fn outlook_round_trip() {
    let o = sample_outlook();
    let mut buf: Vec<u8> = Vec::new();
    encode_outlook(&mut buf, &o);
    assert_eq!(decode_outlook(&buf, 0).unwrap(), (o, buf.len()));
    let bare = Outlook { swo_type: SwoType::Unknown, max_risk: OutlookRisk::TSTM, polys: None };
    let mut buf2: Vec<u8> = Vec::new();
    encode_outlook(&mut buf2, &bare);
    assert_eq!(decode_outlook(&buf2, 0).unwrap(), (bare, buf2.len()));
}

#[test]
fn md_round_trip() {
    let m = sample_md();
    let mut buf: Vec<u8> = Vec::new();
    encode_md(&mut buf, &m);
    assert_eq!(decode_md(&buf, 0).unwrap(), (m, buf.len()));
}

#[test]
fn event_round_trip() {
    let e = rich_event();
    let mut buf: Vec<u8> = Vec::new();
    encode_event(&mut buf, &e);
    let (out, end) = decode_event(&buf, 0).unwrap();
    assert_eq!(out, e);
    assert_eq!(end, buf.len());
}

#[test]
fn minimal_event_round_trip() {
    let e = Event::new(7, EventType::NwsAfd, "Area Forecast Discussion".to_string());
    let mut buf: Vec<u8> = Vec::new();
    encode_event(&mut buf, &e);
    assert_eq!(decode_event(&buf, 0).unwrap(), (e, buf.len()));
}

#[test]
fn event_with_each_payload_round_trips() {
    let mut report_event = Event::new(1, EventType::SnReport, "report".to_string());
    report_event.report = Some(sample_report());
    let mut watch_event = Event::new(2, EventType::NwsSel, "watch".to_string());
    watch_event.watch = Some(sample_watch());
    let mut outlook_event = Event::new(3, EventType::NwsSwo, "outlook".to_string());
    outlook_event.outlook = Some(sample_outlook());
    let mut md_event = Event::new(4, EventType::NwsSev, "discussion".to_string());
    md_event.md = Some(sample_md());
    for e in vec![report_event, watch_event, outlook_event, md_event] {
        let mut buf: Vec<u8> = Vec::new();
        encode_event(&mut buf, &e);
        assert_eq!(decode_event(&buf, 0).unwrap(), (e, buf.len()));
    }
}

#[test]
fn event_list_round_trip() {
    let events = vec![
        rich_event(),
        Event::new(9, EventType::NwsLsr, "local storm report".to_string()),
    ];
    let mut buf: Vec<u8> = Vec::new();
    encode_events_vec(&mut buf, &events);
    let (out, end) = decode_events_vec(&buf, 0).unwrap();
    assert_eq!(out, events);
    assert_eq!(end, buf.len());
}

#[test]
fn fetch_failure_round_trip() {
    let f = FetchFailure { app: WxApp::NwsApiLoader, ingest_ts: 1_551_209_606_990_457 };
    let mut buf: Vec<u8> = Vec::new();
    encode_fetch_failure(&mut buf, &f);
    assert_eq!(decode_fetch_failure(&buf, 0).unwrap(), (f, buf.len()));
    let list = vec![
        FetchFailure { app: WxApp::SpotterNetworkLoader, ingest_ts: 1 },
        FetchFailure { app: WxApp::SpotterNetworkLoader, ingest_ts: 2 },
    ];
    let mut buf2: Vec<u8> = Vec::new();
    encode_fetch_failures_vec(&mut buf2, &list);
    assert_eq!(decode_fetch_failures_vec(&buf2, 0).unwrap(), (list, buf2.len()));
}

#[test]
fn truncated_event_fails_cleanly() {
    let e = rich_event();
    let mut buf: Vec<u8> = Vec::new();
    encode_event(&mut buf, &e);
    for cut in [0usize, 1, 7, 8, 12, buf.len() - 1] {
        assert!(decode_event(&buf[..cut], 0).is_none());
    }
}
