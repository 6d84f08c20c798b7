//! Domain invariants: the outlook's max-risk rule and event payload
//! consistency.

use wx_store::domain::{
    Coordinates, Event, EventType, HazardType, Outlook, OutlookRisk, Report, RiskArea, SwoType,
};

fn poly() -> Vec<Coordinates> {
    vec![Coordinates { lat: 35_000_000, lon: -97_000_000 }]
}

#[test]
fn outlook_max_risk_must_be_greatest_key_present() {
    let violating = Outlook {
        swo_type: SwoType::Day1,
        max_risk: OutlookRisk::MDT,
        polys: Some(vec![
            RiskArea { risk: OutlookRisk::SLGT, poly: poly() },
            RiskArea { risk: OutlookRisk::ENH, poly: poly() },
        ]),
    };
    assert!(!violating.is_well_formed());
    let correct = Outlook {
        swo_type: SwoType::Day1,
        max_risk: OutlookRisk::ENH,
        polys: Some(vec![
            RiskArea { risk: OutlookRisk::SLGT, poly: poly() },
            RiskArea { risk: OutlookRisk::ENH, poly: poly() },
        ]),
    };
    assert!(correct.is_well_formed());
}

#[test]
fn outlook_with_risk_above_max_is_rejected() {
    let violating = Outlook {
        swo_type: SwoType::Day2,
        max_risk: OutlookRisk::SLGT,
        polys: Some(vec![RiskArea { risk: OutlookRisk::HIGH, poly: poly() }]),
    };
    assert!(!violating.is_well_formed());
}

#[test]
fn outlook_with_duplicate_risk_levels_is_rejected() {
    let violating = Outlook {
        swo_type: SwoType::Day1,
        max_risk: OutlookRisk::SLGT,
        polys: Some(vec![
            RiskArea { risk: OutlookRisk::SLGT, poly: poly() },
            RiskArea { risk: OutlookRisk::SLGT, poly: poly() },
        ]),
    };
    assert!(!violating.is_well_formed());
}

#[test]
fn outlook_without_polys_is_well_formed() {
    let o = Outlook { swo_type: SwoType::Unknown, max_risk: OutlookRisk::TSTM, polys: None };
    assert!(o.is_well_formed());
    let empty = Outlook {
        swo_type: SwoType::Day3,
        max_risk: OutlookRisk::HIGH,
        polys: Some(Vec::new()),
    };
    assert!(empty.is_well_formed());
}

#[test]
fn risk_levels_are_totally_ordered() {
    let order = vec![
        OutlookRisk::TSTM,
        OutlookRisk::MRGL,
        OutlookRisk::SLGT,
        OutlookRisk::ENH,
        OutlookRisk::MDT,
        OutlookRisk::HIGH,
    ];
    for (i, r) in order.iter().enumerate() {
        assert_eq!(r.rank() as usize, i);
    }
}

#[test]
fn new_event_has_no_optional_fields() {
    let e = Event::new(123, EventType::NwsAfd, "forecast discussion".to_string());
    assert_eq!(e.event_ts, 123);
    assert_eq!(e.event_type, EventType::NwsAfd);
    assert_eq!(e.title, "forecast discussion");
    assert_eq!(e.ingest_ts, 0);
    assert!(e.expires_ts.is_none());
    assert!(e.ext_uri.is_none());
    assert!(e.location.is_none());
    assert!(e.md.is_none());
    assert!(e.outlook.is_none());
    assert!(e.report.is_none());
    assert!(e.text.is_none());
    assert!(e.valid_ts.is_none());
    assert!(e.warning.is_none());
    assert!(e.watch.is_none());
}

#[test]
fn payload_consistency_checks_type_against_slots() {
    let mut e = Event::new(1, EventType::SnReport, "report".to_string());
    // A spotter report event without a report payload is inconsistent.
    assert!(!e.is_payload_consistent());
    e.report = Some(Report {
        reporter: "spotter".to_string(),
        hazard: HazardType::Wind,
        magnitude: None,
        units: None,
        was_measured: None,
        report_ts: None,
    });
    assert!(e.is_payload_consistent());
    // A spotter report never carries a report timestamp.
    e.report.as_mut().unwrap().report_ts = Some(55);
    assert!(!e.is_payload_consistent());
    // Local storm reports do carry one.
    e.event_type = EventType::NwsLsr;
    assert!(e.is_payload_consistent());
    // At most one payload slot may be populated.
    e.outlook = Some(Outlook {
        swo_type: SwoType::Day1,
        max_risk: OutlookRisk::TSTM,
        polys: None,
    });
    assert!(!e.is_payload_consistent());
}
