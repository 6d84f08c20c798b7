//! The typed event domain model.
//!
//! Every value here is a plain, independently owned record with value
//! semantics; events are immutable once stored, and a later correction is a
//! new event rather than a mutation.  Types whose fields carry strings or
//! lists come with a ghost view (`*V`) over mathematical sequences; the wire
//! codec's contracts and round-trip laws are stated over those views.
//!
//! Geographic coordinates and report magnitudes are carried as fixed-point
//! integers: latitudes and longitudes in millionths of a degree, magnitudes
//! in hundredths of a unit.  The model assumes no range normalization;
//! callers must supply valid degrees.

use vstd::prelude::*;

verus! {

/// The closed set of source feed kinds.  Across schema versions this set only
/// grows or gets pruned, never reinterpreted.
#[derive(Debug, Clone, Copy, PartialEq, Eq, Structural)]
pub enum EventType {
    SnReport,
    SpcSfcoa,
    NwsAfd,
    NwsFfa,
    NwsFla,
    NwsFfw,
    NwsFlw,
    NwsLsr,
    NwsPts,
    NwsSel,
    NwsSev,
    NwsSvr,
    NwsSvs,
    NwsSwo,
    NwsTor,
}

/// A single point, in millionths of a degree.
#[derive(Debug, Clone, Copy, PartialEq, Eq, Structural)]
pub struct Coordinates {
    pub lat: i32,
    pub lon: i32,
}

/// An optional forecast-office code, a single point, and/or a polygon
/// (ordered, the last point need not repeat the first).
#[derive(Debug, Clone, PartialEq)]
pub struct Location {
    pub wfo: Option<String>,
    pub point: Option<Coordinates>,
    pub poly: Option<Vec<Coordinates>>,
    pub county: Option<String>,
}

pub ghost struct LocationV {
    pub wfo: Option<Seq<char>>,
    pub point: Option<Coordinates>,
    pub poly: Option<Seq<Coordinates>>,
    pub county: Option<Seq<char>>,
}

impl View for Location {
    type V = LocationV;

    open spec fn view(&self) -> LocationV {
        LocationV {
            wfo: match self.wfo {
                Some(s) => Some(s@),
                None => None,
            },
            point: self.point,
            poly: match self.poly {
                Some(p) => Some(p@),
                None => None,
            },
            county: match self.county {
                Some(s) => Some(s@),
                None => None,
            },
        }
    }
}

/// The hazard observed by a spotter or local storm report.  Hazards outside
/// the fixed set are carried verbatim in `Other`.
#[derive(Debug, Clone, PartialEq, Eq)]
pub enum HazardType {
    Tornado,
    Funnel,
    WallCloud,
    Hail,
    Wind,
    Flood,
    FlashFlood,
    Other { kind: String },
    FreezingRain,
    Snow,
    Downburst,
    HeavyRain,
    MarineWind,
    Lightning,
    Waterspout,
    Wildfire,
}

pub ghost enum HazardTypeV {
    Tornado,
    Funnel,
    WallCloud,
    Hail,
    Wind,
    Flood,
    FlashFlood,
    Other { kind: Seq<char> },
    FreezingRain,
    Snow,
    Downburst,
    HeavyRain,
    MarineWind,
    Lightning,
    Waterspout,
    Wildfire,
}

impl View for HazardType {
    type V = HazardTypeV;

    open spec fn view(&self) -> HazardTypeV {
        match self {
            HazardType::Tornado => HazardTypeV::Tornado,
            HazardType::Funnel => HazardTypeV::Funnel,
            HazardType::WallCloud => HazardTypeV::WallCloud,
            HazardType::Hail => HazardTypeV::Hail,
            HazardType::Wind => HazardTypeV::Wind,
            HazardType::Flood => HazardTypeV::Flood,
            HazardType::FlashFlood => HazardTypeV::FlashFlood,
            HazardType::Other { kind } => HazardTypeV::Other { kind: kind@ },
            HazardType::FreezingRain => HazardTypeV::FreezingRain,
            HazardType::Snow => HazardTypeV::Snow,
            HazardType::Downburst => HazardTypeV::Downburst,
            HazardType::HeavyRain => HazardTypeV::HeavyRain,
            HazardType::MarineWind => HazardTypeV::MarineWind,
            HazardType::Lightning => HazardTypeV::Lightning,
            HazardType::Waterspout => HazardTypeV::Waterspout,
            HazardType::Wildfire => HazardTypeV::Wildfire,
        }
    }
}

/// Unit of a report magnitude.
#[derive(Debug, Clone, Copy, PartialEq, Eq, Structural)]
pub enum Units {
    Knots,
    Mph,
    Inches,
}

/// A spotter or local-storm report.  `magnitude` is in hundredths of a unit.
/// `report_ts` is populated only for local storm reports, never for spotter
/// reports.
#[derive(Debug, Clone, PartialEq)]
pub struct Report {
    pub reporter: String,
    pub hazard: HazardType,
    pub magnitude: Option<u32>,
    pub units: Option<Units>,
    pub was_measured: Option<bool>,
    pub report_ts: Option<u64>,
}

pub ghost struct ReportV {
    pub reporter: Seq<char>,
    pub hazard: HazardTypeV,
    pub magnitude: Option<u32>,
    pub units: Option<Units>,
    pub was_measured: Option<bool>,
    pub report_ts: Option<u64>,
}

impl View for Report {
    type V = ReportV;

    open spec fn view(&self) -> ReportV {
        ReportV {
            reporter: self.reporter@,
            hazard: self.hazard@,
            magnitude: self.magnitude,
            units: self.units,
            was_measured: self.was_measured,
            report_ts: self.report_ts,
        }
    }
}

#[derive(Debug, Clone, Copy, PartialEq, Eq, Structural)]
pub enum WatchType {
    Tornado,
    SevereThunderstorm,
    Other,
}

/// Watch lifecycle: issued to cancelled is the only legal transition;
/// unknown is only an initial or degraded state from feed parsing.
#[derive(Debug, Clone, Copy, PartialEq, Eq, Structural)]
pub enum WatchStatus {
    Issued,
    Cancelled,
    Unknown,
}

/// A tornado or severe-thunderstorm watch.
#[derive(Debug, Clone, PartialEq)]
pub struct Watch {
    pub is_pds: bool,
    pub id: u16,
    pub watch_type: WatchType,
    pub status: WatchStatus,
    pub issued_for: Option<String>,
}

pub ghost struct WatchV {
    pub is_pds: bool,
    pub id: u16,
    pub watch_type: WatchType,
    pub status: WatchStatus,
    pub issued_for: Option<Seq<char>>,
}

impl View for Watch {
    type V = WatchV;

    open spec fn view(&self) -> WatchV {
        WatchV {
            is_pds: self.is_pds,
            id: self.id,
            watch_type: self.watch_type,
            status: self.status,
            issued_for: match self.issued_for {
                Some(s) => Some(s@),
                None => None,
            },
        }
    }
}

/// Tornado or severe-thunderstorm warning fields.  The emergency and
/// observation flags are meaningful only for tornado warnings; `time` keeps
/// the literal feed timestamp string.
#[derive(Debug, Clone, PartialEq)]
pub struct Warning {
    pub is_pds: bool,
    pub is_tor_emergency: Option<bool>,
    pub was_observed: Option<bool>,
    pub issued_for: String,
    pub motion_deg: Option<u16>,
    pub motion_kt: Option<u16>,
    pub source: Option<String>,
    pub time: String,
}

pub ghost struct WarningV {
    pub is_pds: bool,
    pub is_tor_emergency: Option<bool>,
    pub was_observed: Option<bool>,
    pub issued_for: Seq<char>,
    pub motion_deg: Option<u16>,
    pub motion_kt: Option<u16>,
    pub source: Option<Seq<char>>,
    pub time: Seq<char>,
}

impl View for Warning {
    type V = WarningV;

    open spec fn view(&self) -> WarningV {
        WarningV {
            is_pds: self.is_pds,
            is_tor_emergency: self.is_tor_emergency,
            was_observed: self.was_observed,
            issued_for: self.issued_for@,
            motion_deg: self.motion_deg,
            motion_kt: self.motion_kt,
            source: match self.source {
                Some(s) => Some(s@),
                None => None,
            },
            time: self.time@,
        }
    }
}

/// Which outlook product an `Outlook` came from.
#[derive(Debug, Clone, Copy, PartialEq, Eq, Structural)]
pub enum SwoType {
    Day1,
    Day2,
    Day3,
    Day48,
    MesoscaleDiscussion,
    Unknown,
}

/// Convective outlook risk level, totally ordered from `TSTM` up to `HIGH`.
#[derive(Debug, Clone, Copy, PartialEq, Eq, Hash, Structural)]
pub enum OutlookRisk {
    TSTM,
    MRGL,
    SLGT,
    ENH,
    MDT,
    HIGH,
}

impl OutlookRisk {
    /// Position of this level in the total order `TSTM < MRGL < SLGT < ENH <
    /// MDT < HIGH`.
    pub open spec fn spec_rank(self) -> int {
        match self {
            OutlookRisk::TSTM => 0,
            OutlookRisk::MRGL => 1,
            OutlookRisk::SLGT => 2,
            OutlookRisk::ENH => 3,
            OutlookRisk::MDT => 4,
            OutlookRisk::HIGH => 5,
        }
    }

    pub fn rank(&self) -> (r: u8)
        ensures
            r as int == self.spec_rank(),
    {
        match self {
            OutlookRisk::TSTM => 0,
            OutlookRisk::MRGL => 1,
            OutlookRisk::SLGT => 2,
            OutlookRisk::ENH => 3,
            OutlookRisk::MDT => 4,
            OutlookRisk::HIGH => 5,
        }
    }
}

/// The boundary polygon(s) of one risk level inside an outlook.
#[derive(Debug, Clone, PartialEq)]
pub struct RiskArea {
    pub risk: OutlookRisk,
    pub poly: Vec<Coordinates>,
}

pub ghost struct RiskAreaV {
    pub risk: OutlookRisk,
    pub poly: Seq<Coordinates>,
}

impl View for RiskArea {
    type V = RiskAreaV;

    open spec fn view(&self) -> RiskAreaV {
        RiskAreaV { risk: self.risk, poly: self.poly@ }
    }
}

/// A convective outlook.  Invariant (`wf`): when the polygon mapping is
/// present and non-empty, its risk levels are distinct and `max_risk` is the
/// greatest level present.
#[derive(Debug, Clone, PartialEq)]
pub struct Outlook {
    pub swo_type: SwoType,
    pub max_risk: OutlookRisk,
    pub polys: Option<Vec<RiskArea>>,
}

pub ghost struct OutlookV {
    pub swo_type: SwoType,
    pub max_risk: OutlookRisk,
    pub polys: Option<Seq<RiskAreaV>>,
}

impl View for Outlook {
    type V = OutlookV;

    open spec fn view(&self) -> OutlookV {
        OutlookV {
            swo_type: self.swo_type,
            max_risk: self.max_risk,
            polys: match self.polys {
                Some(ps) => Some(Seq::new(ps@.len(), |i: int| ps@[i]@)),
                None => None,
            },
        }
    }
}

impl Outlook {
    /// The outlook invariant: risk levels in the mapping are distinct, and
    /// when the mapping is present and non-empty, `max_risk` equals the
    /// greatest level present.
    pub open spec fn wf(&self) -> bool {
        match self.polys {
            None => true,
            Some(ps) => {
                &&& (forall|i: int, j: int|
                    0 <= i < j < ps@.len() ==> (#[trigger] ps@[i].risk) != (#[trigger] ps@[j].risk))
                &&& (ps@.len() > 0 ==> {
                    &&& (exists|i: int| 0 <= i < ps@.len() && (#[trigger] ps@[i].risk) == self.max_risk)
                    &&& (forall|i: int|
                        0 <= i < ps@.len() ==> (#[trigger] ps@[i].risk).spec_rank()
                            <= self.max_risk.spec_rank())
                })
            },
        }
    }

    /// Decides the outlook invariant, so a caller can detect a value whose
    /// `max_risk` contradicts its polygon mapping.
    #[verifier::loop_isolation(false)]
    pub fn is_well_formed(&self) -> (r: bool)
        ensures
            r == self.wf(),
    {
        match &self.polys {
            None => true,
            Some(ps) => {
                let n = ps.len();
                let mut i: usize = 0;
                while i < n
                    invariant
                        0 <= i <= n,
                        n == ps@.len(),
                        forall|a: int, b: int|
                            0 <= a < b < ps@.len() && a < i ==> (#[trigger] ps@[a].risk)
                                != (#[trigger] ps@[b].risk),
                    decreases n - i,
                {
                    let mut j: usize = i + 1;
                    while j < n
                        invariant
                            0 <= i < j <= n,
                            n == ps@.len(),
                            forall|b: int| i < b < j ==> ps@[i as int].risk != (#[trigger] ps@[b].risk),
                        decreases n - j,
                    {
                        if ps[i].risk == ps[j].risk {
                            proof {
                                assert(ps@[i as int].risk == ps@[j as int].risk);
                                assert(!self.wf());
                            }
                            return false;
                        }
                        j = j + 1;
                    }
                    i = i + 1;
                }
                if n == 0 {
                    return true;
                }
                let max_rank = self.max_risk.rank();
                let mut found: bool = false;
                let mut k: usize = 0;
                while k < n
                    invariant
                        0 <= k <= n,
                        n == ps@.len(),
                        max_rank as int == self.max_risk.spec_rank(),
                        forall|a: int|
                            0 <= a < k ==> (#[trigger] ps@[a].risk).spec_rank()
                                <= self.max_risk.spec_rank(),
                        found == (exists|a: int|
                            0 <= a < k && (#[trigger] ps@[a].risk) == self.max_risk),
                    decreases n - k,
                {
                    if ps[k].risk.rank() > max_rank {
                        proof {
                            assert((ps@[k as int].risk).spec_rank() > self.max_risk.spec_rank());
                            assert(!self.wf());
                        }
                        return false;
                    }
                    if ps[k].risk == self.max_risk {
                        found = true;
                    }
                    k = k + 1;
                }
                found
            },
        }
    }
}

/// Which concern a mesoscale discussion addresses.
#[derive(Debug, Clone, Copy, PartialEq, Eq, Structural)]
pub enum MdConcerning {
    ExistingTorWatch,
    ExistingSvrWatch,
    NewTorWatch,
    NewSvrWatch,
    Unknown,
}

/// A mesoscale discussion.
#[derive(Debug, Clone, PartialEq)]
pub struct MesoscaleDiscussion {
    pub id: u16,
    pub affected: String,
    pub concerning: MdConcerning,
    pub watch_issuance_probability: Option<u16>,
    pub wfos: Vec<String>,
}

pub ghost struct MesoscaleDiscussionV {
    pub id: u16,
    pub affected: Seq<char>,
    pub concerning: MdConcerning,
    pub watch_issuance_probability: Option<u16>,
    pub wfos: Seq<Seq<char>>,
}

impl View for MesoscaleDiscussion {
    type V = MesoscaleDiscussionV;

    open spec fn view(&self) -> MesoscaleDiscussionV {
        MesoscaleDiscussionV {
            id: self.id,
            affected: self.affected@,
            concerning: self.concerning,
            watch_issuance_probability: self.watch_issuance_probability,
            wfos: Seq::new(self.wfos@.len(), |i: int| self.wfos@[i]@),
        }
    }
}

/// The central record: one weather event.  At most one of the typed payload
/// slots `report`, `warning`, `watch`, `outlook` and `md` is populated, as
/// `payload_wf` states; `location` may accompany any of them.
#[derive(Debug, Clone, PartialEq)]
pub struct Event {
    pub event_ts: u64,
    pub event_type: EventType,
    pub expires_ts: Option<u64>,
    pub ext_uri: Option<String>,
    pub ingest_ts: u64,
    pub location: Option<Location>,
    pub md: Option<MesoscaleDiscussion>,
    pub outlook: Option<Outlook>,
    pub report: Option<Report>,
    pub text: Option<String>,
    pub title: String,
    pub valid_ts: Option<u64>,
    pub warning: Option<Warning>,
    pub watch: Option<Watch>,
}

pub ghost struct EventV {
    pub event_ts: u64,
    pub event_type: EventType,
    pub expires_ts: Option<u64>,
    pub ext_uri: Option<Seq<char>>,
    pub ingest_ts: u64,
    pub location: Option<LocationV>,
    pub md: Option<MesoscaleDiscussionV>,
    pub outlook: Option<OutlookV>,
    pub report: Option<ReportV>,
    pub text: Option<Seq<char>>,
    pub title: Seq<char>,
    pub valid_ts: Option<u64>,
    pub warning: Option<WarningV>,
    pub watch: Option<WatchV>,
}

impl View for Event {
    type V = EventV;

    open spec fn view(&self) -> EventV {
        EventV {
            event_ts: self.event_ts,
            event_type: self.event_type,
            expires_ts: self.expires_ts,
            ext_uri: match self.ext_uri {
                Some(s) => Some(s@),
                None => None,
            },
            ingest_ts: self.ingest_ts,
            location: match self.location {
                Some(l) => Some(l@),
                None => None,
            },
            md: match self.md {
                Some(m) => Some(m@),
                None => None,
            },
            outlook: match self.outlook {
                Some(o) => Some(o@),
                None => None,
            },
            report: match self.report {
                Some(r) => Some(r@),
                None => None,
            },
            text: match self.text {
                Some(s) => Some(s@),
                None => None,
            },
            title: self.title@,
            valid_ts: self.valid_ts,
            warning: match self.warning {
                Some(w) => Some(w@),
                None => None,
            },
            watch: match self.watch {
                Some(w) => Some(w@),
                None => None,
            },
        }
    }
}

impl Event {
    /// How many of the mutually exclusive typed payload slots are populated.
    pub open spec fn payload_count(&self) -> int {
        (if self.report is Some { 1int } else { 0int })
        + (if self.warning is Some { 1int } else { 0int })
        + (if self.watch is Some { 1int } else { 0int })
        + (if self.outlook is Some { 1int } else { 0int })
        + (if self.md is Some { 1int } else { 0int })
    }

    /// Payload consistency: at most one typed payload slot is populated, and
    /// the slot agrees with `event_type` where the schema fixes it (reports
    /// carry `report`, tornado warnings carry `warning`, outlook products
    /// carry `outlook`), with the report timestamp populated only for local
    /// storm reports.
    pub open spec fn payload_wf(&self) -> bool {
        &&& self.payload_count() <= 1
        &&& ((self.event_type == EventType::SnReport || self.event_type == EventType::NwsLsr)
            ==> self.report is Some)
        &&& (self.event_type == EventType::NwsTor ==> self.warning is Some)
        &&& ((self.event_type == EventType::NwsSwo || self.event_type == EventType::NwsSel)
            ==> self.outlook is Some)
        &&& (self.event_type == EventType::SnReport ==> (self.report matches Some(r)
            ==> r.report_ts is None))
    }

    /// Decides `payload_wf`.
    pub fn is_payload_consistent(&self) -> (r: bool)
        ensures
            r == self.payload_wf(),
    {
        let mut count: u8 = 0;
        if self.report.is_some() {
            count = count + 1;
        }
        if self.warning.is_some() {
            count = count + 1;
        }
        if self.watch.is_some() {
            count = count + 1;
        }
        if self.outlook.is_some() {
            count = count + 1;
        }
        if self.md.is_some() {
            count = count + 1;
        }
        if count > 1 {
            return false;
        }
        let needs_report = matches!(self.event_type, EventType::SnReport)
            || matches!(self.event_type, EventType::NwsLsr);
        if needs_report && self.report.is_none() {
            return false;
        }
        if matches!(self.event_type, EventType::NwsTor) && self.warning.is_none() {
            return false;
        }
        let needs_outlook = matches!(self.event_type, EventType::NwsSwo)
            || matches!(self.event_type, EventType::NwsSel);
        if needs_outlook && self.outlook.is_none() {
            return false;
        }
        if matches!(self.event_type, EventType::SnReport) {
            match &self.report {
                Some(r) => {
                    if r.report_ts.is_some() {
                        return false;
                    }
                },
                None => {},
            }
        }
        true
    }

    /// A fresh event with no optional field populated and an ingest
    /// timestamp of zero; the store assigns the real ingest time.
    pub fn new(event_ts: u64, event_type: EventType, title: String) -> (r: Event)
        ensures
            r.event_ts == event_ts,
            r.event_type == event_type,
            r.title@ == title@,
            r.ingest_ts == 0,
            r.expires_ts is None,
            r.ext_uri is None,
            r.location is None,
            r.md is None,
            r.outlook is None,
            r.report is None,
            r.text is None,
            r.valid_ts is None,
            r.warning is None,
            r.watch is None,
    {
        Event {
            event_ts,
            event_type,
            expires_ts: None,
            ext_uri: None,
            ingest_ts: 0,
            location: None,
            md: None,
            outlook: None,
            report: None,
            text: None,
            title,
            valid_ts: None,
            warning: None,
            watch: None,
        }
    }
}

/// The producers that can record a fetch failure.
#[derive(Debug, Clone, Copy, PartialEq, Eq, Hash, Structural)]
pub enum WxApp {
    SpotterNetworkLoader,
    NwsApiLoader,
    SpcSfcoaLoader,
    FetchFailureLoader,
    Admin,
}

/// A record that a named producer failed to retrieve data at a given ingest
/// time.  Raw failure records are write-only from the client's perspective;
/// the client aggregates them into a count per producer.
#[derive(Debug, Clone, Copy, PartialEq, Eq, Structural)]
pub struct FetchFailure {
    pub app: WxApp,
    pub ingest_ts: u64,
}

} // verus!
