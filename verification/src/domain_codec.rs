//! Wire codec for the event domain model.
//!
//! Each domain type gets a specification-level encoder over its view, a
//! specification-level parser that inverts it, executable functions proved
//! to implement both, and a public round-trip lemma: parsing the encoding of
//! any well-sized value yields that value back.  Structs are laid out as
//! their fields in declaration order; enums as a 32-bit variant index
//! followed by the variant's fields; options and lists as in
//! [`crate::codec`].
//!
//! The `*_sizes_ok` predicates bound every embedded string and list length
//! below the 64-bit length prefix; every value held in memory satisfies
//! them.

use vstd::prelude::*;
use vstd::utf8::encode_utf8;
use crate::codec::{
    is_prefix, lemma_prefix_split, lemma_add_assoc,
    enc_u16, dec_u16, encode_u16, decode_u16, lemma_u16_round_trip,
    enc_u32, dec_u32, encode_u32, decode_u32, lemma_u32_round_trip,
    enc_u64, dec_u64, encode_u64, decode_u64, lemma_u64_round_trip,
    enc_i32, dec_i32, encode_i32, decode_i32, lemma_i32_round_trip,
    enc_bool, dec_bool, encode_bool, decode_bool, lemma_bool_round_trip,
    enc_str, dec_str, encode_string, decode_string, lemma_str_round_trip,
    enc_opt, dec_opt, lemma_opt_round_trip,
    enc_opt_u64, dec_opt_u64, encode_opt_u64, decode_opt_u64, lemma_opt_u64_round_trip,
    enc_opt_u16, dec_opt_u16, encode_opt_u16, decode_opt_u16, lemma_opt_u16_round_trip,
    enc_opt_u32, dec_opt_u32, encode_opt_u32, decode_opt_u32, lemma_opt_u32_round_trip,
    enc_opt_bool, dec_opt_bool, encode_opt_bool, decode_opt_bool, lemma_opt_bool_round_trip,
    enc_opt_str, dec_opt_str, encode_opt_string, decode_opt_string, lemma_opt_str_round_trip,
    enc_items, dec_items, enc_seq_of, dec_seq_of, lemma_enc_items_take, lemma_seq_round_trip,
};
use crate::domain::{
    Coordinates, EventType, HazardType, HazardTypeV, Units, WatchType, WatchStatus,
    SwoType, OutlookRisk, MdConcerning, WxApp, Location, LocationV, Report, ReportV,
    Watch, WatchV, Warning, WarningV, RiskArea, RiskAreaV, Outlook, OutlookV,
    MesoscaleDiscussion, MesoscaleDiscussionV, Event, EventV, FetchFailure,
};

verus! {

// ---------------------------------------------------------------------------
// Coordinates
// ---------------------------------------------------------------------------

pub open spec fn enc_coordinates(c: Coordinates) -> Seq<u8> {
    enc_i32(c.lat) + enc_i32(c.lon)
}

pub open spec fn dec_coordinates(s: Seq<u8>, pos: int) -> Option<(Coordinates, int)> {
    match dec_i32(s, pos) {
        None => None,
        Some((lat, p1)) => match dec_i32(s, p1) {
            None => None,
            Some((lon, p2)) => Some((Coordinates { lat, lon }, p2)),
        },
    }
}

/// Round trip: parsing an encoded coordinate pair yields it back.
pub proof fn lemma_coordinates_round_trip(c: Coordinates, s: Seq<u8>, pos: int)
    requires
        is_prefix(enc_coordinates(c), s, pos),
    ensures
        dec_coordinates(s, pos) == Some((c, pos + enc_coordinates(c).len())),
{
    lemma_prefix_split(enc_i32(c.lat), enc_i32(c.lon), s, pos);
    lemma_i32_round_trip(c.lat, s, pos);
    lemma_i32_round_trip(c.lon, s, pos + 4);
}

pub fn encode_coordinates(buf: &mut Vec<u8>, c: &Coordinates)
    ensures
        final(buf)@ == old(buf)@ + enc_coordinates(*c),
{
    encode_i32(buf, c.lat);
    encode_i32(buf, c.lon);
    proof {
        assert(buf@ =~= old(buf)@ + enc_coordinates(*c));
    }
}

pub fn decode_coordinates(bytes: &[u8], pos: usize) -> (r: Option<(Coordinates, usize)>)
    ensures
        r is Some <==> dec_coordinates(bytes@, pos as int) is Some,
        r matches Some((v, p)) ==> dec_coordinates(bytes@, pos as int) == Some((v, p as int)),
{
    match decode_i32(bytes, pos) {
        None => None,
        Some((lat, p1)) => match decode_i32(bytes, p1) {
            None => None,
            Some((lon, p2)) => Some((Coordinates { lat, lon }, p2)),
        },
    }
}

// ---------------------------------------------------------------------------
// Lists of coordinates (polygons)
// ---------------------------------------------------------------------------

pub open spec fn enc_coords_list(s: Seq<Coordinates>) -> Seq<u8> {
    enc_seq_of(s, |c: Coordinates| enc_coordinates(c))
}

pub open spec fn dec_coords_list(s: Seq<u8>, pos: int) -> Option<(Seq<Coordinates>, int)> {
    dec_seq_of(s, pos, |b: Seq<u8>, p: int| dec_coordinates(b, p))
}

/// Round trip: parsing an encoded polygon yields it back.
pub proof fn lemma_coords_list_round_trip(s: Seq<Coordinates>, bytes: Seq<u8>, pos: int)
    requires
        s.len() < 0x1_0000_0000_0000_0000,
        is_prefix(enc_coords_list(s), bytes, pos),
    ensures
        dec_coords_list(bytes, pos) == Some((s, pos + enc_coords_list(s).len())),
{
    assert forall|v: Coordinates, p: int|
        true && #[trigger] is_prefix(enc_coordinates(v), bytes, p) implies dec_coordinates(
        bytes,
        p,
    ) == Some((v, p + enc_coordinates(v).len())) by {
        lemma_coordinates_round_trip(v, bytes, p);
    }
    lemma_seq_round_trip(
        s,
        |c: Coordinates| true,
        |c: Coordinates| enc_coordinates(c),
        |b: Seq<u8>, p: int| dec_coordinates(b, p),
        bytes,
        pos,
    );
}

#[verifier::loop_isolation(false)]
pub fn encode_coords_vec(buf: &mut Vec<u8>, v: &Vec<Coordinates>)
    ensures
        final(buf)@ == old(buf)@ + enc_coords_list(v@),
{
    encode_u64(buf, v.len() as u64);
    let n = v.len();
    let mut i: usize = 0;
    while i < n
        invariant
            0 <= i <= n,
            n == v@.len(),
            buf@ == old(buf)@ + enc_u64(v@.len() as u64) + enc_items(
                v@.take(i as int),
                (|c: Coordinates| enc_coordinates(c)),
            ),
        decreases n - i,
    {
        encode_coordinates(buf, &v[i]);
        proof {
            lemma_enc_items_take(v@, |c: Coordinates| enc_coordinates(c), i as int);
            assert(buf@ =~= old(buf)@ + enc_u64(v@.len() as u64) + enc_items(
                v@.take(i + 1),
                (|c: Coordinates| enc_coordinates(c)),
            ));
        }
        i = i + 1;
    }
    proof {
        assert(v@.take(n as int) =~= v@);
        assert(buf@ =~= old(buf)@ + enc_coords_list(v@));
    }
}

#[verifier::loop_isolation(false)]
pub fn decode_coords_vec(bytes: &[u8], pos: usize) -> (r: Option<(Vec<Coordinates>, usize)>)
    ensures
        r is Some <==> dec_coords_list(bytes@, pos as int) is Some,
        r matches Some((v, p)) ==> dec_coords_list(bytes@, pos as int) == Some((v@, p as int)),
{
    match decode_u64(bytes, pos) {
        None => None,
        Some((n, p0)) => {
            let mut acc: Vec<Coordinates> = Vec::new();
            let mut cur: usize = p0;
            let mut i: u64 = 0;
            while i < n
                invariant
                    0 <= i <= n,
                    dec_items::<Coordinates>(
                        bytes@,
                        p0 as int,
                        n as nat,
                        (|b: Seq<u8>, p: int| dec_coordinates(b, p)),
                    ) == (match dec_items::<Coordinates>(
                        bytes@,
                        cur as int,
                        (n - i) as nat,
                        (|b: Seq<u8>, p: int| dec_coordinates(b, p)),
                    ) {
                        Some((rest, end)) => Some((acc@ + rest, end)),
                        None => None::<(Seq<Coordinates>, int)>,
                    }),
                decreases n - i,
            {
                match decode_coordinates(bytes, cur) {
                    None => {
                        return None;
                    },
                    Some((c, p2)) => {
                        proof {
                            let fd = |b: Seq<u8>, p: int| dec_coordinates(b, p);
                            let tail = dec_items::<Coordinates>(
                                bytes@,
                                p2 as int,
                                (n - i - 1) as nat,
                                fd,
                            );
                            if tail is Some {
                                let rest = tail->Some_0.0;
                                assert(acc@ + (seq![c] + rest) =~= (acc@ + seq![c]) + rest);
                                assert(acc@ + seq![c] =~= acc@.push(c));
                            }
                        }
                        acc.push(c);
                        cur = p2;
                        i = i + 1;
                    },
                }
            }
            proof {
                assert(acc@ + Seq::<Coordinates>::empty() =~= acc@);
            }
            Some((acc, cur))
        },
    }
}

// ---------------------------------------------------------------------------
// Unit enums: a 32-bit variant index
// ---------------------------------------------------------------------------

pub open spec fn event_type_tag(t: EventType) -> u32 {
    match t {
        EventType::SnReport => 0,
        EventType::SpcSfcoa => 1,
        EventType::NwsAfd => 2,
        EventType::NwsFfa => 3,
        EventType::NwsFla => 4,
        EventType::NwsFfw => 5,
        EventType::NwsFlw => 6,
        EventType::NwsLsr => 7,
        EventType::NwsPts => 8,
        EventType::NwsSel => 9,
        EventType::NwsSev => 10,
        EventType::NwsSvr => 11,
        EventType::NwsSvs => 12,
        EventType::NwsSwo => 13,
        EventType::NwsTor => 14,
    }
}

pub open spec fn event_type_from_tag(n: u32) -> Option<EventType> {
    if n == 0 {
        Some(EventType::SnReport)
    } else if n == 1 {
        Some(EventType::SpcSfcoa)
    } else if n == 2 {
        Some(EventType::NwsAfd)
    } else if n == 3 {
        Some(EventType::NwsFfa)
    } else if n == 4 {
        Some(EventType::NwsFla)
    } else if n == 5 {
        Some(EventType::NwsFfw)
    } else if n == 6 {
        Some(EventType::NwsFlw)
    } else if n == 7 {
        Some(EventType::NwsLsr)
    } else if n == 8 {
        Some(EventType::NwsPts)
    } else if n == 9 {
        Some(EventType::NwsSel)
    } else if n == 10 {
        Some(EventType::NwsSev)
    } else if n == 11 {
        Some(EventType::NwsSvr)
    } else if n == 12 {
        Some(EventType::NwsSvs)
    } else if n == 13 {
        Some(EventType::NwsSwo)
    } else if n == 14 {
        Some(EventType::NwsTor)
    } else {
        None
    }
}

pub open spec fn enc_event_type(t: EventType) -> Seq<u8> {
    enc_u32(event_type_tag(t))
}

pub open spec fn dec_event_type(s: Seq<u8>, pos: int) -> Option<(EventType, int)> {
    match dec_u32(s, pos) {
        None => None,
        Some((n, p)) => match event_type_from_tag(n) {
            None => None,
            Some(t) => Some((t, p)),
        },
    }
}

/// Round trip: parsing an encoded event type yields it back.
pub proof fn lemma_event_type_round_trip(t: EventType, s: Seq<u8>, pos: int)
    requires
        is_prefix(enc_event_type(t), s, pos),
    ensures
        dec_event_type(s, pos) == Some((t, pos + 4)),
{
    lemma_u32_round_trip(event_type_tag(t), s, pos);
}

pub fn encode_event_type(buf: &mut Vec<u8>, t: EventType)
    ensures
        final(buf)@ == old(buf)@ + enc_event_type(t),
{
    let tag: u32 = match t {
        EventType::SnReport => 0,
        EventType::SpcSfcoa => 1,
        EventType::NwsAfd => 2,
        EventType::NwsFfa => 3,
        EventType::NwsFla => 4,
        EventType::NwsFfw => 5,
        EventType::NwsFlw => 6,
        EventType::NwsLsr => 7,
        EventType::NwsPts => 8,
        EventType::NwsSel => 9,
        EventType::NwsSev => 10,
        EventType::NwsSvr => 11,
        EventType::NwsSvs => 12,
        EventType::NwsSwo => 13,
        EventType::NwsTor => 14,
    };
    encode_u32(buf, tag);
}

pub fn decode_event_type(bytes: &[u8], pos: usize) -> (r: Option<(EventType, usize)>)
    ensures
        r is Some <==> dec_event_type(bytes@, pos as int) is Some,
        r matches Some((v, p)) ==> dec_event_type(bytes@, pos as int) == Some((v, p as int)),
{
    match decode_u32(bytes, pos) {
        None => None,
        Some((n, p)) => match n {
            0 => Some((EventType::SnReport, p)),
            1 => Some((EventType::SpcSfcoa, p)),
            2 => Some((EventType::NwsAfd, p)),
            3 => Some((EventType::NwsFfa, p)),
            4 => Some((EventType::NwsFla, p)),
            5 => Some((EventType::NwsFfw, p)),
            6 => Some((EventType::NwsFlw, p)),
            7 => Some((EventType::NwsLsr, p)),
            8 => Some((EventType::NwsPts, p)),
            9 => Some((EventType::NwsSel, p)),
            10 => Some((EventType::NwsSev, p)),
            11 => Some((EventType::NwsSvr, p)),
            12 => Some((EventType::NwsSvs, p)),
            13 => Some((EventType::NwsSwo, p)),
            14 => Some((EventType::NwsTor, p)),
            _ => None,
        },
    }
}

pub open spec fn units_tag(u: Units) -> u32 {
    match u {
        Units::Knots => 0,
        Units::Mph => 1,
        Units::Inches => 2,
    }
}

pub open spec fn units_from_tag(n: u32) -> Option<Units> {
    if n == 0 {
        Some(Units::Knots)
    } else if n == 1 {
        Some(Units::Mph)
    } else if n == 2 {
        Some(Units::Inches)
    } else {
        None
    }
}

pub open spec fn enc_units(u: Units) -> Seq<u8> {
    enc_u32(units_tag(u))
}

pub open spec fn dec_units(s: Seq<u8>, pos: int) -> Option<(Units, int)> {
    match dec_u32(s, pos) {
        None => None,
        Some((n, p)) => match units_from_tag(n) {
            None => None,
            Some(u) => Some((u, p)),
        },
    }
}

/// Round trip: parsing an encoded unit yields it back.
pub proof fn lemma_units_round_trip(u: Units, s: Seq<u8>, pos: int)
    requires
        is_prefix(enc_units(u), s, pos),
    ensures
        dec_units(s, pos) == Some((u, pos + 4)),
{
    lemma_u32_round_trip(units_tag(u), s, pos);
}

pub fn encode_units(buf: &mut Vec<u8>, u: Units)
    ensures
        final(buf)@ == old(buf)@ + enc_units(u),
{
    let tag: u32 = match u {
        Units::Knots => 0,
        Units::Mph => 1,
        Units::Inches => 2,
    };
    encode_u32(buf, tag);
}

pub fn decode_units(bytes: &[u8], pos: usize) -> (r: Option<(Units, usize)>)
    ensures
        r is Some <==> dec_units(bytes@, pos as int) is Some,
        r matches Some((v, p)) ==> dec_units(bytes@, pos as int) == Some((v, p as int)),
{
    match decode_u32(bytes, pos) {
        None => None,
        Some((n, p)) => match n {
            0 => Some((Units::Knots, p)),
            1 => Some((Units::Mph, p)),
            2 => Some((Units::Inches, p)),
            _ => None,
        },
    }
}

pub open spec fn watch_type_tag(t: WatchType) -> u32 {
    match t {
        WatchType::Tornado => 0,
        WatchType::SevereThunderstorm => 1,
        WatchType::Other => 2,
    }
}

pub open spec fn watch_type_from_tag(n: u32) -> Option<WatchType> {
    if n == 0 {
        Some(WatchType::Tornado)
    } else if n == 1 {
        Some(WatchType::SevereThunderstorm)
    } else if n == 2 {
        Some(WatchType::Other)
    } else {
        None
    }
}

pub open spec fn enc_watch_type(t: WatchType) -> Seq<u8> {
    enc_u32(watch_type_tag(t))
}

pub open spec fn dec_watch_type(s: Seq<u8>, pos: int) -> Option<(WatchType, int)> {
    match dec_u32(s, pos) {
        None => None,
        Some((n, p)) => match watch_type_from_tag(n) {
            None => None,
            Some(t) => Some((t, p)),
        },
    }
}

/// Round trip: parsing an encoded watch type yields it back.
pub proof fn lemma_watch_type_round_trip(t: WatchType, s: Seq<u8>, pos: int)
    requires
        is_prefix(enc_watch_type(t), s, pos),
    ensures
        dec_watch_type(s, pos) == Some((t, pos + 4)),
{
    lemma_u32_round_trip(watch_type_tag(t), s, pos);
}

pub fn encode_watch_type(buf: &mut Vec<u8>, t: WatchType)
    ensures
        final(buf)@ == old(buf)@ + enc_watch_type(t),
{
    let tag: u32 = match t {
        WatchType::Tornado => 0,
        WatchType::SevereThunderstorm => 1,
        WatchType::Other => 2,
    };
    encode_u32(buf, tag);
}

pub fn decode_watch_type(bytes: &[u8], pos: usize) -> (r: Option<(WatchType, usize)>)
    ensures
        r is Some <==> dec_watch_type(bytes@, pos as int) is Some,
        r matches Some((v, p)) ==> dec_watch_type(bytes@, pos as int) == Some((v, p as int)),
{
    match decode_u32(bytes, pos) {
        None => None,
        Some((n, p)) => match n {
            0 => Some((WatchType::Tornado, p)),
            1 => Some((WatchType::SevereThunderstorm, p)),
            2 => Some((WatchType::Other, p)),
            _ => None,
        },
    }
}

pub open spec fn watch_status_tag(t: WatchStatus) -> u32 {
    match t {
        WatchStatus::Issued => 0,
        WatchStatus::Cancelled => 1,
        WatchStatus::Unknown => 2,
    }
}

pub open spec fn watch_status_from_tag(n: u32) -> Option<WatchStatus> {
    if n == 0 {
        Some(WatchStatus::Issued)
    } else if n == 1 {
        Some(WatchStatus::Cancelled)
    } else if n == 2 {
        Some(WatchStatus::Unknown)
    } else {
        None
    }
}

pub open spec fn enc_watch_status(t: WatchStatus) -> Seq<u8> {
    enc_u32(watch_status_tag(t))
}

pub open spec fn dec_watch_status(s: Seq<u8>, pos: int) -> Option<(WatchStatus, int)> {
    match dec_u32(s, pos) {
        None => None,
        Some((n, p)) => match watch_status_from_tag(n) {
            None => None,
            Some(t) => Some((t, p)),
        },
    }
}

/// Round trip: parsing an encoded watch status yields it back.
pub proof fn lemma_watch_status_round_trip(t: WatchStatus, s: Seq<u8>, pos: int)
    requires
        is_prefix(enc_watch_status(t), s, pos),
    ensures
        dec_watch_status(s, pos) == Some((t, pos + 4)),
{
    lemma_u32_round_trip(watch_status_tag(t), s, pos);
}

pub fn encode_watch_status(buf: &mut Vec<u8>, t: WatchStatus)
    ensures
        final(buf)@ == old(buf)@ + enc_watch_status(t),
{
    let tag: u32 = match t {
        WatchStatus::Issued => 0,
        WatchStatus::Cancelled => 1,
        WatchStatus::Unknown => 2,
    };
    encode_u32(buf, tag);
}

pub fn decode_watch_status(bytes: &[u8], pos: usize) -> (r: Option<(WatchStatus, usize)>)
    ensures
        r is Some <==> dec_watch_status(bytes@, pos as int) is Some,
        r matches Some((v, p)) ==> dec_watch_status(bytes@, pos as int) == Some((v, p as int)),
{
    match decode_u32(bytes, pos) {
        None => None,
        Some((n, p)) => match n {
            0 => Some((WatchStatus::Issued, p)),
            1 => Some((WatchStatus::Cancelled, p)),
            2 => Some((WatchStatus::Unknown, p)),
            _ => None,
        },
    }
}

pub open spec fn swo_type_tag(t: SwoType) -> u32 {
    match t {
        SwoType::Day1 => 0,
        SwoType::Day2 => 1,
        SwoType::Day3 => 2,
        SwoType::Day48 => 3,
        SwoType::MesoscaleDiscussion => 4,
        SwoType::Unknown => 5,
    }
}

pub open spec fn swo_type_from_tag(n: u32) -> Option<SwoType> {
    if n == 0 {
        Some(SwoType::Day1)
    } else if n == 1 {
        Some(SwoType::Day2)
    } else if n == 2 {
        Some(SwoType::Day3)
    } else if n == 3 {
        Some(SwoType::Day48)
    } else if n == 4 {
        Some(SwoType::MesoscaleDiscussion)
    } else if n == 5 {
        Some(SwoType::Unknown)
    } else {
        None
    }
}

pub open spec fn enc_swo_type(t: SwoType) -> Seq<u8> {
    enc_u32(swo_type_tag(t))
}

pub open spec fn dec_swo_type(s: Seq<u8>, pos: int) -> Option<(SwoType, int)> {
    match dec_u32(s, pos) {
        None => None,
        Some((n, p)) => match swo_type_from_tag(n) {
            None => None,
            Some(t) => Some((t, p)),
        },
    }
}

/// Round trip: parsing an encoded outlook product type yields it back.
pub proof fn lemma_swo_type_round_trip(t: SwoType, s: Seq<u8>, pos: int)
    requires
        is_prefix(enc_swo_type(t), s, pos),
    ensures
        dec_swo_type(s, pos) == Some((t, pos + 4)),
{
    lemma_u32_round_trip(swo_type_tag(t), s, pos);
}

pub fn encode_swo_type(buf: &mut Vec<u8>, t: SwoType)
    ensures
        final(buf)@ == old(buf)@ + enc_swo_type(t),
{
    let tag: u32 = match t {
        SwoType::Day1 => 0,
        SwoType::Day2 => 1,
        SwoType::Day3 => 2,
        SwoType::Day48 => 3,
        SwoType::MesoscaleDiscussion => 4,
        SwoType::Unknown => 5,
    };
    encode_u32(buf, tag);
}

pub fn decode_swo_type(bytes: &[u8], pos: usize) -> (r: Option<(SwoType, usize)>)
    ensures
        r is Some <==> dec_swo_type(bytes@, pos as int) is Some,
        r matches Some((v, p)) ==> dec_swo_type(bytes@, pos as int) == Some((v, p as int)),
{
    match decode_u32(bytes, pos) {
        None => None,
        Some((n, p)) => match n {
            0 => Some((SwoType::Day1, p)),
            1 => Some((SwoType::Day2, p)),
            2 => Some((SwoType::Day3, p)),
            3 => Some((SwoType::Day48, p)),
            4 => Some((SwoType::MesoscaleDiscussion, p)),
            5 => Some((SwoType::Unknown, p)),
            _ => None,
        },
    }
}

pub open spec fn risk_tag(t: OutlookRisk) -> u32 {
    match t {
        OutlookRisk::TSTM => 0,
        OutlookRisk::MRGL => 1,
        OutlookRisk::SLGT => 2,
        OutlookRisk::ENH => 3,
        OutlookRisk::MDT => 4,
        OutlookRisk::HIGH => 5,
    }
}

pub open spec fn risk_from_tag(n: u32) -> Option<OutlookRisk> {
    if n == 0 {
        Some(OutlookRisk::TSTM)
    } else if n == 1 {
        Some(OutlookRisk::MRGL)
    } else if n == 2 {
        Some(OutlookRisk::SLGT)
    } else if n == 3 {
        Some(OutlookRisk::ENH)
    } else if n == 4 {
        Some(OutlookRisk::MDT)
    } else if n == 5 {
        Some(OutlookRisk::HIGH)
    } else {
        None
    }
}

pub open spec fn enc_risk(t: OutlookRisk) -> Seq<u8> {
    enc_u32(risk_tag(t))
}

pub open spec fn dec_risk(s: Seq<u8>, pos: int) -> Option<(OutlookRisk, int)> {
    match dec_u32(s, pos) {
        None => None,
        Some((n, p)) => match risk_from_tag(n) {
            None => None,
            Some(t) => Some((t, p)),
        },
    }
}

/// Round trip: parsing an encoded risk level yields it back.
pub proof fn lemma_risk_round_trip(t: OutlookRisk, s: Seq<u8>, pos: int)
    requires
        is_prefix(enc_risk(t), s, pos),
    ensures
        dec_risk(s, pos) == Some((t, pos + 4)),
{
    lemma_u32_round_trip(risk_tag(t), s, pos);
}

pub fn encode_risk(buf: &mut Vec<u8>, t: OutlookRisk)
    ensures
        final(buf)@ == old(buf)@ + enc_risk(t),
{
    let tag: u32 = match t {
        OutlookRisk::TSTM => 0,
        OutlookRisk::MRGL => 1,
        OutlookRisk::SLGT => 2,
        OutlookRisk::ENH => 3,
        OutlookRisk::MDT => 4,
        OutlookRisk::HIGH => 5,
    };
    encode_u32(buf, tag);
}

pub fn decode_risk(bytes: &[u8], pos: usize) -> (r: Option<(OutlookRisk, usize)>)
    ensures
        r is Some <==> dec_risk(bytes@, pos as int) is Some,
        r matches Some((v, p)) ==> dec_risk(bytes@, pos as int) == Some((v, p as int)),
{
    match decode_u32(bytes, pos) {
        None => None,
        Some((n, p)) => match n {
            0 => Some((OutlookRisk::TSTM, p)),
            1 => Some((OutlookRisk::MRGL, p)),
            2 => Some((OutlookRisk::SLGT, p)),
            3 => Some((OutlookRisk::ENH, p)),
            4 => Some((OutlookRisk::MDT, p)),
            5 => Some((OutlookRisk::HIGH, p)),
            _ => None,
        },
    }
}

pub open spec fn md_concerning_tag(t: MdConcerning) -> u32 {
    match t {
        MdConcerning::ExistingTorWatch => 0,
        MdConcerning::ExistingSvrWatch => 1,
        MdConcerning::NewTorWatch => 2,
        MdConcerning::NewSvrWatch => 3,
        MdConcerning::Unknown => 4,
    }
}

pub open spec fn md_concerning_from_tag(n: u32) -> Option<MdConcerning> {
    if n == 0 {
        Some(MdConcerning::ExistingTorWatch)
    } else if n == 1 {
        Some(MdConcerning::ExistingSvrWatch)
    } else if n == 2 {
        Some(MdConcerning::NewTorWatch)
    } else if n == 3 {
        Some(MdConcerning::NewSvrWatch)
    } else if n == 4 {
        Some(MdConcerning::Unknown)
    } else {
        None
    }
}

pub open spec fn enc_md_concerning(t: MdConcerning) -> Seq<u8> {
    enc_u32(md_concerning_tag(t))
}

pub open spec fn dec_md_concerning(s: Seq<u8>, pos: int) -> Option<(MdConcerning, int)> {
    match dec_u32(s, pos) {
        None => None,
        Some((n, p)) => match md_concerning_from_tag(n) {
            None => None,
            Some(t) => Some((t, p)),
        },
    }
}

/// Round trip: parsing an encoded discussion concern yields it back.
pub proof fn lemma_md_concerning_round_trip(t: MdConcerning, s: Seq<u8>, pos: int)
    requires
        is_prefix(enc_md_concerning(t), s, pos),
    ensures
        dec_md_concerning(s, pos) == Some((t, pos + 4)),
{
    lemma_u32_round_trip(md_concerning_tag(t), s, pos);
}

pub fn encode_md_concerning(buf: &mut Vec<u8>, t: MdConcerning)
    ensures
        final(buf)@ == old(buf)@ + enc_md_concerning(t),
{
    let tag: u32 = match t {
        MdConcerning::ExistingTorWatch => 0,
        MdConcerning::ExistingSvrWatch => 1,
        MdConcerning::NewTorWatch => 2,
        MdConcerning::NewSvrWatch => 3,
        MdConcerning::Unknown => 4,
    };
    encode_u32(buf, tag);
}

pub fn decode_md_concerning(bytes: &[u8], pos: usize) -> (r: Option<(MdConcerning, usize)>)
    ensures
        r is Some <==> dec_md_concerning(bytes@, pos as int) is Some,
        r matches Some((v, p)) ==> dec_md_concerning(bytes@, pos as int) == Some((v, p as int)),
{
    match decode_u32(bytes, pos) {
        None => None,
        Some((n, p)) => match n {
            0 => Some((MdConcerning::ExistingTorWatch, p)),
            1 => Some((MdConcerning::ExistingSvrWatch, p)),
            2 => Some((MdConcerning::NewTorWatch, p)),
            3 => Some((MdConcerning::NewSvrWatch, p)),
            4 => Some((MdConcerning::Unknown, p)),
            _ => None,
        },
    }
}

pub open spec fn wx_app_tag(t: WxApp) -> u32 {
    match t {
        WxApp::SpotterNetworkLoader => 0,
        WxApp::NwsApiLoader => 1,
        WxApp::SpcSfcoaLoader => 2,
        WxApp::FetchFailureLoader => 3,
        WxApp::Admin => 4,
    }
}

pub open spec fn wx_app_from_tag(n: u32) -> Option<WxApp> {
    if n == 0 {
        Some(WxApp::SpotterNetworkLoader)
    } else if n == 1 {
        Some(WxApp::NwsApiLoader)
    } else if n == 2 {
        Some(WxApp::SpcSfcoaLoader)
    } else if n == 3 {
        Some(WxApp::FetchFailureLoader)
    } else if n == 4 {
        Some(WxApp::Admin)
    } else {
        None
    }
}

pub open spec fn enc_wx_app(t: WxApp) -> Seq<u8> {
    enc_u32(wx_app_tag(t))
}

pub open spec fn dec_wx_app(s: Seq<u8>, pos: int) -> Option<(WxApp, int)> {
    match dec_u32(s, pos) {
        None => None,
        Some((n, p)) => match wx_app_from_tag(n) {
            None => None,
            Some(t) => Some((t, p)),
        },
    }
}

/// Round trip: parsing an encoded producer name yields it back.
pub proof fn lemma_wx_app_round_trip(t: WxApp, s: Seq<u8>, pos: int)
    requires
        is_prefix(enc_wx_app(t), s, pos),
    ensures
        dec_wx_app(s, pos) == Some((t, pos + 4)),
{
    lemma_u32_round_trip(wx_app_tag(t), s, pos);
}

pub fn encode_wx_app(buf: &mut Vec<u8>, t: WxApp)
    ensures
        final(buf)@ == old(buf)@ + enc_wx_app(t),
{
    let tag: u32 = match t {
        WxApp::SpotterNetworkLoader => 0,
        WxApp::NwsApiLoader => 1,
        WxApp::SpcSfcoaLoader => 2,
        WxApp::FetchFailureLoader => 3,
        WxApp::Admin => 4,
    };
    encode_u32(buf, tag);
}

pub fn decode_wx_app(bytes: &[u8], pos: usize) -> (r: Option<(WxApp, usize)>)
    ensures
        r is Some <==> dec_wx_app(bytes@, pos as int) is Some,
        r matches Some((v, p)) ==> dec_wx_app(bytes@, pos as int) == Some((v, p as int)),
{
    match decode_u32(bytes, pos) {
        None => None,
        Some((n, p)) => match n {
            0 => Some((WxApp::SpotterNetworkLoader, p)),
            1 => Some((WxApp::NwsApiLoader, p)),
            2 => Some((WxApp::SpcSfcoaLoader, p)),
            3 => Some((WxApp::FetchFailureLoader, p)),
            4 => Some((WxApp::Admin, p)),
            _ => None,
        },
    }
}

// ---------------------------------------------------------------------------
// Hazard type: a variant index, with the free-form kind for `Other`
// ---------------------------------------------------------------------------

pub open spec fn hazard_tag(h: HazardTypeV) -> u32 {
    match h {
        HazardTypeV::Tornado => 0,
        HazardTypeV::Funnel => 1,
        HazardTypeV::WallCloud => 2,
        HazardTypeV::Hail => 3,
        HazardTypeV::Wind => 4,
        HazardTypeV::Flood => 5,
        HazardTypeV::FlashFlood => 6,
        HazardTypeV::Other { .. } => 7,
        HazardTypeV::FreezingRain => 8,
        HazardTypeV::Snow => 9,
        HazardTypeV::Downburst => 10,
        HazardTypeV::HeavyRain => 11,
        HazardTypeV::MarineWind => 12,
        HazardTypeV::Lightning => 13,
        HazardTypeV::Waterspout => 14,
        HazardTypeV::Wildfire => 15,
    }
}

pub open spec fn enc_hazard(h: HazardTypeV) -> Seq<u8> {
    match h {
        HazardTypeV::Other { kind } => enc_u32(7) + enc_str(kind),
        _ => enc_u32(hazard_tag(h)),
    }
}

pub open spec fn hazard_sizes_ok(h: HazardTypeV) -> bool {
    h matches HazardTypeV::Other { kind } ==> encode_utf8(kind).len() < 0x1_0000_0000_0000_0000
}

pub open spec fn dec_hazard(s: Seq<u8>, pos: int) -> Option<(HazardTypeV, int)> {
    match dec_u32(s, pos) {
        None => None,
        Some((n, p)) => if n == 7 {
            match dec_str(s, p) {
                None => None,
                Some((kind, p2)) => Some((HazardTypeV::Other { kind }, p2)),
            }
        } else if n == 0 {
            Some((HazardTypeV::Tornado, p))
        } else if n == 1 {
            Some((HazardTypeV::Funnel, p))
        } else if n == 2 {
            Some((HazardTypeV::WallCloud, p))
        } else if n == 3 {
            Some((HazardTypeV::Hail, p))
        } else if n == 4 {
            Some((HazardTypeV::Wind, p))
        } else if n == 5 {
            Some((HazardTypeV::Flood, p))
        } else if n == 6 {
            Some((HazardTypeV::FlashFlood, p))
        } else if n == 8 {
            Some((HazardTypeV::FreezingRain, p))
        } else if n == 9 {
            Some((HazardTypeV::Snow, p))
        } else if n == 10 {
            Some((HazardTypeV::Downburst, p))
        } else if n == 11 {
            Some((HazardTypeV::HeavyRain, p))
        } else if n == 12 {
            Some((HazardTypeV::MarineWind, p))
        } else if n == 13 {
            Some((HazardTypeV::Lightning, p))
        } else if n == 14 {
            Some((HazardTypeV::Waterspout, p))
        } else if n == 15 {
            Some((HazardTypeV::Wildfire, p))
        } else {
            None
        },
    }
}

/// Round trip: parsing an encoded hazard yields it back, the free-form kind
/// string preserved exactly.
pub proof fn lemma_hazard_round_trip(h: HazardTypeV, s: Seq<u8>, pos: int)
    requires
        hazard_sizes_ok(h),
        is_prefix(enc_hazard(h), s, pos),
    ensures
        dec_hazard(s, pos) == Some((h, pos + enc_hazard(h).len())),
{
    match h {
        HazardTypeV::Other { kind } => {
            lemma_prefix_split(enc_u32(7), enc_str(kind), s, pos);
            lemma_u32_round_trip(7, s, pos);
            lemma_str_round_trip(kind, s, pos + 4);
        },
        _ => {
            lemma_u32_round_trip(hazard_tag(h), s, pos);
        },
    }
}

pub fn encode_hazard(buf: &mut Vec<u8>, h: &HazardType)
    ensures
        final(buf)@ == old(buf)@ + enc_hazard(h@),
{
    match h {
        HazardType::Other { kind } => {
            encode_u32(buf, 7);
            encode_string(buf, kind.as_str());
            proof {
                assert(buf@ =~= old(buf)@ + enc_hazard(h@));
            }
        },
        HazardType::Tornado => encode_u32(buf, 0),
        HazardType::Funnel => encode_u32(buf, 1),
        HazardType::WallCloud => encode_u32(buf, 2),
        HazardType::Hail => encode_u32(buf, 3),
        HazardType::Wind => encode_u32(buf, 4),
        HazardType::Flood => encode_u32(buf, 5),
        HazardType::FlashFlood => encode_u32(buf, 6),
        HazardType::FreezingRain => encode_u32(buf, 8),
        HazardType::Snow => encode_u32(buf, 9),
        HazardType::Downburst => encode_u32(buf, 10),
        HazardType::HeavyRain => encode_u32(buf, 11),
        HazardType::MarineWind => encode_u32(buf, 12),
        HazardType::Lightning => encode_u32(buf, 13),
        HazardType::Waterspout => encode_u32(buf, 14),
        HazardType::Wildfire => encode_u32(buf, 15),
    }
}

pub fn decode_hazard(bytes: &[u8], pos: usize) -> (r: Option<(HazardType, usize)>)
    ensures
        r is Some <==> dec_hazard(bytes@, pos as int) is Some,
        r matches Some((v, p)) ==> dec_hazard(bytes@, pos as int) == Some((v@, p as int)),
{
    match decode_u32(bytes, pos) {
        None => None,
        Some((n, p)) => match n {
            7 => match decode_string(bytes, p) {
                None => None,
                Some((kind, p2)) => Some((HazardType::Other { kind }, p2)),
            },
            0 => Some((HazardType::Tornado, p)),
            1 => Some((HazardType::Funnel, p)),
            2 => Some((HazardType::WallCloud, p)),
            3 => Some((HazardType::Hail, p)),
            4 => Some((HazardType::Wind, p)),
            5 => Some((HazardType::Flood, p)),
            6 => Some((HazardType::FlashFlood, p)),
            8 => Some((HazardType::FreezingRain, p)),
            9 => Some((HazardType::Snow, p)),
            10 => Some((HazardType::Downburst, p)),
            11 => Some((HazardType::HeavyRain, p)),
            12 => Some((HazardType::MarineWind, p)),
            13 => Some((HazardType::Lightning, p)),
            14 => Some((HazardType::Waterspout, p)),
            15 => Some((HazardType::Wildfire, p)),
            _ => None,
        },
    }
}

// ---------------------------------------------------------------------------
// Options of codec'd domain values
// ---------------------------------------------------------------------------

pub open spec fn enc_opt_coordinates(o: Option<Coordinates>) -> Seq<u8> {
    enc_opt(o, |c: Coordinates| enc_coordinates(c))
}

pub open spec fn dec_opt_coordinates(s: Seq<u8>, pos: int) -> Option<(Option<Coordinates>, int)> {
    dec_opt(s, pos, |b: Seq<u8>, p: int| dec_coordinates(b, p))
}

/// Round trip: parsing an encoded optional point yields it back.
pub proof fn lemma_opt_coordinates_round_trip(o: Option<Coordinates>, s: Seq<u8>, pos: int)
    requires
        is_prefix(enc_opt_coordinates(o), s, pos),
    ensures
        dec_opt_coordinates(s, pos) == Some((o, pos + enc_opt_coordinates(o).len())),
{
    assert forall|v: Coordinates, p: int|
        true && #[trigger] is_prefix(enc_coordinates(v), s, p) implies dec_coordinates(s, p)
        == Some((v, p + enc_coordinates(v).len())) by {
        lemma_coordinates_round_trip(v, s, p);
    }
    lemma_opt_round_trip(
        o,
        |c: Coordinates| true,
        |c: Coordinates| enc_coordinates(c),
        |b: Seq<u8>, p: int| dec_coordinates(b, p),
        s,
        pos,
    );
}

pub fn encode_opt_coordinates(buf: &mut Vec<u8>, o: &Option<Coordinates>)
    ensures
        final(buf)@ == old(buf)@ + enc_opt_coordinates(*o),
{
    match o {
        None => {
            buf.push(0);
            proof {
                assert(buf@ =~= old(buf)@ + enc_opt_coordinates(*o));
            }
        },
        Some(c) => {
            buf.push(1);
            encode_coordinates(buf, c);
            proof {
                assert(buf@ =~= old(buf)@ + enc_opt_coordinates(*o));
            }
        },
    }
}

pub fn decode_opt_coordinates(bytes: &[u8], pos: usize) -> (r: Option<
    (Option<Coordinates>, usize),
>)
    ensures
        r is Some <==> dec_opt_coordinates(bytes@, pos as int) is Some,
        r matches Some((v, p)) ==> dec_opt_coordinates(bytes@, pos as int) == Some((v, p as int)),
{
    if pos < bytes.len() {
        let b = bytes[pos];
        if b == 0 {
            Some((None, pos + 1))
        } else if b == 1 {
            match decode_coordinates(bytes, pos + 1) {
                Some((v, p)) => Some((Some(v), p)),
                None => None,
            }
        } else {
            None
        }
    } else {
        None
    }
}

pub open spec fn enc_opt_coords_list(o: Option<Seq<Coordinates>>) -> Seq<u8> {
    enc_opt(o, |cs: Seq<Coordinates>| enc_coords_list(cs))
}

pub open spec fn dec_opt_coords_list(s: Seq<u8>, pos: int) -> Option<
    (Option<Seq<Coordinates>>, int),
> {
    dec_opt(s, pos, |b: Seq<u8>, p: int| dec_coords_list(b, p))
}

/// Round trip: parsing an encoded optional polygon yields it back.
pub proof fn lemma_opt_coords_list_round_trip(o: Option<Seq<Coordinates>>, s: Seq<u8>, pos: int)
    requires
        o matches Some(cs) ==> cs.len() < 0x1_0000_0000_0000_0000,
        is_prefix(enc_opt_coords_list(o), s, pos),
    ensures
        dec_opt_coords_list(s, pos) == Some((o, pos + enc_opt_coords_list(o).len())),
{
    let wf = |cs: Seq<Coordinates>| cs.len() < 0x1_0000_0000_0000_0000;
    assert forall|v: Seq<Coordinates>, p: int|
        wf(v) && #[trigger] is_prefix(enc_coords_list(v), s, p) implies dec_coords_list(s, p)
        == Some((v, p + enc_coords_list(v).len())) by {
        lemma_coords_list_round_trip(v, s, p);
    }
    lemma_opt_round_trip(
        o,
        wf,
        |cs: Seq<Coordinates>| enc_coords_list(cs),
        |b: Seq<u8>, p: int| dec_coords_list(b, p),
        s,
        pos,
    );
}

pub open spec fn opt_view<T: View>(o: Option<T>) -> Option<T::V> {
    match o {
        Some(v) => Some(v@),
        None => None,
    }
}

pub fn encode_opt_coords_vec(buf: &mut Vec<u8>, o: &Option<Vec<Coordinates>>)
    ensures
        final(buf)@ == old(buf)@ + enc_opt_coords_list(opt_view(*o)),
{
    match o {
        None => {
            buf.push(0);
            proof {
                assert(buf@ =~= old(buf)@ + enc_opt_coords_list(opt_view(*o)));
            }
        },
        Some(cs) => {
            buf.push(1);
            encode_coords_vec(buf, cs);
            proof {
                assert(buf@ =~= old(buf)@ + enc_opt_coords_list(opt_view(*o)));
            }
        },
    }
}

pub fn decode_opt_coords_vec(bytes: &[u8], pos: usize) -> (r: Option<
    (Option<Vec<Coordinates>>, usize),
>)
    ensures
        r is Some <==> dec_opt_coords_list(bytes@, pos as int) is Some,
        r matches Some((v, p)) ==> dec_opt_coords_list(bytes@, pos as int) == Some(
            (opt_view(v), p as int),
        ),
{
    if pos < bytes.len() {
        let b = bytes[pos];
        if b == 0 {
            Some((None, pos + 1))
        } else if b == 1 {
            match decode_coords_vec(bytes, pos + 1) {
                Some((v, p)) => Some((Some(v), p)),
                None => None,
            }
        } else {
            None
        }
    } else {
        None
    }
}

pub open spec fn enc_opt_units(o: Option<Units>) -> Seq<u8> {
    enc_opt(o, |u: Units| enc_units(u))
}

pub open spec fn dec_opt_units(s: Seq<u8>, pos: int) -> Option<(Option<Units>, int)> {
    dec_opt(s, pos, |b: Seq<u8>, p: int| dec_units(b, p))
}

/// Round trip: parsing an encoded optional unit yields it back.
pub proof fn lemma_opt_units_round_trip(o: Option<Units>, s: Seq<u8>, pos: int)
    requires
        is_prefix(enc_opt_units(o), s, pos),
    ensures
        dec_opt_units(s, pos) == Some((o, pos + enc_opt_units(o).len())),
{
    assert forall|v: Units, p: int|
        true && #[trigger] is_prefix(enc_units(v), s, p) implies dec_units(s, p) == Some(
        (v, p + enc_units(v).len()),
    ) by {
        lemma_units_round_trip(v, s, p);
    }
    lemma_opt_round_trip(
        o,
        |u: Units| true,
        |u: Units| enc_units(u),
        |b: Seq<u8>, p: int| dec_units(b, p),
        s,
        pos,
    );
}

pub fn encode_opt_units(buf: &mut Vec<u8>, o: &Option<Units>)
    ensures
        final(buf)@ == old(buf)@ + enc_opt_units(*o),
{
    match o {
        None => {
            buf.push(0);
            proof {
                assert(buf@ =~= old(buf)@ + enc_opt_units(*o));
            }
        },
        Some(u) => {
            buf.push(1);
            encode_units(buf, *u);
            proof {
                assert(buf@ =~= old(buf)@ + enc_opt_units(*o));
            }
        },
    }
}

pub fn decode_opt_units(bytes: &[u8], pos: usize) -> (r: Option<(Option<Units>, usize)>)
    ensures
        r is Some <==> dec_opt_units(bytes@, pos as int) is Some,
        r matches Some((v, p)) ==> dec_opt_units(bytes@, pos as int) == Some((v, p as int)),
{
    if pos < bytes.len() {
        let b = bytes[pos];
        if b == 0 {
            Some((None, pos + 1))
        } else if b == 1 {
            match decode_units(bytes, pos + 1) {
                Some((v, p)) => Some((Some(v), p)),
                None => None,
            }
        } else {
            None
        }
    } else {
        None
    }
}

// ---------------------------------------------------------------------------
// Location
// ---------------------------------------------------------------------------

pub open spec fn enc_location(l: LocationV) -> Seq<u8> {
    enc_opt_str(l.wfo) + enc_opt_coordinates(l.point) + enc_opt_coords_list(l.poly) + enc_opt_str(
        l.county,
    )
}

pub open spec fn location_sizes_ok(l: LocationV) -> bool {
    &&& (l.wfo matches Some(c) ==> encode_utf8(c).len() < 0x1_0000_0000_0000_0000)
    &&& (l.poly matches Some(p) ==> p.len() < 0x1_0000_0000_0000_0000)
    &&& (l.county matches Some(c) ==> encode_utf8(c).len() < 0x1_0000_0000_0000_0000)
}

pub open spec fn dec_location(s: Seq<u8>, pos: int) -> Option<(LocationV, int)> {
    match dec_opt_str(s, pos) {
        None => None,
        Some((wfo, p1)) => match dec_opt_coordinates(s, p1) {
            None => None,
            Some((point, p2)) => match dec_opt_coords_list(s, p2) {
                None => None,
                Some((poly, p3)) => match dec_opt_str(s, p3) {
                    None => None,
                    Some((county, p4)) => Some((LocationV { wfo, point, poly, county }, p4)),
                },
            },
        },
    }
}

/// Round trip: parsing an encoded location yields it back.
pub proof fn lemma_location_round_trip(l: LocationV, s: Seq<u8>, pos: int)
    requires
        location_sizes_ok(l),
        is_prefix(enc_location(l), s, pos),
    ensures
        dec_location(s, pos) == Some((l, pos + enc_location(l).len())),
{
    let a = enc_opt_str(l.wfo);
    let b = enc_opt_coordinates(l.point);
    let c = enc_opt_coords_list(l.poly);
    let d = enc_opt_str(l.county);
    lemma_prefix_split(a + b + c, d, s, pos);
    lemma_prefix_split(a + b, c, s, pos);
    lemma_prefix_split(a, b, s, pos);
    lemma_opt_str_round_trip(l.wfo, s, pos);
    lemma_opt_coordinates_round_trip(l.point, s, pos + a.len());
    lemma_opt_coords_list_round_trip(l.poly, s, pos + a.len() + b.len());
    lemma_opt_str_round_trip(l.county, s, pos + a.len() + b.len() + c.len());
}

pub fn encode_location(buf: &mut Vec<u8>, l: &Location)
    ensures
        final(buf)@ == old(buf)@ + enc_location(l@),
{
    encode_opt_string(buf, &l.wfo);
    encode_opt_coordinates(buf, &l.point);
    encode_opt_coords_vec(buf, &l.poly);
    encode_opt_string(buf, &l.county);
    proof {
        assert(buf@ =~= old(buf)@ + enc_location(l@));
    }
}

pub fn decode_location(bytes: &[u8], pos: usize) -> (r: Option<(Location, usize)>)
    ensures
        r is Some <==> dec_location(bytes@, pos as int) is Some,
        r matches Some((v, p)) ==> dec_location(bytes@, pos as int) == Some((v@, p as int)),
{
    match decode_opt_string(bytes, pos) {
        None => None,
        Some((wfo, p1)) => match decode_opt_coordinates(bytes, p1) {
            None => None,
            Some((point, p2)) => match decode_opt_coords_vec(bytes, p2) {
                None => None,
                Some((poly, p3)) => match decode_opt_string(bytes, p3) {
                    None => None,
                    Some((county, p4)) => Some((Location { wfo, point, poly, county }, p4)),
                },
            },
        },
    }
}

// ---------------------------------------------------------------------------
// Report
// ---------------------------------------------------------------------------

pub open spec fn enc_report(r: ReportV) -> Seq<u8> {
    enc_str(r.reporter) + enc_hazard(r.hazard) + enc_opt_u32(r.magnitude) + enc_opt_units(r.units)
        + enc_opt_bool(r.was_measured) + enc_opt_u64(r.report_ts)
}

pub open spec fn report_sizes_ok(r: ReportV) -> bool {
    &&& encode_utf8(r.reporter).len() < 0x1_0000_0000_0000_0000
    &&& hazard_sizes_ok(r.hazard)
}

pub open spec fn dec_report(s: Seq<u8>, pos: int) -> Option<(ReportV, int)> {
    match dec_str(s, pos) {
        None => None,
        Some((reporter, p1)) => match dec_hazard(s, p1) {
            None => None,
            Some((hazard, p2)) => match dec_opt_u32(s, p2) {
                None => None,
                Some((magnitude, p3)) => match dec_opt_units(s, p3) {
                    None => None,
                    Some((units, p4)) => match dec_opt_bool(s, p4) {
                        None => None,
                        Some((was_measured, p5)) => match dec_opt_u64(s, p5) {
                            None => None,
                            Some((report_ts, p6)) => Some(
                                (
                                    ReportV {
                                        reporter,
                                        hazard,
                                        magnitude,
                                        units,
                                        was_measured,
                                        report_ts,
                                    },
                                    p6,
                                ),
                            ),
                        },
                    },
                },
            },
        },
    }
}

/// Round trip: parsing an encoded report yields it back.
pub proof fn lemma_report_round_trip(r: ReportV, s: Seq<u8>, pos: int)
    requires
        report_sizes_ok(r),
        is_prefix(enc_report(r), s, pos),
    ensures
        dec_report(s, pos) == Some((r, pos + enc_report(r).len())),
{
    let a = enc_str(r.reporter);
    let b = enc_hazard(r.hazard);
    let c = enc_opt_u32(r.magnitude);
    let d = enc_opt_units(r.units);
    let e = enc_opt_bool(r.was_measured);
    let f = enc_opt_u64(r.report_ts);
    lemma_prefix_split(a + b + c + d + e, f, s, pos);
    lemma_prefix_split(a + b + c + d, e, s, pos);
    lemma_prefix_split(a + b + c, d, s, pos);
    lemma_prefix_split(a + b, c, s, pos);
    lemma_prefix_split(a, b, s, pos);
    lemma_str_round_trip(r.reporter, s, pos);
    lemma_hazard_round_trip(r.hazard, s, pos + a.len());
    lemma_opt_u32_round_trip(r.magnitude, s, pos + a.len() + b.len());
    lemma_opt_units_round_trip(r.units, s, pos + a.len() + b.len() + c.len());
    lemma_opt_bool_round_trip(r.was_measured, s, pos + a.len() + b.len() + c.len() + d.len());
    lemma_opt_u64_round_trip(
        r.report_ts,
        s,
        pos + a.len() + b.len() + c.len() + d.len() + e.len(),
    );
}

pub fn encode_report(buf: &mut Vec<u8>, r: &Report)
    ensures
        final(buf)@ == old(buf)@ + enc_report(r@),
{
    encode_string(buf, r.reporter.as_str());
    encode_hazard(buf, &r.hazard);
    encode_opt_u32(buf, &r.magnitude);
    encode_opt_units(buf, &r.units);
    encode_opt_bool(buf, &r.was_measured);
    encode_opt_u64(buf, &r.report_ts);
    proof {
        assert(buf@ =~= old(buf)@ + enc_report(r@));
    }
}

pub fn decode_report(bytes: &[u8], pos: usize) -> (r: Option<(Report, usize)>)
    ensures
        r is Some <==> dec_report(bytes@, pos as int) is Some,
        r matches Some((v, p)) ==> dec_report(bytes@, pos as int) == Some((v@, p as int)),
{
    match decode_string(bytes, pos) {
        None => None,
        Some((reporter, p1)) => match decode_hazard(bytes, p1) {
            None => None,
            Some((hazard, p2)) => match decode_opt_u32(bytes, p2) {
                None => None,
                Some((magnitude, p3)) => match decode_opt_units(bytes, p3) {
                    None => None,
                    Some((units, p4)) => match decode_opt_bool(bytes, p4) {
                        None => None,
                        Some((was_measured, p5)) => match decode_opt_u64(bytes, p5) {
                            None => None,
                            Some((report_ts, p6)) => Some(
                                (
                                    Report {
                                        reporter,
                                        hazard,
                                        magnitude,
                                        units,
                                        was_measured,
                                        report_ts,
                                    },
                                    p6,
                                ),
                            ),
                        },
                    },
                },
            },
        },
    }
}

// ---------------------------------------------------------------------------
// Watch
// ---------------------------------------------------------------------------

pub open spec fn enc_watch(w: WatchV) -> Seq<u8> {
    enc_bool(w.is_pds) + enc_u16(w.id) + enc_watch_type(w.watch_type) + enc_watch_status(w.status)
        + enc_opt_str(w.issued_for)
}

pub open spec fn watch_sizes_ok(w: WatchV) -> bool {
    w.issued_for matches Some(c) ==> encode_utf8(c).len() < 0x1_0000_0000_0000_0000
}

pub open spec fn dec_watch(s: Seq<u8>, pos: int) -> Option<(WatchV, int)> {
    match dec_bool(s, pos) {
        None => None,
        Some((is_pds, p1)) => match dec_u16(s, p1) {
            None => None,
            Some((id, p2)) => match dec_watch_type(s, p2) {
                None => None,
                Some((watch_type, p3)) => match dec_watch_status(s, p3) {
                    None => None,
                    Some((status, p4)) => match dec_opt_str(s, p4) {
                        None => None,
                        Some((issued_for, p5)) => Some(
                            (WatchV { is_pds, id, watch_type, status, issued_for }, p5),
                        ),
                    },
                },
            },
        },
    }
}

/// Round trip: parsing an encoded watch yields it back.
pub proof fn lemma_watch_round_trip(w: WatchV, s: Seq<u8>, pos: int)
    requires
        watch_sizes_ok(w),
        is_prefix(enc_watch(w), s, pos),
    ensures
        dec_watch(s, pos) == Some((w, pos + enc_watch(w).len())),
{
    let a = enc_bool(w.is_pds);
    let b = enc_u16(w.id);
    let c = enc_watch_type(w.watch_type);
    let d = enc_watch_status(w.status);
    let e = enc_opt_str(w.issued_for);
    lemma_prefix_split(a + b + c + d, e, s, pos);
    lemma_prefix_split(a + b + c, d, s, pos);
    lemma_prefix_split(a + b, c, s, pos);
    lemma_prefix_split(a, b, s, pos);
    lemma_bool_round_trip(w.is_pds, s, pos);
    lemma_u16_round_trip(w.id, s, pos + a.len());
    lemma_watch_type_round_trip(w.watch_type, s, pos + a.len() + b.len());
    lemma_watch_status_round_trip(w.status, s, pos + a.len() + b.len() + c.len());
    lemma_opt_str_round_trip(w.issued_for, s, pos + a.len() + b.len() + c.len() + d.len());
}

pub fn encode_watch(buf: &mut Vec<u8>, w: &Watch)
    ensures
        final(buf)@ == old(buf)@ + enc_watch(w@),
{
    encode_bool(buf, w.is_pds);
    encode_u16(buf, w.id);
    encode_watch_type(buf, w.watch_type);
    encode_watch_status(buf, w.status);
    encode_opt_string(buf, &w.issued_for);
    proof {
        assert(buf@ =~= old(buf)@ + enc_watch(w@));
    }
}

pub fn decode_watch(bytes: &[u8], pos: usize) -> (r: Option<(Watch, usize)>)
    ensures
        r is Some <==> dec_watch(bytes@, pos as int) is Some,
        r matches Some((v, p)) ==> dec_watch(bytes@, pos as int) == Some((v@, p as int)),
{
    match decode_bool(bytes, pos) {
        None => None,
        Some((is_pds, p1)) => match decode_u16(bytes, p1) {
            None => None,
            Some((id, p2)) => match decode_watch_type(bytes, p2) {
                None => None,
                Some((watch_type, p3)) => match decode_watch_status(bytes, p3) {
                    None => None,
                    Some((status, p4)) => match decode_opt_string(bytes, p4) {
                        None => None,
                        Some((issued_for, p5)) => Some(
                            (Watch { is_pds, id, watch_type, status, issued_for }, p5),
                        ),
                    },
                },
            },
        },
    }
}

// ---------------------------------------------------------------------------
// Warning
// ---------------------------------------------------------------------------

pub open spec fn enc_warning(w: WarningV) -> Seq<u8> {
    enc_bool(w.is_pds) + enc_opt_bool(w.is_tor_emergency) + enc_opt_bool(w.was_observed) + enc_str(
        w.issued_for,
    ) + enc_opt_u16(w.motion_deg) + enc_opt_u16(w.motion_kt) + enc_opt_str(w.source) + enc_str(
        w.time,
    )
}

pub open spec fn warning_sizes_ok(w: WarningV) -> bool {
    &&& encode_utf8(w.issued_for).len() < 0x1_0000_0000_0000_0000
    &&& (w.source matches Some(c) ==> encode_utf8(c).len() < 0x1_0000_0000_0000_0000)
    &&& encode_utf8(w.time).len() < 0x1_0000_0000_0000_0000
}

pub open spec fn dec_warning(s: Seq<u8>, pos: int) -> Option<(WarningV, int)> {
    match dec_bool(s, pos) {
        None => None,
        Some((is_pds, p1)) => match dec_opt_bool(s, p1) {
            None => None,
            Some((is_tor_emergency, p2)) => match dec_opt_bool(s, p2) {
                None => None,
                Some((was_observed, p3)) => match dec_str(s, p3) {
                    None => None,
                    Some((issued_for, p4)) => match dec_opt_u16(s, p4) {
                        None => None,
                        Some((motion_deg, p5)) => match dec_opt_u16(s, p5) {
                            None => None,
                            Some((motion_kt, p6)) => match dec_opt_str(s, p6) {
                                None => None,
                                Some((source, p7)) => match dec_str(s, p7) {
                                    None => None,
                                    Some((time, p8)) => Some(
                                        (
                                            WarningV {
                                                is_pds,
                                                is_tor_emergency,
                                                was_observed,
                                                issued_for,
                                                motion_deg,
                                                motion_kt,
                                                source,
                                                time,
                                            },
                                            p8,
                                        ),
                                    ),
                                },
                            },
                        },
                    },
                },
            },
        },
    }
}

/// Round trip: parsing an encoded warning yields it back.
pub proof fn lemma_warning_round_trip(w: WarningV, s: Seq<u8>, pos: int)
    requires
        warning_sizes_ok(w),
        is_prefix(enc_warning(w), s, pos),
    ensures
        dec_warning(s, pos) == Some((w, pos + enc_warning(w).len())),
{
    let a = enc_bool(w.is_pds);
    let b = enc_opt_bool(w.is_tor_emergency);
    let c = enc_opt_bool(w.was_observed);
    let d = enc_str(w.issued_for);
    let e = enc_opt_u16(w.motion_deg);
    let f = enc_opt_u16(w.motion_kt);
    let g = enc_opt_str(w.source);
    let h = enc_str(w.time);
    lemma_prefix_split(a + b + c + d + e + f + g, h, s, pos);
    lemma_prefix_split(a + b + c + d + e + f, g, s, pos);
    lemma_prefix_split(a + b + c + d + e, f, s, pos);
    lemma_prefix_split(a + b + c + d, e, s, pos);
    lemma_prefix_split(a + b + c, d, s, pos);
    lemma_prefix_split(a + b, c, s, pos);
    lemma_prefix_split(a, b, s, pos);
    lemma_bool_round_trip(w.is_pds, s, pos);
    lemma_opt_bool_round_trip(w.is_tor_emergency, s, pos + a.len());
    lemma_opt_bool_round_trip(w.was_observed, s, pos + a.len() + b.len());
    lemma_str_round_trip(w.issued_for, s, pos + a.len() + b.len() + c.len());
    lemma_opt_u16_round_trip(w.motion_deg, s, pos + a.len() + b.len() + c.len() + d.len());
    lemma_opt_u16_round_trip(w.motion_kt, s, pos + a.len() + b.len() + c.len() + d.len() + e.len());
    lemma_opt_str_round_trip(
        w.source,
        s,
        pos + a.len() + b.len() + c.len() + d.len() + e.len() + f.len(),
    );
    lemma_str_round_trip(
        w.time,
        s,
        pos + a.len() + b.len() + c.len() + d.len() + e.len() + f.len() + g.len(),
    );
}

pub fn encode_warning(buf: &mut Vec<u8>, w: &Warning)
    ensures
        final(buf)@ == old(buf)@ + enc_warning(w@),
{
    encode_bool(buf, w.is_pds);
    encode_opt_bool(buf, &w.is_tor_emergency);
    encode_opt_bool(buf, &w.was_observed);
    encode_string(buf, w.issued_for.as_str());
    encode_opt_u16(buf, &w.motion_deg);
    encode_opt_u16(buf, &w.motion_kt);
    encode_opt_string(buf, &w.source);
    encode_string(buf, w.time.as_str());
    proof {
        assert(buf@ =~= old(buf)@ + enc_warning(w@));
    }
}

pub fn decode_warning(bytes: &[u8], pos: usize) -> (r: Option<(Warning, usize)>)
    ensures
        r is Some <==> dec_warning(bytes@, pos as int) is Some,
        r matches Some((v, p)) ==> dec_warning(bytes@, pos as int) == Some((v@, p as int)),
{
    match decode_bool(bytes, pos) {
        None => None,
        Some((is_pds, p1)) => match decode_opt_bool(bytes, p1) {
            None => None,
            Some((is_tor_emergency, p2)) => match decode_opt_bool(bytes, p2) {
                None => None,
                Some((was_observed, p3)) => match decode_string(bytes, p3) {
                    None => None,
                    Some((issued_for, p4)) => match decode_opt_u16(bytes, p4) {
                        None => None,
                        Some((motion_deg, p5)) => match decode_opt_u16(bytes, p5) {
                            None => None,
                            Some((motion_kt, p6)) => match decode_opt_string(bytes, p6) {
                                None => None,
                                Some((source, p7)) => match decode_string(bytes, p7) {
                                    None => None,
                                    Some((time, p8)) => Some(
                                        (
                                            Warning {
                                                is_pds,
                                                is_tor_emergency,
                                                was_observed,
                                                issued_for,
                                                motion_deg,
                                                motion_kt,
                                                source,
                                                time,
                                            },
                                            p8,
                                        ),
                                    ),
                                },
                            },
                        },
                    },
                },
            },
        },
    }
}

// ---------------------------------------------------------------------------
// Risk areas and outlooks
// ---------------------------------------------------------------------------

/// The element-wise views of a sequence of values.
pub open spec fn views_of<T: View>(s: Seq<T>) -> Seq<T::V> {
    Seq::new(s.len(), |i: int| s[i]@)
}

pub open spec fn enc_risk_area(ra: RiskAreaV) -> Seq<u8> {
    enc_risk(ra.risk) + enc_coords_list(ra.poly)
}

pub open spec fn risk_area_sizes_ok(ra: RiskAreaV) -> bool {
    ra.poly.len() < 0x1_0000_0000_0000_0000
}

pub open spec fn dec_risk_area(s: Seq<u8>, pos: int) -> Option<(RiskAreaV, int)> {
    match dec_risk(s, pos) {
        None => None,
        Some((risk, p1)) => match dec_coords_list(s, p1) {
            None => None,
            Some((poly, p2)) => Some((RiskAreaV { risk, poly }, p2)),
        },
    }
}

/// Round trip: parsing an encoded risk area yields it back.
pub proof fn lemma_risk_area_round_trip(ra: RiskAreaV, s: Seq<u8>, pos: int)
    requires
        risk_area_sizes_ok(ra),
        is_prefix(enc_risk_area(ra), s, pos),
    ensures
        dec_risk_area(s, pos) == Some((ra, pos + enc_risk_area(ra).len())),
{
    lemma_prefix_split(enc_risk(ra.risk), enc_coords_list(ra.poly), s, pos);
    lemma_risk_round_trip(ra.risk, s, pos);
    lemma_coords_list_round_trip(ra.poly, s, pos + 4);
}

pub fn encode_risk_area(buf: &mut Vec<u8>, ra: &RiskArea)
    ensures
        final(buf)@ == old(buf)@ + enc_risk_area(ra@),
{
    encode_risk(buf, ra.risk);
    encode_coords_vec(buf, &ra.poly);
    proof {
        assert(buf@ =~= old(buf)@ + enc_risk_area(ra@));
    }
}

pub fn decode_risk_area(bytes: &[u8], pos: usize) -> (r: Option<(RiskArea, usize)>)
    ensures
        r is Some <==> dec_risk_area(bytes@, pos as int) is Some,
        r matches Some((v, p)) ==> dec_risk_area(bytes@, pos as int) == Some((v@, p as int)),
{
    match decode_risk(bytes, pos) {
        None => None,
        Some((risk, p1)) => match decode_coords_vec(bytes, p1) {
            None => None,
            Some((poly, p2)) => Some((RiskArea { risk, poly }, p2)),
        },
    }
}

pub open spec fn enc_risk_list(s: Seq<RiskAreaV>) -> Seq<u8> {
    enc_seq_of(s, |ra: RiskAreaV| enc_risk_area(ra))
}

pub open spec fn dec_risk_list(s: Seq<u8>, pos: int) -> Option<(Seq<RiskAreaV>, int)> {
    dec_seq_of(s, pos, |b: Seq<u8>, p: int| dec_risk_area(b, p))
}

/// Round trip: parsing an encoded risk-area list yields it back.
pub proof fn lemma_risk_list_round_trip(s: Seq<RiskAreaV>, bytes: Seq<u8>, pos: int)
    requires
        s.len() < 0x1_0000_0000_0000_0000,
        forall|i: int| 0 <= i < s.len() ==> risk_area_sizes_ok(#[trigger] s[i]),
        is_prefix(enc_risk_list(s), bytes, pos),
    ensures
        dec_risk_list(bytes, pos) == Some((s, pos + enc_risk_list(s).len())),
{
    assert forall|v: RiskAreaV, p: int|
        risk_area_sizes_ok(v) && #[trigger] is_prefix(enc_risk_area(v), bytes, p)
        implies dec_risk_area(bytes, p) == Some((v, p + enc_risk_area(v).len())) by {
        lemma_risk_area_round_trip(v, bytes, p);
    }
    lemma_seq_round_trip(
        s,
        |ra: RiskAreaV| risk_area_sizes_ok(ra),
        |ra: RiskAreaV| enc_risk_area(ra),
        |b: Seq<u8>, p: int| dec_risk_area(b, p),
        bytes,
        pos,
    );
}

#[verifier::loop_isolation(false)]
pub fn encode_risk_vec(buf: &mut Vec<u8>, v: &Vec<RiskArea>)
    ensures
        final(buf)@ == old(buf)@ + enc_risk_list(views_of(v@)),
{
    encode_u64(buf, v.len() as u64);
    let n = v.len();
    let mut i: usize = 0;
    while i < n
        invariant
            0 <= i <= n,
            n == v@.len(),
            buf@ == old(buf)@ + enc_u64(v@.len() as u64) + enc_items(
                views_of(v@).take(i as int),
                (|ra: RiskAreaV| enc_risk_area(ra)),
            ),
        decreases n - i,
    {
        encode_risk_area(buf, &v[i]);
        proof {
            lemma_enc_items_take(views_of(v@), |ra: RiskAreaV| enc_risk_area(ra), i as int);
            assert(views_of(v@)[i as int] == v@[i as int]@);
            assert(buf@ =~= old(buf)@ + enc_u64(v@.len() as u64) + enc_items(
                views_of(v@).take(i + 1),
                (|ra: RiskAreaV| enc_risk_area(ra)),
            ));
        }
        i = i + 1;
    }
    proof {
        assert(views_of(v@).take(n as int) =~= views_of(v@));
        assert(buf@ =~= old(buf)@ + enc_risk_list(views_of(v@)));
    }
}

#[verifier::loop_isolation(false)]
pub fn decode_risk_vec(bytes: &[u8], pos: usize) -> (r: Option<(Vec<RiskArea>, usize)>)
    ensures
        r is Some <==> dec_risk_list(bytes@, pos as int) is Some,
        r matches Some((v, p)) ==> dec_risk_list(bytes@, pos as int) == Some(
            (views_of(v@), p as int),
        ),
{
    match decode_u64(bytes, pos) {
        None => None,
        Some((n, p0)) => {
            let mut acc: Vec<RiskArea> = Vec::new();
            let mut cur: usize = p0;
            let mut i: u64 = 0;
            while i < n
                invariant
                    0 <= i <= n,
                    dec_items::<RiskAreaV>(
                        bytes@,
                        p0 as int,
                        n as nat,
                        (|b: Seq<u8>, p: int| dec_risk_area(b, p)),
                    ) == (match dec_items::<RiskAreaV>(
                        bytes@,
                        cur as int,
                        (n - i) as nat,
                        (|b: Seq<u8>, p: int| dec_risk_area(b, p)),
                    ) {
                        Some((rest, end)) => Some((views_of(acc@) + rest, end)),
                        None => None::<(Seq<RiskAreaV>, int)>,
                    }),
                decreases n - i,
            {
                match decode_risk_area(bytes, cur) {
                    None => {
                        return None;
                    },
                    Some((ra, p2)) => {
                        proof {
                            let fd = |b: Seq<u8>, p: int| dec_risk_area(b, p);
                            let tail = dec_items::<RiskAreaV>(
                                bytes@,
                                p2 as int,
                                (n - i - 1) as nat,
                                fd,
                            );
                            if tail is Some {
                                let rest = tail->Some_0.0;
                                assert(views_of(acc@) + (seq![ra@] + rest) =~= (views_of(acc@)
                                    + seq![ra@]) + rest);
                            }
                            assert(views_of(acc@.push(ra)) =~= views_of(acc@) + seq![ra@]);
                        }
                        acc.push(ra);
                        cur = p2;
                        i = i + 1;
                    },
                }
            }
            proof {
                assert(views_of(acc@) + Seq::<RiskAreaV>::empty() =~= views_of(acc@));
            }
            Some((acc, cur))
        },
    }
}

pub open spec fn enc_opt_risk_list(o: Option<Seq<RiskAreaV>>) -> Seq<u8> {
    enc_opt(o, |ps: Seq<RiskAreaV>| enc_risk_list(ps))
}

pub open spec fn dec_opt_risk_list(s: Seq<u8>, pos: int) -> Option<(Option<Seq<RiskAreaV>>, int)> {
    dec_opt(s, pos, |b: Seq<u8>, p: int| dec_risk_list(b, p))
}

/// Round trip: parsing an encoded optional risk-area list yields it back.
pub proof fn lemma_opt_risk_list_round_trip(o: Option<Seq<RiskAreaV>>, s: Seq<u8>, pos: int)
    requires
        o matches Some(ps) ==> ps.len() < 0x1_0000_0000_0000_0000 && (forall|i: int|
            0 <= i < ps.len() ==> risk_area_sizes_ok(#[trigger] ps[i])),
        is_prefix(enc_opt_risk_list(o), s, pos),
    ensures
        dec_opt_risk_list(s, pos) == Some((o, pos + enc_opt_risk_list(o).len())),
{
    let wf = |ps: Seq<RiskAreaV>|
        ps.len() < 0x1_0000_0000_0000_0000 && (forall|i: int|
            0 <= i < ps.len() ==> risk_area_sizes_ok(#[trigger] ps[i]));
    assert forall|v: Seq<RiskAreaV>, p: int|
        wf(v) && #[trigger] is_prefix(enc_risk_list(v), s, p) implies dec_risk_list(s, p) == Some(
        (v, p + enc_risk_list(v).len()),
    ) by {
        lemma_risk_list_round_trip(v, s, p);
    }
    lemma_opt_round_trip(
        o,
        wf,
        |ps: Seq<RiskAreaV>| enc_risk_list(ps),
        |b: Seq<u8>, p: int| dec_risk_list(b, p),
        s,
        pos,
    );
}

pub open spec fn enc_outlook(o: OutlookV) -> Seq<u8> {
    enc_swo_type(o.swo_type) + enc_risk(o.max_risk) + enc_opt_risk_list(o.polys)
}

pub open spec fn outlook_sizes_ok(o: OutlookV) -> bool {
    o.polys matches Some(ps) ==> ps.len() < 0x1_0000_0000_0000_0000 && (forall|i: int|
        0 <= i < ps.len() ==> risk_area_sizes_ok(#[trigger] ps[i]))
}

pub open spec fn dec_outlook(s: Seq<u8>, pos: int) -> Option<(OutlookV, int)> {
    match dec_swo_type(s, pos) {
        None => None,
        Some((swo_type, p1)) => match dec_risk(s, p1) {
            None => None,
            Some((max_risk, p2)) => match dec_opt_risk_list(s, p2) {
                None => None,
                Some((polys, p3)) => Some((OutlookV { swo_type, max_risk, polys }, p3)),
            },
        },
    }
}

/// Round trip: parsing an encoded outlook yields it back.
pub proof fn lemma_outlook_round_trip(o: OutlookV, s: Seq<u8>, pos: int)
    requires
        outlook_sizes_ok(o),
        is_prefix(enc_outlook(o), s, pos),
    ensures
        dec_outlook(s, pos) == Some((o, pos + enc_outlook(o).len())),
{
    let a = enc_swo_type(o.swo_type);
    let b = enc_risk(o.max_risk);
    let c = enc_opt_risk_list(o.polys);
    lemma_prefix_split(a + b, c, s, pos);
    lemma_prefix_split(a, b, s, pos);
    lemma_swo_type_round_trip(o.swo_type, s, pos);
    lemma_risk_round_trip(o.max_risk, s, pos + a.len());
    lemma_opt_risk_list_round_trip(o.polys, s, pos + a.len() + b.len());
}

pub fn encode_outlook(buf: &mut Vec<u8>, o: &Outlook)
    ensures
        final(buf)@ == old(buf)@ + enc_outlook(o@),
{
    encode_swo_type(buf, o.swo_type);
    encode_risk(buf, o.max_risk);
    match &o.polys {
        None => {
            buf.push(0);
        },
        Some(ps) => {
            buf.push(1);
            encode_risk_vec(buf, ps);
        },
    }
    proof {
        assert(buf@ =~= old(buf)@ + enc_outlook(o@));
    }
}

pub fn decode_outlook(bytes: &[u8], pos: usize) -> (r: Option<(Outlook, usize)>)
    ensures
        r is Some <==> dec_outlook(bytes@, pos as int) is Some,
        r matches Some((v, p)) ==> dec_outlook(bytes@, pos as int) == Some((v@, p as int)),
{
    match decode_swo_type(bytes, pos) {
        None => None,
        Some((swo_type, p1)) => match decode_risk(bytes, p1) {
            None => None,
            Some((max_risk, p2)) => {
                if p2 < bytes.len() {
                    let tag = bytes[p2];
                    if tag == 0 {
                        Some((Outlook { swo_type, max_risk, polys: None }, p2 + 1))
                    } else if tag == 1 {
                        match decode_risk_vec(bytes, p2 + 1) {
                            None => None,
                            Some((ps, p3)) => Some(
                                (Outlook { swo_type, max_risk, polys: Some(ps) }, p3),
                            ),
                        }
                    } else {
                        None
                    }
                } else {
                    None
                }
            },
        },
    }
}

// ---------------------------------------------------------------------------
// String lists and mesoscale discussions
// ---------------------------------------------------------------------------

pub open spec fn enc_str_list(s: Seq<Seq<char>>) -> Seq<u8> {
    enc_seq_of(s, |c: Seq<char>| enc_str(c))
}

pub open spec fn dec_str_list(s: Seq<u8>, pos: int) -> Option<(Seq<Seq<char>>, int)> {
    dec_seq_of(s, pos, |b: Seq<u8>, p: int| dec_str(b, p))
}

/// Round trip: parsing an encoded string list yields it back.
pub proof fn lemma_str_list_round_trip(s: Seq<Seq<char>>, bytes: Seq<u8>, pos: int)
    requires
        s.len() < 0x1_0000_0000_0000_0000,
        forall|i: int|
            0 <= i < s.len() ==> encode_utf8(#[trigger] s[i]).len() < 0x1_0000_0000_0000_0000,
        is_prefix(enc_str_list(s), bytes, pos),
    ensures
        dec_str_list(bytes, pos) == Some((s, pos + enc_str_list(s).len())),
{
    let wf = |c: Seq<char>| encode_utf8(c).len() < 0x1_0000_0000_0000_0000;
    assert forall|v: Seq<char>, p: int|
        wf(v) && #[trigger] is_prefix(enc_str(v), bytes, p) implies dec_str(bytes, p) == Some(
        (v, p + enc_str(v).len()),
    ) by {
        lemma_str_round_trip(v, bytes, p);
    }
    lemma_seq_round_trip(
        s,
        wf,
        |c: Seq<char>| enc_str(c),
        |b: Seq<u8>, p: int| dec_str(b, p),
        bytes,
        pos,
    );
}

#[verifier::loop_isolation(false)]
pub fn encode_string_vec(buf: &mut Vec<u8>, v: &Vec<String>)
    ensures
        final(buf)@ == old(buf)@ + enc_str_list(views_of(v@)),
{
    encode_u64(buf, v.len() as u64);
    let n = v.len();
    let mut i: usize = 0;
    while i < n
        invariant
            0 <= i <= n,
            n == v@.len(),
            buf@ == old(buf)@ + enc_u64(v@.len() as u64) + enc_items(
                views_of(v@).take(i as int),
                (|c: Seq<char>| enc_str(c)),
            ),
        decreases n - i,
    {
        encode_string(buf, v[i].as_str());
        proof {
            lemma_enc_items_take(views_of(v@), |c: Seq<char>| enc_str(c), i as int);
            assert(views_of(v@)[i as int] == v@[i as int]@);
            assert(buf@ =~= old(buf)@ + enc_u64(v@.len() as u64) + enc_items(
                views_of(v@).take(i + 1),
                (|c: Seq<char>| enc_str(c)),
            ));
        }
        i = i + 1;
    }
    proof {
        assert(views_of(v@).take(n as int) =~= views_of(v@));
        assert(buf@ =~= old(buf)@ + enc_str_list(views_of(v@)));
    }
}

#[verifier::loop_isolation(false)]
pub fn decode_string_vec(bytes: &[u8], pos: usize) -> (r: Option<(Vec<String>, usize)>)
    ensures
        r is Some <==> dec_str_list(bytes@, pos as int) is Some,
        r matches Some((v, p)) ==> dec_str_list(bytes@, pos as int) == Some(
            (views_of(v@), p as int),
        ),
{
    match decode_u64(bytes, pos) {
        None => None,
        Some((n, p0)) => {
            let mut acc: Vec<String> = Vec::new();
            let mut cur: usize = p0;
            let mut i: u64 = 0;
            while i < n
                invariant
                    0 <= i <= n,
                    dec_items::<Seq<char>>(
                        bytes@,
                        p0 as int,
                        n as nat,
                        (|b: Seq<u8>, p: int| dec_str(b, p)),
                    ) == (match dec_items::<Seq<char>>(
                        bytes@,
                        cur as int,
                        (n - i) as nat,
                        (|b: Seq<u8>, p: int| dec_str(b, p)),
                    ) {
                        Some((rest, end)) => Some((views_of(acc@) + rest, end)),
                        None => None::<(Seq<Seq<char>>, int)>,
                    }),
                decreases n - i,
            {
                match decode_string(bytes, cur) {
                    None => {
                        return None;
                    },
                    Some((st, p2)) => {
                        proof {
                            let fd = |b: Seq<u8>, p: int| dec_str(b, p);
                            let tail = dec_items::<Seq<char>>(
                                bytes@,
                                p2 as int,
                                (n - i - 1) as nat,
                                fd,
                            );
                            if tail is Some {
                                let rest = tail->Some_0.0;
                                assert(views_of(acc@) + (seq![st@] + rest) =~= (views_of(acc@)
                                    + seq![st@]) + rest);
                            }
                            assert(views_of(acc@.push(st)) =~= views_of(acc@) + seq![st@]);
                        }
                        acc.push(st);
                        cur = p2;
                        i = i + 1;
                    },
                }
            }
            proof {
                assert(views_of(acc@) + Seq::<Seq<char>>::empty() =~= views_of(acc@));
            }
            Some((acc, cur))
        },
    }
}

pub open spec fn enc_md(m: MesoscaleDiscussionV) -> Seq<u8> {
    enc_u16(m.id) + enc_str(m.affected) + enc_md_concerning(m.concerning) + enc_opt_u16(
        m.watch_issuance_probability,
    ) + enc_str_list(m.wfos)
}

pub open spec fn md_sizes_ok(m: MesoscaleDiscussionV) -> bool {
    &&& encode_utf8(m.affected).len() < 0x1_0000_0000_0000_0000
    &&& m.wfos.len() < 0x1_0000_0000_0000_0000
    &&& (forall|i: int|
        0 <= i < m.wfos.len() ==> encode_utf8(#[trigger] m.wfos[i]).len()
            < 0x1_0000_0000_0000_0000)
}

pub open spec fn dec_md(s: Seq<u8>, pos: int) -> Option<(MesoscaleDiscussionV, int)> {
    match dec_u16(s, pos) {
        None => None,
        Some((id, p1)) => match dec_str(s, p1) {
            None => None,
            Some((affected, p2)) => match dec_md_concerning(s, p2) {
                None => None,
                Some((concerning, p3)) => match dec_opt_u16(s, p3) {
                    None => None,
                    Some((watch_issuance_probability, p4)) => match dec_str_list(s, p4) {
                        None => None,
                        Some((wfos, p5)) => Some(
                            (
                                MesoscaleDiscussionV {
                                    id,
                                    affected,
                                    concerning,
                                    watch_issuance_probability,
                                    wfos,
                                },
                                p5,
                            ),
                        ),
                    },
                },
            },
        },
    }
}

/// Round trip: parsing an encoded mesoscale discussion yields it back.
pub proof fn lemma_md_round_trip(m: MesoscaleDiscussionV, s: Seq<u8>, pos: int)
    requires
        md_sizes_ok(m),
        is_prefix(enc_md(m), s, pos),
    ensures
        dec_md(s, pos) == Some((m, pos + enc_md(m).len())),
{
    let a = enc_u16(m.id);
    let b = enc_str(m.affected);
    let c = enc_md_concerning(m.concerning);
    let d = enc_opt_u16(m.watch_issuance_probability);
    let e = enc_str_list(m.wfos);
    lemma_prefix_split(a + b + c + d, e, s, pos);
    lemma_prefix_split(a + b + c, d, s, pos);
    lemma_prefix_split(a + b, c, s, pos);
    lemma_prefix_split(a, b, s, pos);
    lemma_u16_round_trip(m.id, s, pos);
    lemma_str_round_trip(m.affected, s, pos + a.len());
    lemma_md_concerning_round_trip(m.concerning, s, pos + a.len() + b.len());
    lemma_opt_u16_round_trip(m.watch_issuance_probability, s, pos + a.len() + b.len() + c.len());
    lemma_str_list_round_trip(m.wfos, s, pos + a.len() + b.len() + c.len() + d.len());
}

pub fn encode_md(buf: &mut Vec<u8>, m: &MesoscaleDiscussion)
    ensures
        final(buf)@ == old(buf)@ + enc_md(m@),
{
    encode_u16(buf, m.id);
    encode_string(buf, m.affected.as_str());
    encode_md_concerning(buf, m.concerning);
    encode_opt_u16(buf, &m.watch_issuance_probability);
    encode_string_vec(buf, &m.wfos);
    proof {
        assert(buf@ =~= old(buf)@ + enc_md(m@));
    }
}

pub fn decode_md(bytes: &[u8], pos: usize) -> (r: Option<(MesoscaleDiscussion, usize)>)
    ensures
        r is Some <==> dec_md(bytes@, pos as int) is Some,
        r matches Some((v, p)) ==> dec_md(bytes@, pos as int) == Some((v@, p as int)),
{
    match decode_u16(bytes, pos) {
        None => None,
        Some((id, p1)) => match decode_string(bytes, p1) {
            None => None,
            Some((affected, p2)) => match decode_md_concerning(bytes, p2) {
                None => None,
                Some((concerning, p3)) => match decode_opt_u16(bytes, p3) {
                    None => None,
                    Some((watch_issuance_probability, p4)) => match decode_string_vec(bytes, p4) {
                        None => None,
                        Some((wfos, p5)) => Some(
                            (
                                MesoscaleDiscussion {
                                    id,
                                    affected,
                                    concerning,
                                    watch_issuance_probability,
                                    wfos,
                                },
                                p5,
                            ),
                        ),
                    },
                },
            },
        },
    }
}

// ---------------------------------------------------------------------------
// Options of the event payload structs
// ---------------------------------------------------------------------------

pub open spec fn enc_opt_location(o: Option<LocationV>) -> Seq<u8> {
    enc_opt(o, |v: LocationV| enc_location(v))
}

pub open spec fn dec_opt_location(s: Seq<u8>, pos: int) -> Option<(Option<LocationV>, int)> {
    dec_opt(s, pos, |b: Seq<u8>, p: int| dec_location(b, p))
}

/// Round trip: parsing an encoded optional location yields it back.
pub proof fn lemma_opt_location_round_trip(o: Option<LocationV>, s: Seq<u8>, pos: int)
    requires
        o matches Some(v) ==> location_sizes_ok(v),
        is_prefix(enc_opt_location(o), s, pos),
    ensures
        dec_opt_location(s, pos) == Some((o, pos + enc_opt_location(o).len())),
{
    assert forall|v: LocationV, p: int|
        location_sizes_ok(v) && #[trigger] is_prefix(enc_location(v), s, p) implies dec_location(
        s,
        p,
    ) == Some((v, p + enc_location(v).len())) by {
        lemma_location_round_trip(v, s, p);
    }
    lemma_opt_round_trip(
        o,
        |v: LocationV| location_sizes_ok(v),
        |v: LocationV| enc_location(v),
        |b: Seq<u8>, p: int| dec_location(b, p),
        s,
        pos,
    );
}

pub fn encode_opt_location(buf: &mut Vec<u8>, o: &Option<Location>)
    ensures
        final(buf)@ == old(buf)@ + enc_opt_location(opt_view(*o)),
{
    match o {
        None => {
            buf.push(0);
            proof {
                assert(buf@ =~= old(buf)@ + enc_opt_location(opt_view(*o)));
            }
        },
        Some(v) => {
            buf.push(1);
            encode_location(buf, v);
            proof {
                assert(buf@ =~= old(buf)@ + enc_opt_location(opt_view(*o)));
            }
        },
    }
}

pub fn decode_opt_location(bytes: &[u8], pos: usize) -> (r: Option<(Option<Location>, usize)>)
    ensures
        r is Some <==> dec_opt_location(bytes@, pos as int) is Some,
        r matches Some((v, p)) ==> dec_opt_location(bytes@, pos as int) == Some(
            (opt_view(v), p as int),
        ),
{
    if pos < bytes.len() {
        let b = bytes[pos];
        if b == 0 {
            Some((None, pos + 1))
        } else if b == 1 {
            match decode_location(bytes, pos + 1) {
                Some((v, p)) => Some((Some(v), p)),
                None => None,
            }
        } else {
            None
        }
    } else {
        None
    }
}

pub open spec fn enc_opt_md(o: Option<MesoscaleDiscussionV>) -> Seq<u8> {
    enc_opt(o, |v: MesoscaleDiscussionV| enc_md(v))
}

pub open spec fn dec_opt_md(s: Seq<u8>, pos: int) -> Option<(Option<MesoscaleDiscussionV>, int)> {
    dec_opt(s, pos, |b: Seq<u8>, p: int| dec_md(b, p))
}

/// Round trip: parsing an encoded optional discussion yields it back.
pub proof fn lemma_opt_md_round_trip(o: Option<MesoscaleDiscussionV>, s: Seq<u8>, pos: int)
    requires
        o matches Some(v) ==> md_sizes_ok(v),
        is_prefix(enc_opt_md(o), s, pos),
    ensures
        dec_opt_md(s, pos) == Some((o, pos + enc_opt_md(o).len())),
{
    assert forall|v: MesoscaleDiscussionV, p: int|
        md_sizes_ok(v) && #[trigger] is_prefix(enc_md(v), s, p) implies dec_md(s, p) == Some(
        (v, p + enc_md(v).len()),
    ) by {
        lemma_md_round_trip(v, s, p);
    }
    lemma_opt_round_trip(
        o,
        |v: MesoscaleDiscussionV| md_sizes_ok(v),
        |v: MesoscaleDiscussionV| enc_md(v),
        |b: Seq<u8>, p: int| dec_md(b, p),
        s,
        pos,
    );
}

pub fn encode_opt_md(buf: &mut Vec<u8>, o: &Option<MesoscaleDiscussion>)
    ensures
        final(buf)@ == old(buf)@ + enc_opt_md(opt_view(*o)),
{
    match o {
        None => {
            buf.push(0);
            proof {
                assert(buf@ =~= old(buf)@ + enc_opt_md(opt_view(*o)));
            }
        },
        Some(v) => {
            buf.push(1);
            encode_md(buf, v);
            proof {
                assert(buf@ =~= old(buf)@ + enc_opt_md(opt_view(*o)));
            }
        },
    }
}

pub fn decode_opt_md(bytes: &[u8], pos: usize) -> (r: Option<
    (Option<MesoscaleDiscussion>, usize),
>)
    ensures
        r is Some <==> dec_opt_md(bytes@, pos as int) is Some,
        r matches Some((v, p)) ==> dec_opt_md(bytes@, pos as int) == Some(
            (opt_view(v), p as int),
        ),
{
    if pos < bytes.len() {
        let b = bytes[pos];
        if b == 0 {
            Some((None, pos + 1))
        } else if b == 1 {
            match decode_md(bytes, pos + 1) {
                Some((v, p)) => Some((Some(v), p)),
                None => None,
            }
        } else {
            None
        }
    } else {
        None
    }
}

pub open spec fn enc_opt_outlook(o: Option<OutlookV>) -> Seq<u8> {
    enc_opt(o, |v: OutlookV| enc_outlook(v))
}

pub open spec fn dec_opt_outlook(s: Seq<u8>, pos: int) -> Option<(Option<OutlookV>, int)> {
    dec_opt(s, pos, |b: Seq<u8>, p: int| dec_outlook(b, p))
}

/// Round trip: parsing an encoded optional outlook yields it back.
pub proof fn lemma_opt_outlook_round_trip(o: Option<OutlookV>, s: Seq<u8>, pos: int)
    requires
        o matches Some(v) ==> outlook_sizes_ok(v),
        is_prefix(enc_opt_outlook(o), s, pos),
    ensures
        dec_opt_outlook(s, pos) == Some((o, pos + enc_opt_outlook(o).len())),
{
    assert forall|v: OutlookV, p: int|
        outlook_sizes_ok(v) && #[trigger] is_prefix(enc_outlook(v), s, p) implies dec_outlook(
        s,
        p,
    ) == Some((v, p + enc_outlook(v).len())) by {
        lemma_outlook_round_trip(v, s, p);
    }
    lemma_opt_round_trip(
        o,
        |v: OutlookV| outlook_sizes_ok(v),
        |v: OutlookV| enc_outlook(v),
        |b: Seq<u8>, p: int| dec_outlook(b, p),
        s,
        pos,
    );
}

pub fn encode_opt_outlook(buf: &mut Vec<u8>, o: &Option<Outlook>)
    ensures
        final(buf)@ == old(buf)@ + enc_opt_outlook(opt_view(*o)),
{
    match o {
        None => {
            buf.push(0);
            proof {
                assert(buf@ =~= old(buf)@ + enc_opt_outlook(opt_view(*o)));
            }
        },
        Some(v) => {
            buf.push(1);
            encode_outlook(buf, v);
            proof {
                assert(buf@ =~= old(buf)@ + enc_opt_outlook(opt_view(*o)));
            }
        },
    }
}

pub fn decode_opt_outlook(bytes: &[u8], pos: usize) -> (r: Option<(Option<Outlook>, usize)>)
    ensures
        r is Some <==> dec_opt_outlook(bytes@, pos as int) is Some,
        r matches Some((v, p)) ==> dec_opt_outlook(bytes@, pos as int) == Some(
            (opt_view(v), p as int),
        ),
{
    if pos < bytes.len() {
        let b = bytes[pos];
        if b == 0 {
            Some((None, pos + 1))
        } else if b == 1 {
            match decode_outlook(bytes, pos + 1) {
                Some((v, p)) => Some((Some(v), p)),
                None => None,
            }
        } else {
            None
        }
    } else {
        None
    }
}

pub open spec fn enc_opt_report(o: Option<ReportV>) -> Seq<u8> {
    enc_opt(o, |v: ReportV| enc_report(v))
}

pub open spec fn dec_opt_report(s: Seq<u8>, pos: int) -> Option<(Option<ReportV>, int)> {
    dec_opt(s, pos, |b: Seq<u8>, p: int| dec_report(b, p))
}

/// Round trip: parsing an encoded optional report yields it back.
pub proof fn lemma_opt_report_round_trip(o: Option<ReportV>, s: Seq<u8>, pos: int)
    requires
        o matches Some(v) ==> report_sizes_ok(v),
        is_prefix(enc_opt_report(o), s, pos),
    ensures
        dec_opt_report(s, pos) == Some((o, pos + enc_opt_report(o).len())),
{
    assert forall|v: ReportV, p: int|
        report_sizes_ok(v) && #[trigger] is_prefix(enc_report(v), s, p) implies dec_report(s, p)
        == Some((v, p + enc_report(v).len())) by {
        lemma_report_round_trip(v, s, p);
    }
    lemma_opt_round_trip(
        o,
        |v: ReportV| report_sizes_ok(v),
        |v: ReportV| enc_report(v),
        |b: Seq<u8>, p: int| dec_report(b, p),
        s,
        pos,
    );
}

pub fn encode_opt_report(buf: &mut Vec<u8>, o: &Option<Report>)
    ensures
        final(buf)@ == old(buf)@ + enc_opt_report(opt_view(*o)),
{
    match o {
        None => {
            buf.push(0);
            proof {
                assert(buf@ =~= old(buf)@ + enc_opt_report(opt_view(*o)));
            }
        },
        Some(v) => {
            buf.push(1);
            encode_report(buf, v);
            proof {
                assert(buf@ =~= old(buf)@ + enc_opt_report(opt_view(*o)));
            }
        },
    }
}

pub fn decode_opt_report(bytes: &[u8], pos: usize) -> (r: Option<(Option<Report>, usize)>)
    ensures
        r is Some <==> dec_opt_report(bytes@, pos as int) is Some,
        r matches Some((v, p)) ==> dec_opt_report(bytes@, pos as int) == Some(
            (opt_view(v), p as int),
        ),
{
    if pos < bytes.len() {
        let b = bytes[pos];
        if b == 0 {
            Some((None, pos + 1))
        } else if b == 1 {
            match decode_report(bytes, pos + 1) {
                Some((v, p)) => Some((Some(v), p)),
                None => None,
            }
        } else {
            None
        }
    } else {
        None
    }
}

pub open spec fn enc_opt_warning(o: Option<WarningV>) -> Seq<u8> {
    enc_opt(o, |v: WarningV| enc_warning(v))
}

pub open spec fn dec_opt_warning(s: Seq<u8>, pos: int) -> Option<(Option<WarningV>, int)> {
    dec_opt(s, pos, |b: Seq<u8>, p: int| dec_warning(b, p))
}

/// Round trip: parsing an encoded optional warning yields it back.
pub proof fn lemma_opt_warning_round_trip(o: Option<WarningV>, s: Seq<u8>, pos: int)
    requires
        o matches Some(v) ==> warning_sizes_ok(v),
        is_prefix(enc_opt_warning(o), s, pos),
    ensures
        dec_opt_warning(s, pos) == Some((o, pos + enc_opt_warning(o).len())),
{
    assert forall|v: WarningV, p: int|
        warning_sizes_ok(v) && #[trigger] is_prefix(enc_warning(v), s, p) implies dec_warning(
        s,
        p,
    ) == Some((v, p + enc_warning(v).len())) by {
        lemma_warning_round_trip(v, s, p);
    }
    lemma_opt_round_trip(
        o,
        |v: WarningV| warning_sizes_ok(v),
        |v: WarningV| enc_warning(v),
        |b: Seq<u8>, p: int| dec_warning(b, p),
        s,
        pos,
    );
}

pub fn encode_opt_warning(buf: &mut Vec<u8>, o: &Option<Warning>)
    ensures
        final(buf)@ == old(buf)@ + enc_opt_warning(opt_view(*o)),
{
    match o {
        None => {
            buf.push(0);
            proof {
                assert(buf@ =~= old(buf)@ + enc_opt_warning(opt_view(*o)));
            }
        },
        Some(v) => {
            buf.push(1);
            encode_warning(buf, v);
            proof {
                assert(buf@ =~= old(buf)@ + enc_opt_warning(opt_view(*o)));
            }
        },
    }
}

pub fn decode_opt_warning(bytes: &[u8], pos: usize) -> (r: Option<(Option<Warning>, usize)>)
    ensures
        r is Some <==> dec_opt_warning(bytes@, pos as int) is Some,
        r matches Some((v, p)) ==> dec_opt_warning(bytes@, pos as int) == Some(
            (opt_view(v), p as int),
        ),
{
    if pos < bytes.len() {
        let b = bytes[pos];
        if b == 0 {
            Some((None, pos + 1))
        } else if b == 1 {
            match decode_warning(bytes, pos + 1) {
                Some((v, p)) => Some((Some(v), p)),
                None => None,
            }
        } else {
            None
        }
    } else {
        None
    }
}

pub open spec fn enc_opt_watch(o: Option<WatchV>) -> Seq<u8> {
    enc_opt(o, |v: WatchV| enc_watch(v))
}

pub open spec fn dec_opt_watch(s: Seq<u8>, pos: int) -> Option<(Option<WatchV>, int)> {
    dec_opt(s, pos, |b: Seq<u8>, p: int| dec_watch(b, p))
}

/// Round trip: parsing an encoded optional watch yields it back.
pub proof fn lemma_opt_watch_round_trip(o: Option<WatchV>, s: Seq<u8>, pos: int)
    requires
        o matches Some(v) ==> watch_sizes_ok(v),
        is_prefix(enc_opt_watch(o), s, pos),
    ensures
        dec_opt_watch(s, pos) == Some((o, pos + enc_opt_watch(o).len())),
{
    assert forall|v: WatchV, p: int|
        watch_sizes_ok(v) && #[trigger] is_prefix(enc_watch(v), s, p) implies dec_watch(s, p)
        == Some((v, p + enc_watch(v).len())) by {
        lemma_watch_round_trip(v, s, p);
    }
    lemma_opt_round_trip(
        o,
        |v: WatchV| watch_sizes_ok(v),
        |v: WatchV| enc_watch(v),
        |b: Seq<u8>, p: int| dec_watch(b, p),
        s,
        pos,
    );
}

pub fn encode_opt_watch(buf: &mut Vec<u8>, o: &Option<Watch>)
    ensures
        final(buf)@ == old(buf)@ + enc_opt_watch(opt_view(*o)),
{
    match o {
        None => {
            buf.push(0);
            proof {
                assert(buf@ =~= old(buf)@ + enc_opt_watch(opt_view(*o)));
            }
        },
        Some(v) => {
            buf.push(1);
            encode_watch(buf, v);
            proof {
                assert(buf@ =~= old(buf)@ + enc_opt_watch(opt_view(*o)));
            }
        },
    }
}

pub fn decode_opt_watch(bytes: &[u8], pos: usize) -> (r: Option<(Option<Watch>, usize)>)
    ensures
        r is Some <==> dec_opt_watch(bytes@, pos as int) is Some,
        r matches Some((v, p)) ==> dec_opt_watch(bytes@, pos as int) == Some(
            (opt_view(v), p as int),
        ),
{
    if pos < bytes.len() {
        let b = bytes[pos];
        if b == 0 {
            Some((None, pos + 1))
        } else if b == 1 {
            match decode_watch(bytes, pos + 1) {
                Some((v, p)) => Some((Some(v), p)),
                None => None,
            }
        } else {
            None
        }
    } else {
        None
    }
}

// ---------------------------------------------------------------------------
// Events
// ---------------------------------------------------------------------------

pub open spec fn enc_event(e: EventV) -> Seq<u8> {
    enc_u64(e.event_ts) + enc_event_type(e.event_type) + enc_opt_u64(e.expires_ts) + enc_opt_str(
        e.ext_uri,
    ) + enc_u64(e.ingest_ts) + enc_opt_location(e.location) + enc_opt_md(e.md) + enc_opt_outlook(
        e.outlook,
    ) + enc_opt_report(e.report) + enc_opt_str(e.text) + enc_str(e.title) + enc_opt_u64(
        e.valid_ts,
    ) + enc_opt_warning(e.warning) + enc_opt_watch(e.watch)
}

pub open spec fn event_sizes_ok(e: EventV) -> bool {
    &&& (e.ext_uri matches Some(c) ==> encode_utf8(c).len() < 0x1_0000_0000_0000_0000)
    &&& (e.location matches Some(v) ==> location_sizes_ok(v))
    &&& (e.md matches Some(v) ==> md_sizes_ok(v))
    &&& (e.outlook matches Some(v) ==> outlook_sizes_ok(v))
    &&& (e.report matches Some(v) ==> report_sizes_ok(v))
    &&& (e.text matches Some(c) ==> encode_utf8(c).len() < 0x1_0000_0000_0000_0000)
    &&& encode_utf8(e.title).len() < 0x1_0000_0000_0000_0000
    &&& (e.warning matches Some(v) ==> warning_sizes_ok(v))
    &&& (e.watch matches Some(v) ==> watch_sizes_ok(v))
}

pub open spec fn dec_event(s: Seq<u8>, pos: int) -> Option<(EventV, int)> {
    match dec_u64(s, pos) {
        None => None,
        Some((event_ts, p1)) => match dec_event_type(s, p1) {
            None => None,
            Some((event_type, p2)) => match dec_opt_u64(s, p2) {
                None => None,
                Some((expires_ts, p3)) => match dec_opt_str(s, p3) {
                    None => None,
                    Some((ext_uri, p4)) => match dec_u64(s, p4) {
                        None => None,
                        Some((ingest_ts, p5)) => match dec_opt_location(s, p5) {
                            None => None,
                            Some((location, p6)) => match dec_opt_md(s, p6) {
                                None => None,
                                Some((md, p7)) => match dec_opt_outlook(s, p7) {
                                    None => None,
                                    Some((outlook, p8)) => match dec_opt_report(s, p8) {
                                        None => None,
                                        Some((report, p9)) => match dec_opt_str(s, p9) {
                                            None => None,
                                            Some((text, p10)) => match dec_str(s, p10) {
                                                None => None,
                                                Some((title, p11)) => match dec_opt_u64(s, p11) {
                                                    None => None,
                                                    Some((valid_ts, p12)) => match dec_opt_warning(
                                                        s,
                                                        p12,
                                                    ) {
                                                        None => None,
                                                        Some((warning, p13)) => match dec_opt_watch(
                                                            s,
                                                            p13,
                                                        ) {
                                                            None => None,
                                                            Some((watch, p14)) => Some(
                                                                (
                                                                    EventV {
                                                                        event_ts,
                                                                        event_type,
                                                                        expires_ts,
                                                                        ext_uri,
                                                                        ingest_ts,
                                                                        location,
                                                                        md,
                                                                        outlook,
                                                                        report,
                                                                        text,
                                                                        title,
                                                                        valid_ts,
                                                                        warning,
                                                                        watch,
                                                                    },
                                                                    p14,
                                                                ),
                                                            ),
                                                        },
                                                    },
                                                },
                                            },
                                        },
                                    },
                                },
                            },
                        },
                    },
                },
            },
        },
    }
}

/// Round trip: parsing an encoded event yields it back, every field
/// preserved exactly.
/// Splits a run of fourteen consecutive pieces into a prefix fact for each.
#[verifier::rlimit(100)]
#[verifier::spinoff_prover]
proof fn lemma_split14(
    a: Seq<u8>, b: Seq<u8>, c: Seq<u8>, d: Seq<u8>, f: Seq<u8>, g: Seq<u8>, h: Seq<u8>,
    i: Seq<u8>, j: Seq<u8>, k: Seq<u8>, l: Seq<u8>, m: Seq<u8>, n: Seq<u8>, o: Seq<u8>,
    s: Seq<u8>, pos: int,
)
    requires
        is_prefix(a + b + c + d + f + g + h + i + j + k + l + m + n + o, s, pos),
    ensures
        is_prefix(a, s, pos),
        is_prefix(b, s, pos + a.len()),
        is_prefix(c, s, pos + a.len() + b.len()),
        is_prefix(d, s, pos + a.len() + b.len() + c.len()),
        is_prefix(f, s, pos + a.len() + b.len() + c.len() + d.len()),
        is_prefix(g, s, pos + a.len() + b.len() + c.len() + d.len() + f.len()),
        is_prefix(h, s, pos + a.len() + b.len() + c.len() + d.len() + f.len() + g.len()),
        is_prefix(
            i,
            s,
            pos + a.len() + b.len() + c.len() + d.len() + f.len() + g.len() + h.len(),
        ),
        is_prefix(
            j,
            s,
            pos + a.len() + b.len() + c.len() + d.len() + f.len() + g.len() + h.len() + i.len(),
        ),
        is_prefix(
            k,
            s,
            pos + a.len() + b.len() + c.len() + d.len() + f.len() + g.len() + h.len() + i.len()
                + j.len(),
        ),
        is_prefix(
            l,
            s,
            pos + a.len() + b.len() + c.len() + d.len() + f.len() + g.len() + h.len() + i.len()
                + j.len() + k.len(),
        ),
        is_prefix(
            m,
            s,
            pos + a.len() + b.len() + c.len() + d.len() + f.len() + g.len() + h.len() + i.len()
                + j.len() + k.len() + l.len(),
        ),
        is_prefix(
            n,
            s,
            pos + a.len() + b.len() + c.len() + d.len() + f.len() + g.len() + h.len() + i.len()
                + j.len() + k.len() + l.len() + m.len(),
        ),
        is_prefix(
            o,
            s,
            pos + a.len() + b.len() + c.len() + d.len() + f.len() + g.len() + h.len() + i.len()
                + j.len() + k.len() + l.len() + m.len() + n.len(),
        ),
{
    lemma_prefix_split(a + b + c + d + f + g + h + i + j + k + l + m + n, o, s, pos);
    lemma_prefix_split(a + b + c + d + f + g + h + i + j + k + l + m, n, s, pos);
    lemma_prefix_split(a + b + c + d + f + g + h + i + j + k + l, m, s, pos);
    lemma_prefix_split(a + b + c + d + f + g + h + i + j + k, l, s, pos);
    lemma_prefix_split(a + b + c + d + f + g + h + i + j, k, s, pos);
    lemma_prefix_split(a + b + c + d + f + g + h + i, j, s, pos);
    lemma_prefix_split(a + b + c + d + f + g + h, i, s, pos);
    lemma_prefix_split(a + b + c + d + f + g, h, s, pos);
    lemma_prefix_split(a + b + c + d + f, g, s, pos);
    lemma_prefix_split(a + b + c + d, f, s, pos);
    lemma_prefix_split(a + b + c, d, s, pos);
    lemma_prefix_split(a + b, c, s, pos);
    lemma_prefix_split(a, b, s, pos);
}

/// Composes one parse fact per field into the event parse result.
#[verifier::rlimit(100)]
#[verifier::spinoff_prover]
proof fn lemma_event_dec_compose(
    e: EventV, s: Seq<u8>, pos: int, p1: int, p2: int, p3: int, p4: int, p5: int, p6: int,
    p7: int, p8: int, p9: int, p10: int, p11: int, p12: int, p13: int, p14: int,
)
    requires
        dec_u64(s, pos) == Some((e.event_ts, p1)),
        dec_event_type(s, p1) == Some((e.event_type, p2)),
        dec_opt_u64(s, p2) == Some((e.expires_ts, p3)),
        dec_opt_str(s, p3) == Some((e.ext_uri, p4)),
        dec_u64(s, p4) == Some((e.ingest_ts, p5)),
        dec_opt_location(s, p5) == Some((e.location, p6)),
        dec_opt_md(s, p6) == Some((e.md, p7)),
        dec_opt_outlook(s, p7) == Some((e.outlook, p8)),
        dec_opt_report(s, p8) == Some((e.report, p9)),
        dec_opt_str(s, p9) == Some((e.text, p10)),
        dec_str(s, p10) == Some((e.title, p11)),
        dec_opt_u64(s, p11) == Some((e.valid_ts, p12)),
        dec_opt_warning(s, p12) == Some((e.warning, p13)),
        dec_opt_watch(s, p13) == Some((e.watch, p14)),
    ensures
        dec_event(s, pos) == Some((e, p14)),
{
}

/// Round trip: parsing an encoded event yields it back, every field
/// preserved exactly.
#[verifier::rlimit(100)]
#[verifier::spinoff_prover]
pub proof fn lemma_event_round_trip(e: EventV, s: Seq<u8>, pos: int)
    requires
        event_sizes_ok(e),
        is_prefix(enc_event(e), s, pos),
    ensures
        dec_event(s, pos) == Some((e, pos + enc_event(e).len())),
{
    let a = enc_u64(e.event_ts);
    let b = enc_event_type(e.event_type);
    let c = enc_opt_u64(e.expires_ts);
    let d = enc_opt_str(e.ext_uri);
    let f = enc_u64(e.ingest_ts);
    let g = enc_opt_location(e.location);
    let h = enc_opt_md(e.md);
    let i = enc_opt_outlook(e.outlook);
    let j = enc_opt_report(e.report);
    let k = enc_opt_str(e.text);
    let l = enc_str(e.title);
    let m = enc_opt_u64(e.valid_ts);
    let n = enc_opt_warning(e.warning);
    let o = enc_opt_watch(e.watch);
    let p1 = pos + a.len();
    let p2 = p1 + b.len();
    let p3 = p2 + c.len();
    let p4 = p3 + d.len();
    let p5 = p4 + f.len();
    let p6 = p5 + g.len();
    let p7 = p6 + h.len();
    let p8 = p7 + i.len();
    let p9 = p8 + j.len();
    let p10 = p9 + k.len();
    let p11 = p10 + l.len();
    let p12 = p11 + m.len();
    let p13 = p12 + n.len();
    let p14 = p13 + o.len();
    lemma_split14(a, b, c, d, f, g, h, i, j, k, l, m, n, o, s, pos);
    lemma_u64_round_trip(e.event_ts, s, pos);
    lemma_event_type_round_trip(e.event_type, s, p1);
    lemma_opt_u64_round_trip(e.expires_ts, s, p2);
    lemma_opt_str_round_trip(e.ext_uri, s, p3);
    lemma_u64_round_trip(e.ingest_ts, s, p4);
    lemma_opt_location_round_trip(e.location, s, p5);
    lemma_opt_md_round_trip(e.md, s, p6);
    lemma_opt_outlook_round_trip(e.outlook, s, p7);
    lemma_opt_report_round_trip(e.report, s, p8);
    lemma_opt_str_round_trip(e.text, s, p9);
    lemma_str_round_trip(e.title, s, p10);
    lemma_opt_u64_round_trip(e.valid_ts, s, p11);
    lemma_opt_warning_round_trip(e.warning, s, p12);
    lemma_opt_watch_round_trip(e.watch, s, p13);
    lemma_event_dec_compose(
        e, s, pos, p1, p2, p3, p4, p5, p6, p7, p8, p9, p10, p11, p12, p13, p14,
    );
    assert(pos + enc_event(e).len() == p14);
}

#[verifier::rlimit(100)]
pub fn encode_event(buf: &mut Vec<u8>, e: &Event)
    ensures
        final(buf)@ == old(buf)@ + enc_event(e@),
{
    encode_u64(buf, e.event_ts);
    encode_event_type(buf, e.event_type);
    encode_opt_u64(buf, &e.expires_ts);
    encode_opt_string(buf, &e.ext_uri);
    encode_u64(buf, e.ingest_ts);
    encode_opt_location(buf, &e.location);
    encode_opt_md(buf, &e.md);
    encode_opt_outlook(buf, &e.outlook);
    encode_opt_report(buf, &e.report);
    encode_opt_string(buf, &e.text);
    encode_string(buf, e.title.as_str());
    encode_opt_u64(buf, &e.valid_ts);
    encode_opt_warning(buf, &e.warning);
    encode_opt_watch(buf, &e.watch);
    proof {
        let o0 = old(buf)@;
        let a = enc_u64(e@.event_ts);
        let b = enc_event_type(e@.event_type);
        let c = enc_opt_u64(e@.expires_ts);
        let d = enc_opt_str(e@.ext_uri);
        let f = enc_u64(e@.ingest_ts);
        let g = enc_opt_location(e@.location);
        let h = enc_opt_md(e@.md);
        let i = enc_opt_outlook(e@.outlook);
        let j = enc_opt_report(e@.report);
        let k = enc_opt_str(e@.text);
        let l = enc_str(e@.title);
        let m = enc_opt_u64(e@.valid_ts);
        let n = enc_opt_warning(e@.warning);
        let o = enc_opt_watch(e@.watch);
        lemma_add_assoc(o0, a, b);
        lemma_add_assoc(o0, a + b, c);
        lemma_add_assoc(o0, a + b + c, d);
        lemma_add_assoc(o0, a + b + c + d, f);
        lemma_add_assoc(o0, a + b + c + d + f, g);
        lemma_add_assoc(o0, a + b + c + d + f + g, h);
        lemma_add_assoc(o0, a + b + c + d + f + g + h, i);
        lemma_add_assoc(o0, a + b + c + d + f + g + h + i, j);
        lemma_add_assoc(o0, a + b + c + d + f + g + h + i + j, k);
        lemma_add_assoc(o0, a + b + c + d + f + g + h + i + j + k, l);
        lemma_add_assoc(o0, a + b + c + d + f + g + h + i + j + k + l, m);
        lemma_add_assoc(o0, a + b + c + d + f + g + h + i + j + k + l + m, n);
        lemma_add_assoc(o0, a + b + c + d + f + g + h + i + j + k + l + m + n, o);
        assert(buf@ == o0 + enc_event(e@));
    }
}

pub fn decode_event(bytes: &[u8], pos: usize) -> (r: Option<(Event, usize)>)
    ensures
        r is Some <==> dec_event(bytes@, pos as int) is Some,
        r matches Some((v, p)) ==> dec_event(bytes@, pos as int) == Some((v@, p as int)),
{
    let (event_ts, p1) = match decode_u64(bytes, pos) {
        Some(x) => x,
        None => {
            return None;
        },
    };
    let (event_type, p2) = match decode_event_type(bytes, p1) {
        Some(x) => x,
        None => {
            return None;
        },
    };
    let (expires_ts, p3) = match decode_opt_u64(bytes, p2) {
        Some(x) => x,
        None => {
            return None;
        },
    };
    let (ext_uri, p4) = match decode_opt_string(bytes, p3) {
        Some(x) => x,
        None => {
            return None;
        },
    };
    let (ingest_ts, p5) = match decode_u64(bytes, p4) {
        Some(x) => x,
        None => {
            return None;
        },
    };
    let (location, p6) = match decode_opt_location(bytes, p5) {
        Some(x) => x,
        None => {
            return None;
        },
    };
    let (md, p7) = match decode_opt_md(bytes, p6) {
        Some(x) => x,
        None => {
            return None;
        },
    };
    let (outlook, p8) = match decode_opt_outlook(bytes, p7) {
        Some(x) => x,
        None => {
            return None;
        },
    };
    let (report, p9) = match decode_opt_report(bytes, p8) {
        Some(x) => x,
        None => {
            return None;
        },
    };
    let (text, p10) = match decode_opt_string(bytes, p9) {
        Some(x) => x,
        None => {
            return None;
        },
    };
    let (title, p11) = match decode_string(bytes, p10) {
        Some(x) => x,
        None => {
            return None;
        },
    };
    let (valid_ts, p12) = match decode_opt_u64(bytes, p11) {
        Some(x) => x,
        None => {
            return None;
        },
    };
    let (warning, p13) = match decode_opt_warning(bytes, p12) {
        Some(x) => x,
        None => {
            return None;
        },
    };
    let (watch, p14) = match decode_opt_watch(bytes, p13) {
        Some(x) => x,
        None => {
            return None;
        },
    };
    Some(
        (
            Event {
                event_ts,
                event_type,
                expires_ts,
                ext_uri,
                ingest_ts,
                location,
                md,
                outlook,
                report,
                text,
                title,
                valid_ts,
                warning,
                watch,
            },
            p14,
        ),
    )
}

pub open spec fn enc_event_list(s: Seq<EventV>) -> Seq<u8> {
    enc_seq_of(s, |e: EventV| enc_event(e))
}

pub open spec fn dec_event_list(s: Seq<u8>, pos: int) -> Option<(Seq<EventV>, int)> {
    dec_seq_of(s, pos, |b: Seq<u8>, p: int| dec_event(b, p))
}

/// Round trip: parsing an encoded event list yields it back.
pub proof fn lemma_event_list_round_trip(s: Seq<EventV>, bytes: Seq<u8>, pos: int)
    requires
        s.len() < 0x1_0000_0000_0000_0000,
        forall|i: int| 0 <= i < s.len() ==> event_sizes_ok(#[trigger] s[i]),
        is_prefix(enc_event_list(s), bytes, pos),
    ensures
        dec_event_list(bytes, pos) == Some((s, pos + enc_event_list(s).len())),
{
    assert forall|v: EventV, p: int|
        event_sizes_ok(v) && #[trigger] is_prefix(enc_event(v), bytes, p) implies dec_event(
        bytes,
        p,
    ) == Some((v, p + enc_event(v).len())) by {
        lemma_event_round_trip(v, bytes, p);
    }
    lemma_seq_round_trip(
        s,
        |e: EventV| event_sizes_ok(e),
        |e: EventV| enc_event(e),
        |b: Seq<u8>, p: int| dec_event(b, p),
        bytes,
        pos,
    );
}

#[verifier::loop_isolation(false)]
pub fn encode_events_vec(buf: &mut Vec<u8>, v: &Vec<Event>)
    ensures
        final(buf)@ == old(buf)@ + enc_event_list(views_of(v@)),
{
    encode_u64(buf, v.len() as u64);
    let n = v.len();
    let mut i: usize = 0;
    while i < n
        invariant
            0 <= i <= n,
            n == v@.len(),
            buf@ == old(buf)@ + enc_u64(v@.len() as u64) + enc_items(
                views_of(v@).take(i as int),
                (|e: EventV| enc_event(e)),
            ),
        decreases n - i,
    {
        encode_event(buf, &v[i]);
        proof {
            lemma_enc_items_take(views_of(v@), |e: EventV| enc_event(e), i as int);
            assert(views_of(v@)[i as int] == v@[i as int]@);
            assert(buf@ =~= old(buf)@ + enc_u64(v@.len() as u64) + enc_items(
                views_of(v@).take(i + 1),
                (|e: EventV| enc_event(e)),
            ));
        }
        i = i + 1;
    }
    proof {
        assert(views_of(v@).take(n as int) =~= views_of(v@));
        assert(buf@ =~= old(buf)@ + enc_event_list(views_of(v@)));
    }
}

#[verifier::rlimit(100)]
#[verifier::spinoff_prover]
#[verifier::loop_isolation(false)]
pub fn decode_events_vec(bytes: &[u8], pos: usize) -> (r: Option<(Vec<Event>, usize)>)
    ensures
        r is Some <==> dec_event_list(bytes@, pos as int) is Some,
        r matches Some((v, p)) ==> dec_event_list(bytes@, pos as int) == Some(
            (views_of(v@), p as int),
        ),
{
    match decode_u64(bytes, pos) {
        None => None,
        Some((n, p0)) => {
            let mut acc: Vec<Event> = Vec::new();
            let mut cur: usize = p0;
            let mut i: u64 = 0;
            while i < n
                invariant
                    0 <= i <= n,
                    dec_items::<EventV>(
                        bytes@,
                        p0 as int,
                        n as nat,
                        (|b: Seq<u8>, p: int| dec_event(b, p)),
                    ) == (match dec_items::<EventV>(
                        bytes@,
                        cur as int,
                        (n - i) as nat,
                        (|b: Seq<u8>, p: int| dec_event(b, p)),
                    ) {
                        Some((rest, end)) => Some((views_of(acc@) + rest, end)),
                        None => None::<(Seq<EventV>, int)>,
                    }),
                decreases n - i,
            {
                match decode_event(bytes, cur) {
                    None => {
                        return None;
                    },
                    Some((e, p2)) => {
                        proof {
                            let fd = |b: Seq<u8>, p: int| dec_event(b, p);
                            let tail = dec_items::<EventV>(bytes@, p2 as int, (n - i - 1) as nat, fd);
                            if tail is Some {
                                let rest = tail->Some_0.0;
                                assert(views_of(acc@) + (seq![e@] + rest) =~= (views_of(acc@)
                                    + seq![e@]) + rest);
                            }
                            assert(views_of(acc@.push(e)) =~= views_of(acc@) + seq![e@]);
                        }
                        acc.push(e);
                        cur = p2;
                        i = i + 1;
                    },
                }
            }
            proof {
                assert(views_of(acc@) + Seq::<EventV>::empty() =~= views_of(acc@));
            }
            Some((acc, cur))
        },
    }
}

// ---------------------------------------------------------------------------
// Fetch failures
// ---------------------------------------------------------------------------

pub open spec fn enc_fetch_failure(f: FetchFailure) -> Seq<u8> {
    enc_wx_app(f.app) + enc_u64(f.ingest_ts)
}

pub open spec fn dec_fetch_failure(s: Seq<u8>, pos: int) -> Option<(FetchFailure, int)> {
    match dec_wx_app(s, pos) {
        None => None,
        Some((app, p1)) => match dec_u64(s, p1) {
            None => None,
            Some((ingest_ts, p2)) => Some((FetchFailure { app, ingest_ts }, p2)),
        },
    }
}

/// Round trip: parsing an encoded fetch failure yields it back.
pub proof fn lemma_fetch_failure_round_trip(f: FetchFailure, s: Seq<u8>, pos: int)
    requires
        is_prefix(enc_fetch_failure(f), s, pos),
    ensures
        dec_fetch_failure(s, pos) == Some((f, pos + enc_fetch_failure(f).len())),
{
    lemma_prefix_split(enc_wx_app(f.app), enc_u64(f.ingest_ts), s, pos);
    lemma_wx_app_round_trip(f.app, s, pos);
    lemma_u64_round_trip(f.ingest_ts, s, pos + 4);
}

pub fn encode_fetch_failure(buf: &mut Vec<u8>, f: &FetchFailure)
    ensures
        final(buf)@ == old(buf)@ + enc_fetch_failure(*f),
{
    encode_wx_app(buf, f.app);
    encode_u64(buf, f.ingest_ts);
    proof {
        assert(buf@ =~= old(buf)@ + enc_fetch_failure(*f));
    }
}

pub fn decode_fetch_failure(bytes: &[u8], pos: usize) -> (r: Option<(FetchFailure, usize)>)
    ensures
        r is Some <==> dec_fetch_failure(bytes@, pos as int) is Some,
        r matches Some((v, p)) ==> dec_fetch_failure(bytes@, pos as int) == Some((v, p as int)),
{
    match decode_wx_app(bytes, pos) {
        None => None,
        Some((app, p1)) => match decode_u64(bytes, p1) {
            None => None,
            Some((ingest_ts, p2)) => Some((FetchFailure { app, ingest_ts }, p2)),
        },
    }
}

pub open spec fn enc_fetch_failure_list(s: Seq<FetchFailure>) -> Seq<u8> {
    enc_seq_of(s, |f: FetchFailure| enc_fetch_failure(f))
}

pub open spec fn dec_fetch_failure_list(s: Seq<u8>, pos: int) -> Option<(Seq<FetchFailure>, int)> {
    dec_seq_of(s, pos, |b: Seq<u8>, p: int| dec_fetch_failure(b, p))
}

/// Round trip: parsing an encoded fetch-failure list yields it back.
pub proof fn lemma_fetch_failure_list_round_trip(s: Seq<FetchFailure>, bytes: Seq<u8>, pos: int)
    requires
        s.len() < 0x1_0000_0000_0000_0000,
        is_prefix(enc_fetch_failure_list(s), bytes, pos),
    ensures
        dec_fetch_failure_list(bytes, pos) == Some((s, pos + enc_fetch_failure_list(s).len())),
{
    assert forall|v: FetchFailure, p: int|
        true && #[trigger] is_prefix(enc_fetch_failure(v), bytes, p) implies dec_fetch_failure(
        bytes,
        p,
    ) == Some((v, p + enc_fetch_failure(v).len())) by {
        lemma_fetch_failure_round_trip(v, bytes, p);
    }
    lemma_seq_round_trip(
        s,
        |f: FetchFailure| true,
        |f: FetchFailure| enc_fetch_failure(f),
        |b: Seq<u8>, p: int| dec_fetch_failure(b, p),
        bytes,
        pos,
    );
}

#[verifier::loop_isolation(false)]
pub fn encode_fetch_failures_vec(buf: &mut Vec<u8>, v: &Vec<FetchFailure>)
    ensures
        final(buf)@ == old(buf)@ + enc_fetch_failure_list(v@),
{
    encode_u64(buf, v.len() as u64);
    let n = v.len();
    let mut i: usize = 0;
    while i < n
        invariant
            0 <= i <= n,
            n == v@.len(),
            buf@ == old(buf)@ + enc_u64(v@.len() as u64) + enc_items(
                v@.take(i as int),
                (|f: FetchFailure| enc_fetch_failure(f)),
            ),
        decreases n - i,
    {
        encode_fetch_failure(buf, &v[i]);
        proof {
            lemma_enc_items_take(v@, |f: FetchFailure| enc_fetch_failure(f), i as int);
            assert(buf@ =~= old(buf)@ + enc_u64(v@.len() as u64) + enc_items(
                v@.take(i + 1),
                (|f: FetchFailure| enc_fetch_failure(f)),
            ));
        }
        i = i + 1;
    }
    proof {
        assert(v@.take(n as int) =~= v@);
        assert(buf@ =~= old(buf)@ + enc_fetch_failure_list(v@));
    }
}

#[verifier::loop_isolation(false)]
pub fn decode_fetch_failures_vec(bytes: &[u8], pos: usize) -> (r: Option<
    (Vec<FetchFailure>, usize),
>)
    ensures
        r is Some <==> dec_fetch_failure_list(bytes@, pos as int) is Some,
        r matches Some((v, p)) ==> dec_fetch_failure_list(bytes@, pos as int) == Some(
            (v@, p as int),
        ),
{
    match decode_u64(bytes, pos) {
        None => None,
        Some((n, p0)) => {
            let mut acc: Vec<FetchFailure> = Vec::new();
            let mut cur: usize = p0;
            let mut i: u64 = 0;
            while i < n
                invariant
                    0 <= i <= n,
                    dec_items::<FetchFailure>(
                        bytes@,
                        p0 as int,
                        n as nat,
                        (|b: Seq<u8>, p: int| dec_fetch_failure(b, p)),
                    ) == (match dec_items::<FetchFailure>(
                        bytes@,
                        cur as int,
                        (n - i) as nat,
                        (|b: Seq<u8>, p: int| dec_fetch_failure(b, p)),
                    ) {
                        Some((rest, end)) => Some((acc@ + rest, end)),
                        None => None::<(Seq<FetchFailure>, int)>,
                    }),
                decreases n - i,
            {
                match decode_fetch_failure(bytes, cur) {
                    None => {
                        return None;
                    },
                    Some((f, p2)) => {
                        proof {
                            let fd = |b: Seq<u8>, p: int| dec_fetch_failure(b, p);
                            let tail = dec_items::<FetchFailure>(
                                bytes@,
                                p2 as int,
                                (n - i - 1) as nat,
                                fd,
                            );
                            if tail is Some {
                                let rest = tail->Some_0.0;
                                assert(acc@ + (seq![f] + rest) =~= (acc@ + seq![f]) + rest);
                                assert(acc@ + seq![f] =~= acc@.push(f));
                            }
                        }
                        acc.push(f);
                        cur = p2;
                        i = i + 1;
                    },
                }
            }
            proof {
                assert(acc@ + Seq::<FetchFailure>::empty() =~= acc@);
            }
            Some((acc, cur))
        },
    }
}

} // verus!
