//! The request/reply protocol: command and status bytes, request framing,
//! reply parsing, and the client-side aggregation of fetch failures.
//!
//! A request is one message `[command byte] ++ payload`; a reply is one
//! message `[status byte] ++ payload`.  On status `0` the payload is the
//! operation's result; on status `1` it is a codec string carrying the
//! store's error message; any other status byte is a protocol error, as is a
//! reply shorter than two bytes.  The transport itself lives outside the
//! library: callers send the built request as one message, block for one
//! reply, and hand the reply back in.

use vstd::prelude::*;
use crate::codec::{
    append_bytes, dec_str, decode_string, decode_u64, enc_str, enc_u64, encode_string, encode_u64,
    u64_at,
};
use crate::domain::{Event, FetchFailure, WxApp};
use crate::domain_codec::{
    dec_event_list, dec_fetch_failure_list, decode_events_vec, decode_fetch_failures_vec,
    enc_event, enc_fetch_failure, encode_event, encode_fetch_failure, views_of,
};
use crate::error::{Error, WxError};

verus! {

/// The store's command set, one byte on the wire.
#[derive(Debug, Clone, Copy, PartialEq, Eq, Structural)]
pub enum Command {
    Put,
    Get,
    PutEvent,
    GetEvents,
    GetAllEvents,
    PutFetchFailure,
    GetFetchFailures,
}

impl Command {
    /// The wire byte of this command.
    pub open spec fn spec_value(self) -> u8 {
        match self {
            Command::Put => 0,
            Command::Get => 1,
            Command::PutEvent => 2,
            Command::GetEvents => 3,
            Command::GetAllEvents => 4,
            Command::PutFetchFailure => 5,
            Command::GetFetchFailures => 6,
        }
    }

    /// The command of a wire byte; an unrecognized byte is `None`, not an
    /// error, so callers can branch on protocol version mismatch explicitly.
    pub open spec fn spec_from(value: u8) -> Option<Command> {
        if value == 0 {
            Some(Command::Put)
        } else if value == 1 {
            Some(Command::Get)
        } else if value == 2 {
            Some(Command::PutEvent)
        } else if value == 3 {
            Some(Command::GetEvents)
        } else if value == 4 {
            Some(Command::GetAllEvents)
        } else if value == 5 {
            Some(Command::PutFetchFailure)
        } else if value == 6 {
            Some(Command::GetFetchFailures)
        } else {
            None
        }
    }

    pub fn from(value: u8) -> (r: Option<Command>)
        ensures
            r == Command::spec_from(value),
    {
        match value {
            0 => Some(Command::Put),
            1 => Some(Command::Get),
            2 => Some(Command::PutEvent),
            3 => Some(Command::GetEvents),
            4 => Some(Command::GetAllEvents),
            5 => Some(Command::PutFetchFailure),
            6 => Some(Command::GetFetchFailures),
            _ => None,
        }
    }

    pub fn value(&self) -> (r: u8)
        ensures
            r == self.spec_value(),
    {
        match self {
            Command::Put => 0,
            Command::Get => 1,
            Command::PutEvent => 2,
            Command::GetEvents => 3,
            Command::GetAllEvents => 4,
            Command::PutFetchFailure => 5,
            Command::GetFetchFailures => 6,
        }
    }
}

/// Round trip: every command comes back from its own wire byte.
pub proof fn lemma_command_byte_round_trip(c: Command)
    ensures
        Command::spec_from(c.spec_value()) == Some(c),
{
}

/// The status byte leading a reply.
#[derive(Debug, Clone, Copy, PartialEq, Eq, Structural)]
pub enum Status {
    OkByte,
    ErrorByte,
}

impl Status {
    pub open spec fn spec_value(self) -> u8 {
        match self {
            Status::OkByte => 0,
            Status::ErrorByte => 1,
        }
    }

    /// The status of a wire byte; an unrecognized byte is `None` and callers
    /// treat it as a protocol error.
    pub open spec fn spec_from(value: u8) -> Option<Status> {
        if value == 0 {
            Some(Status::OkByte)
        } else if value == 1 {
            Some(Status::ErrorByte)
        } else {
            None
        }
    }

    pub fn from(value: u8) -> (r: Option<Status>)
        ensures
            r == Status::spec_from(value),
    {
        match value {
            1 => Some(Status::ErrorByte),
            0 => Some(Status::OkByte),
            _ => None,
        }
    }

    pub fn value(&self) -> (r: u8)
        ensures
            r == self.spec_value(),
    {
        match self {
            Status::OkByte => 0,
            Status::ErrorByte => 1,
        }
    }
}

/// Round trip: every status comes back from its own wire byte.
pub proof fn lemma_status_byte_round_trip(s: Status)
    ensures
        Status::spec_from(s.spec_value()) == Some(s),
{
}

// ---------------------------------------------------------------------------
// Request framing
// ---------------------------------------------------------------------------

/// Frames one request message: the command byte followed by the payload.
pub fn build_request(cmd: Command, payload: &[u8]) -> (r: Vec<u8>)
    ensures
        r@ == seq![cmd.spec_value()] + payload@,
{
    let mut r: Vec<u8> = Vec::new();
    r.push(cmd.value());
    append_bytes(&mut r, payload);
    proof {
        assert(r@ =~= seq![cmd.spec_value()] + payload@);
    }
    r
}

/// The `put` request: the key and the already-encoded value, paired and
/// encoded again.  The inner payload stays opaque to this outer envelope, so
/// the store can hold arbitrary serialized blobs under a string key.
pub fn put_request(key: &str, value: &[u8]) -> (r: Vec<u8>)
    ensures
        r@ == seq![Command::Put.spec_value()] + enc_str(key@) + enc_u64(value@.len() as u64)
            + value@,
{
    let mut payload: Vec<u8> = Vec::new();
    encode_string(&mut payload, key);
    encode_u64(&mut payload, value.len() as u64);
    append_bytes(&mut payload, value);
    let r = build_request(Command::Put, payload.as_slice());
    proof {
        assert(r@ =~= seq![Command::Put.spec_value()] + enc_str(key@) + enc_u64(
            value@.len() as u64,
        ) + value@);
    }
    r
}

/// The `get` request: the encoded key.
pub fn get_request(key: &str) -> (r: Vec<u8>)
    ensures
        r@ == seq![Command::Get.spec_value()] + enc_str(key@),
{
    let mut payload: Vec<u8> = Vec::new();
    encode_string(&mut payload, key);
    let r = build_request(Command::Get, payload.as_slice());
    proof {
        assert(r@ =~= seq![Command::Get.spec_value()] + enc_str(key@));
    }
    r
}

/// The `put event` request: the encoded event.
pub fn put_event_request(event: &Event) -> (r: Vec<u8>)
    ensures
        r@ == seq![Command::PutEvent.spec_value()] + enc_event(event@),
{
    let mut payload: Vec<u8> = Vec::new();
    encode_event(&mut payload, event);
    let r = build_request(Command::PutEvent, payload.as_slice());
    proof {
        assert(r@ =~= seq![Command::PutEvent.spec_value()] + enc_event(event@));
    }
    r
}

/// The decimal digits of `v`, as bytes.
pub open spec fn dec_bytes_of(v: nat) -> Seq<u8>
    decreases v,
{
    if v < 10 {
        seq![(48 + v) as u8]
    } else {
        dec_bytes_of(v / 10) + seq![(48 + (v % 10)) as u8]
    }
}

/// The decimal digits of `v`, most significant first.
pub fn u64_decimal_digits(v: u64) -> (r: Vec<u8>)
    ensures
        r@ == dec_bytes_of(v as nat),
{
    let mut tmp: Vec<u8> = Vec::new();
    let mut n: u64 = v;
    if n == 0 {
        let mut r: Vec<u8> = Vec::new();
        r.push(48);
        proof {
            assert(r@ =~= dec_bytes_of(0));
        }
        return r;
    }
    while n > 0
        invariant
            n > 0 ==> dec_bytes_of(v as nat) == dec_bytes_of(n as nat) + tmp@.reverse(),
            n == 0 ==> dec_bytes_of(v as nat) == tmp@.reverse(),
        decreases n,
    {
        let d: u8 = (48 + (n % 10)) as u8;
        proof {
            assert(tmp@.push(d).reverse() =~= seq![d] + tmp@.reverse());
            if n >= 10 {
                assert(dec_bytes_of(n as nat) == dec_bytes_of(n as nat / 10) + seq![d]);
                assert(dec_bytes_of(n as nat / 10) + seq![d] + tmp@.reverse() =~= dec_bytes_of(
                    n as nat / 10,
                ) + (seq![d] + tmp@.reverse()));
            } else {
                assert(dec_bytes_of(n as nat) =~= seq![d] + Seq::<u8>::empty());
                assert(dec_bytes_of(n as nat) + tmp@.reverse() =~= seq![d] + tmp@.reverse());
            }
        }
        tmp.push(d);
        n = n / 10;
    }
    let mut r: Vec<u8> = Vec::new();
    let mut i: usize = tmp.len();
    while i > 0
        invariant
            0 <= i <= tmp@.len(),
            r@.len() == tmp@.len() - i,
            forall|k: int| 0 <= k < r@.len() ==> r@[k] == tmp@[tmp@.len() - 1 - k],
        decreases i,
    {
        i = i - 1;
        r.push(tmp[i]);
    }
    proof {
        assert(r@ =~= tmp@.reverse());
    }
    r
}

/// The `get events` request.  A lower bound of zero means "no lower bound"
/// and sends an empty payload; any other bound is sent as the codec string
/// holding its decimal digits, and nothing else.
pub fn get_events_request(ts: u64) -> (r: Vec<u8>)
    ensures
        ts == 0 ==> r@ == seq![Command::GetEvents.spec_value()],
        ts != 0 ==> r@ == seq![Command::GetEvents.spec_value()] + enc_u64(
            dec_bytes_of(ts as nat).len() as u64,
        ) + dec_bytes_of(ts as nat),
{
    if ts == 0 {
        let payload: Vec<u8> = Vec::new();
        let r = build_request(Command::GetEvents, payload.as_slice());
        proof {
            assert(r@ =~= seq![Command::GetEvents.spec_value()]);
        }
        r
    } else {
        let digits = u64_decimal_digits(ts);
        let mut payload: Vec<u8> = Vec::new();
        encode_u64(&mut payload, digits.len() as u64);
        append_bytes(&mut payload, digits.as_slice());
        let r = build_request(Command::GetEvents, payload.as_slice());
        proof {
            assert(r@ =~= seq![Command::GetEvents.spec_value()] + enc_u64(
                dec_bytes_of(ts as nat).len() as u64,
            ) + dec_bytes_of(ts as nat));
        }
        r
    }
}

/// The `get all events` request: no payload.
pub fn get_all_events_request() -> (r: Vec<u8>)
    ensures
        r@ == seq![Command::GetAllEvents.spec_value()],
{
    let payload: Vec<u8> = Vec::new();
    let r = build_request(Command::GetAllEvents, payload.as_slice());
    proof {
        assert(r@ =~= seq![Command::GetAllEvents.spec_value()]);
    }
    r
}

/// The `put fetch failure` request: the encoded failure record.
pub fn put_fetch_failure_request(failure: &FetchFailure) -> (r: Vec<u8>)
    ensures
        r@ == seq![Command::PutFetchFailure.spec_value()] + enc_fetch_failure(*failure),
{
    let mut payload: Vec<u8> = Vec::new();
    encode_fetch_failure(&mut payload, failure);
    let r = build_request(Command::PutFetchFailure, payload.as_slice());
    proof {
        assert(r@ =~= seq![Command::PutFetchFailure.spec_value()] + enc_fetch_failure(*failure));
    }
    r
}

/// The `get fetch failures` request: no payload.
pub fn get_fetch_failures_request() -> (r: Vec<u8>)
    ensures
        r@ == seq![Command::GetFetchFailures.spec_value()],
{
    let payload: Vec<u8> = Vec::new();
    let r = build_request(Command::GetFetchFailures, payload.as_slice());
    proof {
        assert(r@ =~= seq![Command::GetFetchFailures.spec_value()]);
    }
    r
}

// ---------------------------------------------------------------------------
// Reply parsing
// ---------------------------------------------------------------------------

/// The store's error message carried by an error reply, when its payload is
/// one whole codec string.
pub open spec fn error_msg_of(reply: Seq<u8>) -> Option<Seq<char>> {
    match dec_str(reply, 1) {
        Some((msg, end)) => if end == reply.len() {
            Some(msg)
        } else {
            None
        },
        None => None,
    }
}

/// Parses one reply message into the success payload or the reported error.
///
/// A reply shorter than two bytes is a protocol error; status byte `0`
/// yields the rest of the reply as the success payload; status byte `1`
/// yields the application error whose message the rest of the reply encodes;
/// any other status byte is a protocol error.
pub fn parse_reply(reply: &[u8]) -> (r: Result<Vec<u8>, Error>)
    ensures
        reply@.len() < 2 ==> (r matches Err(e) && e matches Error::Protocol(w) && w.message@
            == "invalid response payload"@),
        reply@.len() >= 2 && reply@[0] == Status::OkByte.spec_value() ==> (r matches Ok(p) && p@
            == reply@.skip(1)),
        reply@.len() >= 2 && reply@[0] == Status::ErrorByte.spec_value() ==> (match error_msg_of(
            reply@,
        ) {
            Some(msg) => r matches Err(e) && e matches Error::Application(w) && w.message@ == msg,
            None => r matches Err(e) && e matches Error::Encoding(w) && w.message@
                == "invalid error message payload"@,
        }),
        reply@.len() >= 2 && reply@[0] >= 2 ==> (r matches Err(e) && e matches Error::Protocol(w)
            && w.message@ == "unknown response payload"@),
{
    if reply.len() < 2 {
        return Err(Error::Protocol(WxError::new("invalid response payload")));
    }
    match Status::from(reply[0]) {
        Some(Status::OkByte) => {
            let p = vstd::slice::slice_to_vec(
                vstd::slice::slice_subrange(reply, 1, reply.len()),
            );
            proof {
                assert(p@ =~= reply@.skip(1));
            }
            Ok(p)
        },
        Some(Status::ErrorByte) => {
            match decode_string(reply, 1) {
                Some((msg, end)) => {
                    if end == reply.len() {
                        Err(Error::Application(WxError { message: msg }))
                    } else {
                        Err(Error::Encoding(WxError::new("invalid error message payload")))
                    }
                },
                None => Err(Error::Encoding(WxError::new("invalid error message payload"))),
            }
        },
        None => Err(Error::Protocol(WxError::new("unknown response payload"))),
    }
}

/// Decodes the `put event` success payload: the ingest timestamp the store
/// recorded the event under.  The payload must be exactly one encoded
/// timestamp.
pub fn decode_put_event_reply(payload: &[u8]) -> (r: Result<u64, Error>)
    ensures
        payload@.len() == 8 ==> r == Ok::<u64, Error>(u64_at(payload@, 0)),
        payload@.len() != 8 ==> (r matches Err(e) && e matches Error::Serialization(_)),
{
    match decode_u64(payload, 0) {
        Some((v, end)) => {
            if end == payload.len() {
                Ok(v)
            } else {
                Err(Error::Serialization(WxError::new("invalid timestamp payload")))
            }
        },
        None => Err(Error::Serialization(WxError::new("invalid timestamp payload"))),
    }
}

/// Decodes an events success payload: the payload must be exactly one
/// encoded event list.
pub fn decode_events_reply(payload: &[u8]) -> (r: Result<Vec<Event>, Error>)
    ensures
        (match dec_event_list(payload@, 0) {
            Some((evs, end)) => {
                if end == payload@.len() {
                    r matches Ok(v) && views_of(v@) == evs
                } else {
                    r matches Err(e) && e matches Error::Serialization(_)
                }
            },
            None => r matches Err(e) && e matches Error::Serialization(_),
        }),
{
    match decode_events_vec(payload, 0) {
        Some((v, end)) => {
            if end == payload.len() {
                Ok(v)
            } else {
                Err(Error::Serialization(WxError::new("invalid events payload")))
            }
        },
        None => Err(Error::Serialization(WxError::new("invalid events payload"))),
    }
}

/// Decodes a fetch-failures success payload: the payload must be exactly one
/// encoded failure list.
pub fn decode_fetch_failures_reply(payload: &[u8]) -> (r: Result<Vec<FetchFailure>, Error>)
    ensures
        (match dec_fetch_failure_list(payload@, 0) {
            Some((fs, end)) => {
                if end == payload@.len() {
                    r matches Ok(v) && v@ == fs
                } else {
                    r matches Err(e) && e matches Error::Serialization(_)
                }
            },
            None => r matches Err(e) && e matches Error::Serialization(_),
        }),
{
    match decode_fetch_failures_vec(payload, 0) {
        Some((v, end)) => {
            if end == payload.len() {
                Ok(v)
            } else {
                Err(Error::Serialization(WxError::new("invalid fetch failure payload")))
            }
        },
        None => Err(Error::Serialization(WxError::new("invalid fetch failure payload"))),
    }
}

// ---------------------------------------------------------------------------
// Fetch-failure aggregation
// ---------------------------------------------------------------------------

/// How many failure records name the given producer.  Records differing only
/// in their timestamp count separately.
pub open spec fn count_app(s: Seq<FetchFailure>, a: WxApp) -> nat
    decreases s.len(),
{
    if s.len() == 0 {
        0
    } else {
        count_app(s.drop_last(), a) + (if s.last().app == a {
            1nat
        } else {
            0nat
        })
    }
}

proof fn lemma_count_app_le_len(s: Seq<FetchFailure>, a: WxApp)
    ensures
        count_app(s, a) <= s.len(),
    decreases s.len(),
{
    if s.len() > 0 {
        lemma_count_app_le_len(s.drop_last(), a);
    }
}

/// The aggregated counts, one entry per producer with at least one failure,
/// in the producers' fixed order.
pub open spec fn spec_counts(s: Seq<FetchFailure>) -> Seq<(WxApp, u16)> {
    count_entry(s, WxApp::SpotterNetworkLoader) + count_entry(s, WxApp::NwsApiLoader)
        + count_entry(s, WxApp::SpcSfcoaLoader) + count_entry(s, WxApp::FetchFailureLoader)
        + count_entry(s, WxApp::Admin)
}

pub open spec fn count_entry(s: Seq<FetchFailure>, a: WxApp) -> Seq<(WxApp, u16)> {
    if count_app(s, a) > 0 {
        seq![(a, count_app(s, a) as u16)]
    } else {
        Seq::empty()
    }
}

fn count_app_in(v: &Vec<FetchFailure>, a: WxApp) -> (c: u16)
    requires
        v@.len() <= 65535,
    ensures
        c as nat == count_app(v@, a),
{
    let mut c: u16 = 0;
    let mut i: usize = 0;
    let n = v.len();
    while i < n
        invariant
            0 <= i <= n,
            n == v@.len(),
            n <= 65535,
            c as nat == count_app(v@.take(i as int), a),
        decreases n - i,
    {
        proof {
            assert(v@.take(i + 1).drop_last() =~= v@.take(i as int));
            assert(v@.take(i + 1).last() == v@[i as int]);
            lemma_count_app_le_len(v@.take(i as int), a);
        }
        if v[i].app == a {
            c = c + 1;
        }
        i = i + 1;
    }
    proof {
        assert(v@.take(n as int) =~= v@);
    }
    c
}

/// The records naming producer `a`.
pub open spec fn names_app(a: WxApp) -> spec_fn(FetchFailure) -> bool {
    |f: FetchFailure| f.app == a
}

proof fn lemma_count_app_multiset(s: Seq<FetchFailure>, a: WxApp)
    ensures
        count_app(s, a) == s.to_multiset().filter(names_app(a)).len(),
    decreases s.len(),
{
    broadcast use vstd::multiset::group_multiset_axioms;
    broadcast use vstd::multiset::group_multiset_properties;
    broadcast use vstd::seq_lib::group_to_multiset_ensures;

    let f = names_app(a);
    if s.len() == 0 {
        assert(s.to_multiset() =~= vstd::multiset::Multiset::<FetchFailure>::empty());
        assert(s.to_multiset().filter(f) =~= vstd::multiset::Multiset::<FetchFailure>::empty());
    } else {
        let d = s.drop_last();
        let x = s.last();
        lemma_count_app_multiset(d, a);
        assert(s =~= d.push(x));
        let m = d.to_multiset();
        assert(s.to_multiset() == m.insert(x));
        if x.app == a {
            assert(m.insert(x).filter(f) =~= m.filter(f).insert(x));
            vstd::multiset::lemma_insert_len(m.filter(f), x);
        } else {
            assert(m.insert(x).filter(f) =~= m.filter(f));
        }
    }
}

/// The aggregation is order-independent: two record lists holding the same
/// records with the same multiplicities aggregate to the same counts,
/// whatever their order; records differing only in their timestamp still
/// count separately.
pub proof fn lemma_counts_order_independent(s1: Seq<FetchFailure>, s2: Seq<FetchFailure>)
    requires
        s1.to_multiset() == s2.to_multiset(),
    ensures
        spec_counts(s1) == spec_counts(s2),
{
    assert forall|a: WxApp| #[trigger] count_app(s1, a) == count_app(s2, a) by {
        lemma_count_app_multiset(s1, a);
        lemma_count_app_multiset(s2, a);
    }
    assert(count_app(s1, WxApp::SpotterNetworkLoader) == count_app(
        s2,
        WxApp::SpotterNetworkLoader,
    ));
    assert(count_app(s1, WxApp::NwsApiLoader) == count_app(s2, WxApp::NwsApiLoader));
    assert(count_app(s1, WxApp::SpcSfcoaLoader) == count_app(s2, WxApp::SpcSfcoaLoader));
    assert(count_app(s1, WxApp::FetchFailureLoader) == count_app(s2, WxApp::FetchFailureLoader));
    assert(count_app(s1, WxApp::Admin) == count_app(s2, WxApp::Admin));
}

/// Aggregates raw failure records into a count per producer, the aggregation
/// the client performs itself on the store's raw list.  The result depends
/// only on how many records name each producer, never on their order, and
/// records differing only in their timestamp count separately.
pub fn aggregate_fetch_failures(failures: &Vec<FetchFailure>) -> (r: Vec<(WxApp, u16)>)
    requires
        failures@.len() <= 65535,
    ensures
        r@ == spec_counts(failures@),
{
    let mut r: Vec<(WxApp, u16)> = Vec::new();
    let c0 = count_app_in(failures, WxApp::SpotterNetworkLoader);
    if c0 > 0 {
        r.push((WxApp::SpotterNetworkLoader, c0));
    }
    proof {
        assert(r@ =~= count_entry(failures@, WxApp::SpotterNetworkLoader));
    }
    let c1 = count_app_in(failures, WxApp::NwsApiLoader);
    if c1 > 0 {
        r.push((WxApp::NwsApiLoader, c1));
    }
    proof {
        assert(r@ =~= count_entry(failures@, WxApp::SpotterNetworkLoader) + count_entry(
            failures@,
            WxApp::NwsApiLoader,
        ));
    }
    let c2 = count_app_in(failures, WxApp::SpcSfcoaLoader);
    if c2 > 0 {
        r.push((WxApp::SpcSfcoaLoader, c2));
    }
    proof {
        assert(r@ =~= count_entry(failures@, WxApp::SpotterNetworkLoader) + count_entry(
            failures@,
            WxApp::NwsApiLoader,
        ) + count_entry(failures@, WxApp::SpcSfcoaLoader));
    }
    let c3 = count_app_in(failures, WxApp::FetchFailureLoader);
    if c3 > 0 {
        r.push((WxApp::FetchFailureLoader, c3));
    }
    proof {
        assert(r@ =~= count_entry(failures@, WxApp::SpotterNetworkLoader) + count_entry(
            failures@,
            WxApp::NwsApiLoader,
        ) + count_entry(failures@, WxApp::SpcSfcoaLoader) + count_entry(
            failures@,
            WxApp::FetchFailureLoader,
        ));
    }
    let c4 = count_app_in(failures, WxApp::Admin);
    if c4 > 0 {
        r.push((WxApp::Admin, c4));
    }
    proof {
        assert(r@ =~= spec_counts(failures@));
    }
    r
}

} // verus!
