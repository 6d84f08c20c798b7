//! The transport contract at the edge: a call against a transport that never
//! replies returns from the receive within the configured one-second
//! timeout, instead of blocking indefinitely.

use wx_store::protocol::get_all_events_request;

#[test]
fn silent_transport_times_out_within_bound() {
    let ctx = zmq::Context::new();
    // A peer that accepts the request and never replies.
    let server = ctx.socket(zmq::REP).unwrap();
    server.bind("inproc://silent-store").unwrap();
    let client = ctx.socket(zmq::REQ).unwrap();
    client.set_rcvtimeo(1000).unwrap();
    client.set_sndtimeo(1000).unwrap();
    client.connect("inproc://silent-store").unwrap();
    client.send(&get_all_events_request(), 0).unwrap();
    let start = std::time::Instant::now();
    let mut reply = zmq::Message::new();
    let r = client.recv(&mut reply, 0);
    let elapsed = start.elapsed();
    assert!(r.is_err());
    assert!(elapsed.as_millis() >= 900);
    assert!(elapsed.as_millis() < 10_000);
}
