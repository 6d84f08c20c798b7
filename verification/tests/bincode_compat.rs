//! Cross-checks the codec's primitive layout against bincode's default
//! little-endian layout, which the store's historical payloads used: each
//! primitive encoder must produce byte-for-byte what bincode produces.

use wx_store::codec::{
    encode_bool, encode_i32, encode_string, encode_u16, encode_u32, encode_u64,
};
use wx_store::protocol::{put_request, Command};

#[test]
fn u64_layout_matches_bincode() {
    for v in [0u64, 1, 255, 256, 1_543_185_983_000_000, u64::MAX] {
        let mut buf: Vec<u8> = Vec::new();
        encode_u64(&mut buf, v);
        assert_eq!(buf, bincode::serialize(&v).unwrap());
    }
}

#[test]
fn u32_layout_matches_bincode() {
    for v in [0u32, 7, 65_536, u32::MAX] {
        let mut buf: Vec<u8> = Vec::new();
        encode_u32(&mut buf, v);
        assert_eq!(buf, bincode::serialize(&v).unwrap());
    }
}

#[test]
fn u16_layout_matches_bincode() {
    for v in [0u16, 441, u16::MAX] {
        let mut buf: Vec<u8> = Vec::new();
        encode_u16(&mut buf, v);
        assert_eq!(buf, bincode::serialize(&v).unwrap());
    }
}

#[test]
fn i32_layout_matches_bincode() {
    for v in [0i32, -1, 39_100_000, -94_580_000, i32::MIN, i32::MAX] {
        let mut buf: Vec<u8> = Vec::new();
        encode_i32(&mut buf, v);
        assert_eq!(buf, bincode::serialize(&v).unwrap());
    }
}

#[test]
fn bool_layout_matches_bincode() {
    for v in [false, true] {
        let mut buf: Vec<u8> = Vec::new();
        encode_bool(&mut buf, v);
        assert_eq!(buf, bincode::serialize(&v).unwrap());
    }
}

#[test]
fn string_layout_matches_bincode() {
    for v in ["", "EAX", "dust storm", "naïve z\u{00fc}rich \u{2603}"] {
        let mut buf: Vec<u8> = Vec::new();
        encode_string(&mut buf, v);
        assert_eq!(buf, bincode::serialize(v).unwrap());
    }
}

#[test]
fn put_request_matches_bincode_pair_layout() {
    let key = "outlook-2018-11-25";
    let value: Vec<u8> = vec![9, 8, 7, 6];
    let kv: (&str, &[u8]) = (key, &value);
    let mut expected = vec![Command::Put.value()];
    expected.extend_from_slice(&bincode::serialize(&kv).unwrap());
    assert_eq!(put_request(key, &value), expected);
}
