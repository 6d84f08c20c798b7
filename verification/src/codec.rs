//! Binary wire codec primitives.
//!
//! Every value that crosses the wire is laid out with these primitives:
//! fixed-width little-endian integers, one-byte booleans, and strings and
//! lists carried as a 64-bit length followed by their contents.  Each
//! primitive has a specification-level encoder (`enc_*`), a
//! specification-level parser (`dec_*`) that is the exact inverse on encoded
//! input, an executable encoder and decoder proved to implement them, and a
//! round-trip lemma.

use vstd::prelude::*;
use vstd::utf8::{encode_utf8, decode_utf8, valid_utf8, encode_utf8_valid_utf8,
    encode_utf8_decode_utf8};

verus! {

/// `p` occurs as a contiguous run inside `s` starting at `pos`.
pub open spec fn is_prefix(p: Seq<u8>, s: Seq<u8>, pos: int) -> bool {
    0 <= pos && pos + p.len() <= s.len() && s.subrange(pos, pos + p.len()) == p
}

/// A run made of `a` followed by `b` splits into a run of `a` and a run of `b`.
pub proof fn lemma_prefix_split(a: Seq<u8>, b: Seq<u8>, s: Seq<u8>, pos: int)
    requires
        is_prefix(a + b, s, pos),
    ensures
        is_prefix(a, s, pos),
        is_prefix(b, s, pos + a.len()),
{
    assert(s.subrange(pos, pos + a.len()) =~= a) by {
        assert forall|i: int| 0 <= i < a.len() implies s.subrange(pos, pos + a.len())[i] == a[i] by {
            assert(s.subrange(pos, pos + (a + b).len())[i] == (a + b)[i]);
        }
    }
    assert(s.subrange(pos + a.len(), pos + a.len() + b.len()) =~= b) by {
        assert forall|i: int| 0 <= i < b.len() implies s.subrange(
            pos + a.len(),
            pos + a.len() + b.len(),
        )[i] == b[i] by {
            assert(s.subrange(pos, pos + (a + b).len())[a.len() + i] == (a + b)[a.len() + i]);
        }
    }
}

/// Concatenation of byte runs is associative.
pub proof fn lemma_add_assoc(x: Seq<u8>, y: Seq<u8>, z: Seq<u8>)
    ensures
        (x + y) + z == x + (y + z),
{
    assert((x + y) + z =~= x + (y + z));
}

/// Appends `other` to `buf`.
pub fn append_bytes(buf: &mut Vec<u8>, other: &[u8])
    ensures
        final(buf)@ == old(buf)@ + other@,
{
    let mut i: usize = 0;
    while i < other.len()
        invariant
            0 <= i <= other@.len(),
            buf@ == old(buf)@ + other@.subrange(0, i as int),
        decreases other@.len() - i,
    {
        buf.push(other[i]);
        i = i + 1;
        proof {
            assert(old(buf)@ + other@.subrange(0, i - 1) + seq![other@[i - 1]] =~= old(buf)@
                + other@.subrange(0, i as int));
        }
    }
    proof {
        assert(other@.subrange(0, other@.len() as int) =~= other@);
    }
}

// ---------------------------------------------------------------------------
// Unsigned integers, little endian
// ---------------------------------------------------------------------------

pub open spec fn enc_u16(v: u16) -> Seq<u8> {
    seq![(v & 0xff) as u8, ((v >> 8) & 0xff) as u8]
}

pub open spec fn u16_at(s: Seq<u8>, pos: int) -> u16 {
    (s[pos] as u16) | ((s[pos + 1] as u16) << 8)
}

pub open spec fn dec_u16(s: Seq<u8>, pos: int) -> Option<(u16, int)> {
    if 0 <= pos && pos + 2 <= s.len() {
        Some((u16_at(s, pos), pos + 2))
    } else {
        None
    }
}

pub open spec fn enc_u32(v: u32) -> Seq<u8> {
    seq![
        (v & 0xff) as u8,
        ((v >> 8) & 0xff) as u8,
        ((v >> 16) & 0xff) as u8,
        ((v >> 24) & 0xff) as u8,
    ]
}

pub open spec fn u32_at(s: Seq<u8>, pos: int) -> u32 {
    (s[pos] as u32) | ((s[pos + 1] as u32) << 8) | ((s[pos + 2] as u32) << 16) | ((s[pos
        + 3] as u32) << 24)
}

pub open spec fn dec_u32(s: Seq<u8>, pos: int) -> Option<(u32, int)> {
    if 0 <= pos && pos + 4 <= s.len() {
        Some((u32_at(s, pos), pos + 4))
    } else {
        None
    }
}

pub open spec fn enc_u64(v: u64) -> Seq<u8> {
    seq![
        (v & 0xff) as u8,
        ((v >> 8) & 0xff) as u8,
        ((v >> 16) & 0xff) as u8,
        ((v >> 24) & 0xff) as u8,
        ((v >> 32) & 0xff) as u8,
        ((v >> 40) & 0xff) as u8,
        ((v >> 48) & 0xff) as u8,
        ((v >> 56) & 0xff) as u8,
    ]
}

pub open spec fn u64_at(s: Seq<u8>, pos: int) -> u64 {
    (s[pos] as u64) | ((s[pos + 1] as u64) << 8) | ((s[pos + 2] as u64) << 16) | ((s[pos
        + 3] as u64) << 24) | ((s[pos + 4] as u64) << 32) | ((s[pos + 5] as u64) << 40) | ((s[pos
        + 6] as u64) << 48) | ((s[pos + 7] as u64) << 56)
}

pub open spec fn dec_u64(s: Seq<u8>, pos: int) -> Option<(u64, int)> {
    if 0 <= pos && pos + 8 <= s.len() {
        Some((u64_at(s, pos), pos + 8))
    } else {
        None
    }
}

proof fn lemma_u16_reassemble(v: u16, b0: u8, b1: u8)
    by (bit_vector)
    requires
        b0 == (v & 0xff) as u8,
        b1 == ((v >> 8) & 0xff) as u8,
    ensures
        ((b0 as u16) | ((b1 as u16) << 8)) == v,
{
}

proof fn lemma_u32_reassemble(v: u32, b0: u8, b1: u8, b2: u8, b3: u8)
    by (bit_vector)
    requires
        b0 == (v & 0xff) as u8,
        b1 == ((v >> 8) & 0xff) as u8,
        b2 == ((v >> 16) & 0xff) as u8,
        b3 == ((v >> 24) & 0xff) as u8,
    ensures
        ((b0 as u32) | ((b1 as u32) << 8) | ((b2 as u32) << 16) | ((b3 as u32) << 24)) == v,
{
}

proof fn lemma_u64_reassemble(v: u64, b0: u8, b1: u8, b2: u8, b3: u8, b4: u8, b5: u8, b6: u8, b7: u8)
    by (bit_vector)
    requires
        b0 == (v & 0xff) as u8,
        b1 == ((v >> 8) & 0xff) as u8,
        b2 == ((v >> 16) & 0xff) as u8,
        b3 == ((v >> 24) & 0xff) as u8,
        b4 == ((v >> 32) & 0xff) as u8,
        b5 == ((v >> 40) & 0xff) as u8,
        b6 == ((v >> 48) & 0xff) as u8,
        b7 == ((v >> 56) & 0xff) as u8,
    ensures
        ((b0 as u64) | ((b1 as u64) << 8) | ((b2 as u64) << 16) | ((b3 as u64) << 24) | ((
        b4 as u64) << 32) | ((b5 as u64) << 40) | ((b6 as u64) << 48) | ((b7 as u64) << 56)) == v,
{
}

/// Round trip: parsing encoded bytes yields the encoded value.
pub proof fn lemma_u16_round_trip(v: u16, s: Seq<u8>, pos: int)
    requires
        is_prefix(enc_u16(v), s, pos),
    ensures
        dec_u16(s, pos) == Some((v, pos + 2)),
{
    assert(s[pos] == enc_u16(v)[0]);
    assert(s[pos + 1] == enc_u16(v)[1]);
    lemma_u16_reassemble(v, s[pos], s[pos + 1]);
}

/// Round trip: parsing encoded bytes yields the encoded value.
pub proof fn lemma_u32_round_trip(v: u32, s: Seq<u8>, pos: int)
    requires
        is_prefix(enc_u32(v), s, pos),
    ensures
        dec_u32(s, pos) == Some((v, pos + 4)),
{
    assert forall|i: int| 0 <= i < 4 implies s[pos + i] == enc_u32(v)[i] by {
        assert(s.subrange(pos, pos + 4)[i] == enc_u32(v)[i]);
    }
    lemma_u32_reassemble(v, s[pos], s[pos + 1], s[pos + 2], s[pos + 3]);
}

/// Round trip: parsing encoded bytes yields the encoded value.
pub proof fn lemma_u64_round_trip(v: u64, s: Seq<u8>, pos: int)
    requires
        is_prefix(enc_u64(v), s, pos),
    ensures
        dec_u64(s, pos) == Some((v, pos + 8)),
{
    assert forall|i: int| 0 <= i < 8 implies s[pos + i] == enc_u64(v)[i] by {
        assert(s.subrange(pos, pos + 8)[i] == enc_u64(v)[i]);
    }
    lemma_u64_reassemble(
        v,
        s[pos],
        s[pos + 1],
        s[pos + 2],
        s[pos + 3],
        s[pos + 4],
        s[pos + 5],
        s[pos + 6],
        s[pos + 7],
    );
}

pub fn encode_u16(buf: &mut Vec<u8>, v: u16)
    ensures
        final(buf)@ == old(buf)@ + enc_u16(v),
{
    buf.push((v & 0xff) as u8);
    buf.push(((v >> 8) & 0xff) as u8);
    proof {
        assert(buf@ =~= old(buf)@ + enc_u16(v));
    }
}

pub fn encode_u32(buf: &mut Vec<u8>, v: u32)
    ensures
        final(buf)@ == old(buf)@ + enc_u32(v),
{
    buf.push((v & 0xff) as u8);
    buf.push(((v >> 8) & 0xff) as u8);
    buf.push(((v >> 16) & 0xff) as u8);
    buf.push(((v >> 24) & 0xff) as u8);
    proof {
        assert(buf@ =~= old(buf)@ + enc_u32(v));
    }
}

pub fn encode_u64(buf: &mut Vec<u8>, v: u64)
    ensures
        final(buf)@ == old(buf)@ + enc_u64(v),
{
    buf.push((v & 0xff) as u8);
    buf.push(((v >> 8) & 0xff) as u8);
    buf.push(((v >> 16) & 0xff) as u8);
    buf.push(((v >> 24) & 0xff) as u8);
    buf.push(((v >> 32) & 0xff) as u8);
    buf.push(((v >> 40) & 0xff) as u8);
    buf.push(((v >> 48) & 0xff) as u8);
    buf.push(((v >> 56) & 0xff) as u8);
    proof {
        assert(buf@ =~= old(buf)@ + enc_u64(v));
    }
}

pub fn decode_u16(bytes: &[u8], pos: usize) -> (r: Option<(u16, usize)>)
    ensures
        r is Some <==> dec_u16(bytes@, pos as int) is Some,
        r matches Some((v, p)) ==> dec_u16(bytes@, pos as int) == Some((v, p as int)),
{
    if bytes.len() >= 2 && pos <= bytes.len() - 2 {
        let b0 = bytes[pos];
        let b1 = bytes[pos + 1];
        Some(((b0 as u16) | ((b1 as u16) << 8), pos + 2))
    } else {
        None
    }
}

pub fn decode_u32(bytes: &[u8], pos: usize) -> (r: Option<(u32, usize)>)
    ensures
        r is Some <==> dec_u32(bytes@, pos as int) is Some,
        r matches Some((v, p)) ==> dec_u32(bytes@, pos as int) == Some((v, p as int)),
{
    if bytes.len() >= 4 && pos <= bytes.len() - 4 {
        let b0 = bytes[pos];
        let b1 = bytes[pos + 1];
        let b2 = bytes[pos + 2];
        let b3 = bytes[pos + 3];
        Some(((b0 as u32) | ((b1 as u32) << 8) | ((b2 as u32) << 16) | ((b3 as u32) << 24), pos + 4))
    } else {
        None
    }
}

pub fn decode_u64(bytes: &[u8], pos: usize) -> (r: Option<(u64, usize)>)
    ensures
        r is Some <==> dec_u64(bytes@, pos as int) is Some,
        r matches Some((v, p)) ==> dec_u64(bytes@, pos as int) == Some((v, p as int)),
{
    if bytes.len() >= 8 && pos <= bytes.len() - 8 {
        let b0 = bytes[pos];
        let b1 = bytes[pos + 1];
        let b2 = bytes[pos + 2];
        let b3 = bytes[pos + 3];
        let b4 = bytes[pos + 4];
        let b5 = bytes[pos + 5];
        let b6 = bytes[pos + 6];
        let b7 = bytes[pos + 7];
        Some(
            ((b0 as u64) | ((b1 as u64) << 8) | ((b2 as u64) << 16) | ((b3 as u64) << 24) | ((
            b4 as u64) << 32) | ((b5 as u64) << 40) | ((b6 as u64) << 48) | ((b7 as u64) << 56),
                pos + 8),
        )
    } else {
        None
    }
}

// ---------------------------------------------------------------------------
// Signed 32-bit integers, as their two's-complement bit pattern
// ---------------------------------------------------------------------------

pub open spec fn enc_i32(v: i32) -> Seq<u8> {
    enc_u32(v as u32)
}

pub open spec fn dec_i32(s: Seq<u8>, pos: int) -> Option<(i32, int)> {
    match dec_u32(s, pos) {
        Some((n, p)) => Some((n as i32, p)),
        None => None,
    }
}

proof fn lemma_i32_cast(v: i32)
    by (bit_vector)
    ensures
        (v as u32) as i32 == v,
{
}

/// Round trip: parsing encoded bytes yields the encoded value.
pub proof fn lemma_i32_round_trip(v: i32, s: Seq<u8>, pos: int)
    requires
        is_prefix(enc_i32(v), s, pos),
    ensures
        dec_i32(s, pos) == Some((v, pos + 4)),
{
    lemma_u32_round_trip(v as u32, s, pos);
    lemma_i32_cast(v);
}

pub fn encode_i32(buf: &mut Vec<u8>, v: i32)
    ensures
        final(buf)@ == old(buf)@ + enc_i32(v),
{
    encode_u32(buf, v as u32);
}

pub fn decode_i32(bytes: &[u8], pos: usize) -> (r: Option<(i32, usize)>)
    ensures
        r is Some <==> dec_i32(bytes@, pos as int) is Some,
        r matches Some((v, p)) ==> dec_i32(bytes@, pos as int) == Some((v, p as int)),
{
    match decode_u32(bytes, pos) {
        Some((n, p)) => Some((n as i32, p)),
        None => None,
    }
}

// ---------------------------------------------------------------------------
// Booleans, one byte, 0 or 1
// ---------------------------------------------------------------------------

pub open spec fn enc_bool(v: bool) -> Seq<u8> {
    seq![if v { 1u8 } else { 0u8 }]
}

pub open spec fn dec_bool(s: Seq<u8>, pos: int) -> Option<(bool, int)> {
    if 0 <= pos && pos + 1 <= s.len() {
        if s[pos] == 0 {
            Some((false, pos + 1))
        } else if s[pos] == 1 {
            Some((true, pos + 1))
        } else {
            None
        }
    } else {
        None
    }
}

/// Round trip: parsing encoded bytes yields the encoded value.
pub proof fn lemma_bool_round_trip(v: bool, s: Seq<u8>, pos: int)
    requires
        is_prefix(enc_bool(v), s, pos),
    ensures
        dec_bool(s, pos) == Some((v, pos + 1)),
{
    assert(s[pos] == enc_bool(v)[0]);
}

pub fn encode_bool(buf: &mut Vec<u8>, v: bool)
    ensures
        final(buf)@ == old(buf)@ + enc_bool(v),
{
    buf.push(if v { 1u8 } else { 0u8 });
    proof {
        assert(buf@ =~= old(buf)@ + enc_bool(v));
    }
}

// ---------------------------------------------------------------------------
// Strings: a 64-bit length followed by the UTF-8 bytes
// ---------------------------------------------------------------------------

/// Relies on `String::from_utf8`: it succeeds exactly on valid UTF-8 input
/// and returns the string whose UTF-8 encoding is that input.
#[verifier::external_body]
fn bytes_to_string(b: Vec<u8>) -> (r: Option<String>)
    ensures
        r matches Some(s) ==> encode_utf8(s@) == b@,
        valid_utf8(b@) ==> r is Some,
{
    match String::from_utf8(b) {
        Ok(s) => Some(s),
        Err(_) => None,
    }
}

pub open spec fn enc_str(c: Seq<char>) -> Seq<u8> {
    enc_u64(encode_utf8(c).len() as u64) + encode_utf8(c)
}

pub open spec fn dec_str(s: Seq<u8>, pos: int) -> Option<(Seq<char>, int)> {
    match dec_u64(s, pos) {
        Some((n, p)) => if n as int <= s.len() - p && valid_utf8(
            s.subrange(p, p + n as int),
        ) {
            Some((decode_utf8(s.subrange(p, p + n as int)), p + n as int))
        } else {
            None
        },
        None => None,
    }
}

/// Round trip: parsing an encoded string yields the encoded characters.
pub proof fn lemma_str_round_trip(c: Seq<char>, s: Seq<u8>, pos: int)
    requires
        is_prefix(enc_str(c), s, pos),
        encode_utf8(c).len() < 0x1_0000_0000_0000_0000,
    ensures
        dec_str(s, pos) == Some((c, pos + 8 + encode_utf8(c).len())),
{
    let u = encode_utf8(c);
    lemma_prefix_split(enc_u64(u.len() as u64), u, s, pos);
    lemma_u64_round_trip(u.len() as u64, s, pos);
    encode_utf8_valid_utf8(c);
    encode_utf8_decode_utf8(c);
}

pub fn encode_string(buf: &mut Vec<u8>, s: &str)
    ensures
        final(buf)@ == old(buf)@ + enc_str(s@),
{
    let bs = s.as_bytes();
    encode_u64(buf, bs.len() as u64);
    append_bytes(buf, bs);
    proof {
        assert(buf@ =~= old(buf)@ + enc_str(s@));
    }
}

pub fn decode_string(bytes: &[u8], pos: usize) -> (r: Option<(String, usize)>)
    ensures
        r is Some <==> dec_str(bytes@, pos as int) is Some,
        r matches Some((v, p)) ==> dec_str(bytes@, pos as int) == Some((v@, p as int)),
{
    match decode_u64(bytes, pos) {
        None => None,
        Some((n, p)) => {
            if n > (bytes.len() - p) as u64 {
                None
            } else {
                let nn = n as usize;
                let sub = vstd::slice::slice_subrange(bytes, p, p + nn);
                let v = vstd::slice::slice_to_vec(sub);
                match bytes_to_string(v) {
                    None => None,
                    Some(s) => {
                        proof {
                            encode_utf8_valid_utf8(s@);
                            encode_utf8_decode_utf8(s@);
                        }
                        Some((s, p + nn))
                    },
                }
            }
        },
    }
}

// ---------------------------------------------------------------------------
// Lists: a 64-bit element count followed by the encoded elements
// ---------------------------------------------------------------------------

pub open spec fn enc_items<T>(s: Seq<T>, f: spec_fn(T) -> Seq<u8>) -> Seq<u8>
    decreases s.len(),
{
    if s.len() == 0 {
        Seq::empty()
    } else {
        f(s[0]) + enc_items(s.drop_first(), f)
    }
}

pub open spec fn enc_seq_of<T>(s: Seq<T>, f: spec_fn(T) -> Seq<u8>) -> Seq<u8> {
    enc_u64(s.len() as u64) + enc_items(s, f)
}

pub open spec fn dec_items<T>(
    s: Seq<u8>,
    pos: int,
    n: nat,
    f: spec_fn(Seq<u8>, int) -> Option<(T, int)>,
) -> Option<(Seq<T>, int)>
    decreases n,
{
    if n == 0 {
        Some((Seq::empty(), pos))
    } else {
        match f(s, pos) {
            None => None,
            Some((v, p)) => match dec_items(s, p, (n - 1) as nat, f) {
                None => None,
                Some((rest, end)) => Some((seq![v] + rest, end)),
            },
        }
    }
}

pub open spec fn dec_seq_of<T>(
    s: Seq<u8>,
    pos: int,
    f: spec_fn(Seq<u8>, int) -> Option<(T, int)>,
) -> Option<(Seq<T>, int)> {
    match dec_u64(s, pos) {
        None => None,
        Some((n, p)) => dec_items(s, p, n as nat, f),
    }
}

/// Extending the encoded front of a list by one element appends that
/// element's encoding.
pub proof fn lemma_enc_items_take<T>(s: Seq<T>, f: spec_fn(T) -> Seq<u8>, i: int)
    requires
        0 <= i < s.len(),
    ensures
        enc_items(s.take(i + 1), f) == enc_items(s.take(i), f) + f(s[i]),
    decreases i,
{
    if i == 0 {
        assert(s.take(1) =~= seq![s[0]]);
        assert(s.take(0) =~= Seq::<T>::empty());
        assert(seq![s[0]].drop_first() =~= Seq::<T>::empty());
        assert(f(s[0]) + Seq::<u8>::empty() =~= f(s[0]));
        assert(Seq::<u8>::empty() + f(s[0]) =~= f(s[0]));
    } else {
        let d = s.drop_first();
        assert(s.take(i + 1).drop_first() =~= d.take(i));
        assert(s.take(i).drop_first() =~= d.take(i - 1));
        assert(s.take(i + 1)[0] == s[0]);
        assert(s.take(i)[0] == s[0]);
        lemma_enc_items_take(d, f, i - 1);
        assert(d[i - 1] == s[i]);
        assert((f(s[0]) + enc_items(d.take(i - 1), f)) + f(s[i]) =~= f(s[0]) + (enc_items(
            d.take(i - 1),
            f,
        ) + f(s[i])));
    }
}

/// Round trip for the element run of a list: if every element is well sized
/// and the element parser inverts the element encoder, the run parses back to
/// the element sequence.
pub proof fn lemma_items_round_trip<T>(
    s: Seq<T>,
    wf: spec_fn(T) -> bool,
    f_enc: spec_fn(T) -> Seq<u8>,
    f_dec: spec_fn(Seq<u8>, int) -> Option<(T, int)>,
    bytes: Seq<u8>,
    pos: int,
)
    requires
        forall|i: int| 0 <= i < s.len() ==> wf(#[trigger] s[i]),
        forall|v: T, p: int|
            wf(v) && #[trigger] is_prefix(f_enc(v), bytes, p) ==> f_dec(bytes, p) == Some(
                (v, p + f_enc(v).len()),
            ),
        is_prefix(enc_items(s, f_enc), bytes, pos),
    ensures
        dec_items(bytes, pos, s.len(), f_dec) == Some((s, pos + enc_items(s, f_enc).len())),
    decreases s.len(),
{
    if s.len() == 0 {
        assert(s =~= Seq::<T>::empty());
    } else {
        let d = s.drop_first();
        lemma_prefix_split(f_enc(s[0]), enc_items(d, f_enc), bytes, pos);
        assert(forall|i: int| 0 <= i < d.len() ==> wf(#[trigger] d[i]));
        lemma_items_round_trip(d, wf, f_enc, f_dec, bytes, pos + f_enc(s[0]).len());
        assert(seq![s[0]] + d =~= s);
    }
}

/// Round trip: parsing an encoded list yields the encoded elements.
pub proof fn lemma_seq_round_trip<T>(
    s: Seq<T>,
    wf: spec_fn(T) -> bool,
    f_enc: spec_fn(T) -> Seq<u8>,
    f_dec: spec_fn(Seq<u8>, int) -> Option<(T, int)>,
    bytes: Seq<u8>,
    pos: int,
)
    requires
        s.len() < 0x1_0000_0000_0000_0000,
        forall|i: int| 0 <= i < s.len() ==> wf(#[trigger] s[i]),
        forall|v: T, p: int|
            wf(v) && #[trigger] is_prefix(f_enc(v), bytes, p) ==> f_dec(bytes, p) == Some(
                (v, p + f_enc(v).len()),
            ),
        is_prefix(enc_seq_of(s, f_enc), bytes, pos),
    ensures
        dec_seq_of(bytes, pos, f_dec) == Some((s, pos + enc_seq_of(s, f_enc).len())),
{
    lemma_prefix_split(enc_u64(s.len() as u64), enc_items(s, f_enc), bytes, pos);
    lemma_u64_round_trip(s.len() as u64, bytes, pos);
    lemma_items_round_trip(s, wf, f_enc, f_dec, bytes, pos + 8);
}

// ---------------------------------------------------------------------------
// Options: a tag byte, 0 for absent and 1 followed by the value for present
// ---------------------------------------------------------------------------

pub open spec fn enc_opt<T>(o: Option<T>, f: spec_fn(T) -> Seq<u8>) -> Seq<u8> {
    match o {
        None => seq![0u8],
        Some(v) => seq![1u8] + f(v),
    }
}

pub open spec fn dec_opt<T>(
    s: Seq<u8>,
    pos: int,
    f: spec_fn(Seq<u8>, int) -> Option<(T, int)>,
) -> Option<(Option<T>, int)> {
    if 0 <= pos && pos + 1 <= s.len() {
        if s[pos] == 0 {
            Some((None, pos + 1))
        } else if s[pos] == 1 {
            match f(s, pos + 1) {
                None => None,
                Some((v, p)) => Some((Some(v), p)),
            }
        } else {
            None
        }
    } else {
        None
    }
}

/// Round trip: parsing an encoded option yields the encoded value.
pub proof fn lemma_opt_round_trip<T>(
    o: Option<T>,
    wf: spec_fn(T) -> bool,
    f_enc: spec_fn(T) -> Seq<u8>,
    f_dec: spec_fn(Seq<u8>, int) -> Option<(T, int)>,
    bytes: Seq<u8>,
    pos: int,
)
    requires
        o matches Some(v) ==> wf(v),
        forall|v: T, p: int|
            wf(v) && #[trigger] is_prefix(f_enc(v), bytes, p) ==> f_dec(bytes, p) == Some(
                (v, p + f_enc(v).len()),
            ),
        is_prefix(enc_opt(o, f_enc), bytes, pos),
    ensures
        dec_opt(bytes, pos, f_dec) == Some((o, pos + enc_opt(o, f_enc).len())),
{
    match o {
        None => {
            assert(bytes[pos] == enc_opt(o, f_enc)[0]);
        },
        Some(v) => {
            lemma_prefix_split(seq![1u8], f_enc(v), bytes, pos);
            assert(bytes[pos] == seq![1u8][0]);
        },
    }
}

pub fn decode_bool(bytes: &[u8], pos: usize) -> (r: Option<(bool, usize)>)
    ensures
        r is Some <==> dec_bool(bytes@, pos as int) is Some,
        r matches Some((v, p)) ==> dec_bool(bytes@, pos as int) == Some((v, p as int)),
{
    if pos < bytes.len() {
        let b = bytes[pos];
        if b == 0 {
            Some((false, pos + 1))
        } else if b == 1 {
            Some((true, pos + 1))
        } else {
            None
        }
    } else {
        None
    }
}

// ---------------------------------------------------------------------------
// Options of primitive values
// ---------------------------------------------------------------------------

pub open spec fn opt_str_view(o: Option<String>) -> Option<Seq<char>> {
    match o {
        Some(s) => Some(s@),
        None => None,
    }
}

pub open spec fn enc_opt_u64(o: Option<u64>) -> Seq<u8> {
    enc_opt(o, |v: u64| enc_u64(v))
}

pub open spec fn dec_opt_u64(s: Seq<u8>, pos: int) -> Option<(Option<u64>, int)> {
    dec_opt(s, pos, |b: Seq<u8>, p: int| dec_u64(b, p))
}

pub open spec fn enc_opt_u16(o: Option<u16>) -> Seq<u8> {
    enc_opt(o, |v: u16| enc_u16(v))
}

pub open spec fn dec_opt_u16(s: Seq<u8>, pos: int) -> Option<(Option<u16>, int)> {
    dec_opt(s, pos, |b: Seq<u8>, p: int| dec_u16(b, p))
}

pub open spec fn enc_opt_u32(o: Option<u32>) -> Seq<u8> {
    enc_opt(o, |v: u32| enc_u32(v))
}

pub open spec fn dec_opt_u32(s: Seq<u8>, pos: int) -> Option<(Option<u32>, int)> {
    dec_opt(s, pos, |b: Seq<u8>, p: int| dec_u32(b, p))
}

pub open spec fn enc_opt_bool(o: Option<bool>) -> Seq<u8> {
    enc_opt(o, |v: bool| enc_bool(v))
}

pub open spec fn dec_opt_bool(s: Seq<u8>, pos: int) -> Option<(Option<bool>, int)> {
    dec_opt(s, pos, |b: Seq<u8>, p: int| dec_bool(b, p))
}

pub open spec fn enc_opt_str(o: Option<Seq<char>>) -> Seq<u8> {
    enc_opt(o, |c: Seq<char>| enc_str(c))
}

pub open spec fn dec_opt_str(s: Seq<u8>, pos: int) -> Option<(Option<Seq<char>>, int)> {
    dec_opt(s, pos, |b: Seq<u8>, p: int| dec_str(b, p))
}

/// Round trip: parsing an encoded optional value yields the encoded option.
pub proof fn lemma_opt_u64_round_trip(o: Option<u64>, s: Seq<u8>, pos: int)
    requires
        is_prefix(enc_opt_u64(o), s, pos),
    ensures
        dec_opt_u64(s, pos) == Some((o, pos + enc_opt_u64(o).len())),
{
    assert forall|v: u64, p: int|
        true && #[trigger] is_prefix(enc_u64(v), s, p) implies dec_u64(s, p) == Some(
        (v, p + enc_u64(v).len()),
    ) by {
        lemma_u64_round_trip(v, s, p);
    }
    lemma_opt_round_trip(o, |v: u64| true, |v: u64| enc_u64(v), |b: Seq<u8>, p: int| dec_u64(b, p), s, pos);
}

/// Round trip: parsing an encoded optional value yields the encoded option.
pub proof fn lemma_opt_u16_round_trip(o: Option<u16>, s: Seq<u8>, pos: int)
    requires
        is_prefix(enc_opt_u16(o), s, pos),
    ensures
        dec_opt_u16(s, pos) == Some((o, pos + enc_opt_u16(o).len())),
{
    assert forall|v: u16, p: int|
        true && #[trigger] is_prefix(enc_u16(v), s, p) implies dec_u16(s, p) == Some(
        (v, p + enc_u16(v).len()),
    ) by {
        lemma_u16_round_trip(v, s, p);
    }
    lemma_opt_round_trip(o, |v: u16| true, |v: u16| enc_u16(v), |b: Seq<u8>, p: int| dec_u16(b, p), s, pos);
}

/// Round trip: parsing an encoded optional value yields the encoded option.
pub proof fn lemma_opt_u32_round_trip(o: Option<u32>, s: Seq<u8>, pos: int)
    requires
        is_prefix(enc_opt_u32(o), s, pos),
    ensures
        dec_opt_u32(s, pos) == Some((o, pos + enc_opt_u32(o).len())),
{
    assert forall|v: u32, p: int|
        true && #[trigger] is_prefix(enc_u32(v), s, p) implies dec_u32(s, p) == Some(
        (v, p + enc_u32(v).len()),
    ) by {
        lemma_u32_round_trip(v, s, p);
    }
    lemma_opt_round_trip(o, |v: u32| true, |v: u32| enc_u32(v), |b: Seq<u8>, p: int| dec_u32(b, p), s, pos);
}

/// Round trip: parsing an encoded optional value yields the encoded option.
pub proof fn lemma_opt_bool_round_trip(o: Option<bool>, s: Seq<u8>, pos: int)
    requires
        is_prefix(enc_opt_bool(o), s, pos),
    ensures
        dec_opt_bool(s, pos) == Some((o, pos + enc_opt_bool(o).len())),
{
    assert forall|v: bool, p: int|
        true && #[trigger] is_prefix(enc_bool(v), s, p) implies dec_bool(s, p) == Some(
        (v, p + enc_bool(v).len()),
    ) by {
        lemma_bool_round_trip(v, s, p);
    }
    lemma_opt_round_trip(o, |v: bool| true, |v: bool| enc_bool(v), |b: Seq<u8>, p: int| dec_bool(b, p), s, pos);
}

/// Round trip: parsing an encoded optional string yields the encoded option.
pub proof fn lemma_opt_str_round_trip(o: Option<Seq<char>>, s: Seq<u8>, pos: int)
    requires
        o matches Some(c) ==> encode_utf8(c).len() < 0x1_0000_0000_0000_0000,
        is_prefix(enc_opt_str(o), s, pos),
    ensures
        dec_opt_str(s, pos) == Some((o, pos + enc_opt_str(o).len())),
{
    let wf = |c: Seq<char>| encode_utf8(c).len() < 0x1_0000_0000_0000_0000;
    assert forall|c: Seq<char>, p: int|
        wf(c) && #[trigger] is_prefix(enc_str(c), s, p) implies dec_str(s, p) == Some(
        (c, p + enc_str(c).len()),
    ) by {
        lemma_str_round_trip(c, s, p);
    }
    lemma_opt_round_trip(o, wf, |c: Seq<char>| enc_str(c), |b: Seq<u8>, p: int| dec_str(b, p), s, pos);
}

pub fn encode_opt_u64(buf: &mut Vec<u8>, o: &Option<u64>)
    ensures
        final(buf)@ == old(buf)@ + enc_opt_u64(*o),
{
    match o {
        None => {
            buf.push(0);
            proof {
                assert(buf@ =~= old(buf)@ + enc_opt_u64(*o));
            }
        },
        Some(v) => {
            buf.push(1);
            encode_u64(buf, *v);
            proof {
                assert(buf@ =~= old(buf)@ + enc_opt_u64(*o));
            }
        },
    }
}

pub fn encode_opt_u16(buf: &mut Vec<u8>, o: &Option<u16>)
    ensures
        final(buf)@ == old(buf)@ + enc_opt_u16(*o),
{
    match o {
        None => {
            buf.push(0);
            proof {
                assert(buf@ =~= old(buf)@ + enc_opt_u16(*o));
            }
        },
        Some(v) => {
            buf.push(1);
            encode_u16(buf, *v);
            proof {
                assert(buf@ =~= old(buf)@ + enc_opt_u16(*o));
            }
        },
    }
}

pub fn encode_opt_u32(buf: &mut Vec<u8>, o: &Option<u32>)
    ensures
        final(buf)@ == old(buf)@ + enc_opt_u32(*o),
{
    match o {
        None => {
            buf.push(0);
            proof {
                assert(buf@ =~= old(buf)@ + enc_opt_u32(*o));
            }
        },
        Some(v) => {
            buf.push(1);
            encode_u32(buf, *v);
            proof {
                assert(buf@ =~= old(buf)@ + enc_opt_u32(*o));
            }
        },
    }
}

pub fn encode_opt_bool(buf: &mut Vec<u8>, o: &Option<bool>)
    ensures
        final(buf)@ == old(buf)@ + enc_opt_bool(*o),
{
    match o {
        None => {
            buf.push(0);
            proof {
                assert(buf@ =~= old(buf)@ + enc_opt_bool(*o));
            }
        },
        Some(v) => {
            buf.push(1);
            encode_bool(buf, *v);
            proof {
                assert(buf@ =~= old(buf)@ + enc_opt_bool(*o));
            }
        },
    }
}

pub fn encode_opt_string(buf: &mut Vec<u8>, o: &Option<String>)
    ensures
        final(buf)@ == old(buf)@ + enc_opt_str(opt_str_view(*o)),
{
    match o {
        None => {
            buf.push(0);
            proof {
                assert(buf@ =~= old(buf)@ + enc_opt_str(opt_str_view(*o)));
            }
        },
        Some(v) => {
            buf.push(1);
            encode_string(buf, v.as_str());
            proof {
                assert(buf@ =~= old(buf)@ + enc_opt_str(opt_str_view(*o)));
            }
        },
    }
}

pub fn decode_opt_u64(bytes: &[u8], pos: usize) -> (r: Option<(Option<u64>, usize)>)
    ensures
        r is Some <==> dec_opt_u64(bytes@, pos as int) is Some,
        r matches Some((v, p)) ==> dec_opt_u64(bytes@, pos as int) == Some((v, p as int)),
{
    if pos < bytes.len() {
        let b = bytes[pos];
        if b == 0 {
            Some((None, pos + 1))
        } else if b == 1 {
            match decode_u64(bytes, pos + 1) {
                Some((v, p)) => Some((Some(v), p)),
                None => None,
            }
        } else {
            None
        }
    } else {
        None
    }
}

pub fn decode_opt_u16(bytes: &[u8], pos: usize) -> (r: Option<(Option<u16>, usize)>)
    ensures
        r is Some <==> dec_opt_u16(bytes@, pos as int) is Some,
        r matches Some((v, p)) ==> dec_opt_u16(bytes@, pos as int) == Some((v, p as int)),
{
    if pos < bytes.len() {
        let b = bytes[pos];
        if b == 0 {
            Some((None, pos + 1))
        } else if b == 1 {
            match decode_u16(bytes, pos + 1) {
                Some((v, p)) => Some((Some(v), p)),
                None => None,
            }
        } else {
            None
        }
    } else {
        None
    }
}

pub fn decode_opt_u32(bytes: &[u8], pos: usize) -> (r: Option<(Option<u32>, usize)>)
    ensures
        r is Some <==> dec_opt_u32(bytes@, pos as int) is Some,
        r matches Some((v, p)) ==> dec_opt_u32(bytes@, pos as int) == Some((v, p as int)),
{
    if pos < bytes.len() {
        let b = bytes[pos];
        if b == 0 {
            Some((None, pos + 1))
        } else if b == 1 {
            match decode_u32(bytes, pos + 1) {
                Some((v, p)) => Some((Some(v), p)),
                None => None,
            }
        } else {
            None
        }
    } else {
        None
    }
}

pub fn decode_opt_bool(bytes: &[u8], pos: usize) -> (r: Option<(Option<bool>, usize)>)
    ensures
        r is Some <==> dec_opt_bool(bytes@, pos as int) is Some,
        r matches Some((v, p)) ==> dec_opt_bool(bytes@, pos as int) == Some((v, p as int)),
{
    if pos < bytes.len() {
        let b = bytes[pos];
        if b == 0 {
            Some((None, pos + 1))
        } else if b == 1 {
            match decode_bool(bytes, pos + 1) {
                Some((v, p)) => Some((Some(v), p)),
                None => None,
            }
        } else {
            None
        }
    } else {
        None
    }
}

pub fn decode_opt_string(bytes: &[u8], pos: usize) -> (r: Option<(Option<String>, usize)>)
    ensures
        r is Some <==> dec_opt_str(bytes@, pos as int) is Some,
        r matches Some((v, p)) ==> dec_opt_str(bytes@, pos as int) == Some(
            (opt_str_view(v), p as int),
        ),
{
    if pos < bytes.len() {
        let b = bytes[pos];
        if b == 0 {
            Some((None, pos + 1))
        } else if b == 1 {
            match decode_string(bytes, pos + 1) {
                Some((v, p)) => Some((Some(v), p)),
                None => None,
            }
        } else {
            None
        }
    } else {
        None
    }
}

} // verus!
