//! Room identifiers derived from creation time, a random seed and origin.

use vstd::prelude::*;

use crate::text::{dec_int, push_signed_decimal};

verus! {

/// Relies on `sha2::Sha256`: the digest depends on the bytes alone.
pub uninterp spec fn sha256_of(data: Seq<u8>) -> Seq<u8>;

/// Relies on `sha2::Sha256::digest`, whose output is 32 bytes.
#[verifier::external_body]
fn sha256(data: &[u8]) -> (r: Vec<u8>)
    ensures
        r@ == sha256_of(data@),
        r@.len() == 32,
{
    <sha2::Sha256 as sha2::Digest>::digest(data).to_vec()
}

pub open spec fn hex_digit(d: u8) -> char {
    if d < 10 {
        (('0' as u8) + d) as char
    } else {
        (('a' as u8) + d - 10) as char
    }
}

/// Two lower-case hex digits per byte, high nibble first.
pub open spec fn hex_lower(b: Seq<u8>) -> Seq<char>
    decreases b.len(),
{
    if b.len() == 0 {
        Seq::empty()
    } else {
        hex_lower(b.drop_last()) + seq![hex_digit(b.last() / 16), hex_digit(b.last() % 16)]
    }
}

/// A lower-case hex digit.
pub open spec fn is_hex_char(c: char) -> bool {
    ('0' <= c && c <= '9') || ('a' <= c && c <= 'f')
}

/// The hex form is twice as long as the bytes and holds only hex digits.
proof fn lemma_hex_lower(b: Seq<u8>)
    ensures
        hex_lower(b).len() == 2 * b.len(),
        forall|i: int| 0 <= i < hex_lower(b).len() ==> is_hex_char(#[trigger] hex_lower(b)[i]),
    decreases b.len(),
{
    if b.len() > 0 {
        lemma_hex_lower(b.drop_last());
        let init = hex_lower(b.drop_last());
        let x = b.last();
        assert(x / 16 < 16 && x % 16 < 16);
        assert(is_hex_char(hex_digit(x / 16)));
        assert(is_hex_char(hex_digit(x % 16)));
        let h = hex_lower(b);
        assert forall|i: int| 0 <= i < h.len() implies is_hex_char(#[trigger] h[i]) by {
            if i < init.len() {
                assert(h[i] == init[i]);
            }
        }
    }
}

/// Relies on `hex::encode`: two lower-case digits per byte, in order.
#[verifier::external_body]
fn hex_encode(b: &[u8]) -> (r: String)
    ensures
        r@ == hex_lower(b@),
{
    hex::encode(b)
}

/// Relies on `time::OffsetDateTime::now_utc` for the current Unix time.
#[verifier::external_body]
fn unix_now() -> (r: i64) {
    time::OffsetDateTime::now_utc().unix_timestamp()
}

/// Relies on `uuid::Uuid::new_v4` for a fresh random seed, as text.
#[verifier::external_body]
fn random_seed() -> (r: String) {
    uuid::Uuid::new_v4().to_string()
}

/// The identifier derived from a creation time, a random seed and the origin
/// of a room: the hex form of the SHA-256 of their concatenated text.
pub open spec fn room_id_spec(ts: i64, seed: Seq<char>, origin: Seq<char>) -> Seq<char> {
    hex_lower(sha256_of(vstd::utf8::encode_utf8(dec_int(ts as int) + seed + origin)))
}

/// The identifier for a room created at `ts` from `origin`, given `seed`.
pub fn room_id_from(ts: i64, seed: &str, origin: &str) -> (r: String)
    ensures
        r@ == room_id_spec(ts, seed@, origin@),
        r@.len() == 64,
        forall|i: int| 0 <= i < r@.len() ==> is_hex_char(#[trigger] r@[i]),
{
    let mut text = String::new();
    push_signed_decimal(&mut text, ts);
    text.append(seed);
    text.append(origin);
    let digest = sha256(text.as_str().as_bytes());
    proof {
        lemma_hex_lower(digest@);
    }
    hex_encode(digest.as_slice())
}

/// A fresh identifier for a room created now from `origin`.
pub fn make_room_id(origin: &str) -> (r: String)
    ensures
        exists|ts: i64, seed: Seq<char>| r@ == room_id_spec(ts, seed, origin@),
        r@.len() == 64,
        forall|i: int| 0 <= i < r@.len() ==> is_hex_char(#[trigger] r@[i]),
{
    let ts = unix_now();
    let seed = random_seed();
    room_id_from(ts, seed.as_str(), origin)
}

} // verus!
