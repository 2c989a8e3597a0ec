//! Host obfuscation codec.
//!
//! A `host:port` string is obfuscated by base64-encoding its UTF-8 bytes and
//! inserting one pseudo-random alphanumeric byte at index
//! `floor(len * 0.618)` of the base64 text.  Decoding removes the byte at the
//! same index (computed from the token length minus one) and inverts the
//! base64 step.  This is reversible obfuscation against naive pattern
//! matching, not encryption: only the position of the inserted byte matters,
//! never its value.

use vstd::prelude::*;
use vstd::slice::slice_to_vec;
use vstd::utf8::{
    decode_utf8, encode_utf8, encode_utf8_decode_utf8, encode_utf8_valid_utf8, valid_utf8,
};

verus! {

/// Decoding failure: the token is not the encoding of any host string.
#[derive(Debug, Clone, Copy, PartialEq, Eq, Structural)]
pub enum CodecError {
    InvalidHostEncoding,
}

/// The index at which the filler byte sits inside a token whose base64 part
/// has length `n`: `floor(n * 0.618)`, with `0.618` read as the exact
/// rational `618/1000`.
pub open spec fn obf_index(n: nat) -> nat {
    (n * 618) / 1000
}

/// What `base64::prelude::BASE64_STANDARD.encode` returns on the given
/// bytes, as a byte sequence.  Left uninterpreted: the base64 alphabet is
/// written down nowhere in this crate, and everything proved about the codec
/// goes through this name.
pub uninterp spec fn base64_of(bytes: Seq<u8>) -> Seq<u8>;

/// The filler bytes the encoder may insert: ASCII alphanumeric.
pub open spec fn is_filler_byte(b: u8) -> bool {
    (65 <= b <= 90) || (97 <= b <= 122) || (48 <= b <= 57)
}

/// The token that encodes `host_bytes` when the random filler came out as
/// `filler`.
pub open spec fn token_for(host_bytes: Seq<u8>, filler: u8) -> Seq<u8> {
    base64_of(host_bytes).insert(obf_index(base64_of(host_bytes).len()) as int, filler)
}

/// The byte sequence a decoder works on: the token with the byte at the
/// filler index removed.
pub open spec fn strip_filler(token: Seq<u8>) -> Seq<u8>
    recommends
        token.len() >= 1,
{
    token.remove(obf_index((token.len() - 1) as nat) as int)
}

/// A token decodes successfully exactly when, after the filler byte is
/// removed, what remains is the base64 encoding of some valid UTF-8 byte
/// sequence.
pub open spec fn token_valid(token: Seq<u8>) -> bool {
    token.len() >= 1 && exists|b: Seq<u8>|
        strip_filler(token) == base64_of(b) && valid_utf8(b)
}

/// Relies on `base64::Engine::encode` with `base64::prelude::BASE64_STANDARD`:
/// standard-alphabet base64 with `=` padding.  The output is ASCII and
/// `4 * ceil(n / 3)` bytes long for `n` input bytes.
#[verifier::external_body]
fn b64_encode(bytes: &[u8]) -> (r: Vec<u8>)
    ensures
        r@ == base64_of(bytes@),
        r@.len() == 4 * ((bytes@.len() + 2) / 3),
        forall|i: int| 0 <= i < r@.len() ==> r@[i] < 128,
{
    base64::Engine::encode(&base64::prelude::BASE64_STANDARD, bytes).into_bytes()
}

/// Relies on `base64::Engine::decode` with `base64::prelude::BASE64_STANDARD`,
/// whose configuration rejects non-canonical padding and set trailing bits:
/// it accepts exactly the canonical encodings, and on those it inverts
/// `encode`.
#[verifier::external_body]
fn b64_decode(bytes: &[u8]) -> (r: Option<Vec<u8>>)
    ensures
        r is Some ==> bytes@ == base64_of(r->0@),
        forall|b: Seq<u8>| bytes@ == base64_of(b) ==> r is Some && r->0@ == b,
{
    match base64::Engine::decode(&base64::prelude::BASE64_STANDARD, bytes) {
        Ok(v) => Some(v),
        Err(_) => None,
    }
}

/// Relies on `String::from_utf8`: it returns `Ok` exactly when the bytes are
/// a valid UTF-8 encoding, and then returns the string they decode to.
#[verifier::external_body]
fn utf8_to_string(bytes: Vec<u8>) -> (r: Option<String>)
    ensures
        r is Some <==> valid_utf8(bytes@),
        r is Some ==> r->0@ == decode_utf8(bytes@) && encode_utf8(r->0@) == bytes@,
{
    match String::from_utf8(bytes) {
        Ok(s) => Some(s),
        Err(_) => None,
    }
}

/// Relies on `rand::distributions::Alphanumeric`: sampling it yields one
/// ASCII alphanumeric byte (`A`-`Z`, `a`-`z`, `0`-`9`); which one depends on
/// the thread-local RNG, so nothing more is stated.
#[verifier::external_body]
fn random_filler() -> (r: u8)
    ensures
        is_filler_byte(r),
{
    rand::Rng::sample(&mut rand::thread_rng(), rand::distributions::Alphanumeric)
}

/// The filler index, as executable code.
fn filler_index(n: usize) -> (r: usize)
    ensures
        r == obf_index(n as nat),
        r <= n,
{
    proof {
        lemma_obf_index_le(n as nat);
    }
    ((n as u128) * 618 / 1000) as usize
}

/// The filler index never passes the end of the base64 text.
pub proof fn lemma_obf_index_le(n: nat)
    ensures
        obf_index(n) <= n,
{
    assert((n * 618) / 1000 <= n) by (nonlinear_arith);
}

/// Removing the byte at the decode index undoes inserting the filler at the
/// encode index: both indices are `obf_index` of the base64 length, because
/// a token is exactly one byte longer than its base64 part.
pub proof fn lemma_strip_inverts_token(host_bytes: Seq<u8>, filler: u8)
    ensures
        token_for(host_bytes, filler).len() == base64_of(host_bytes).len() + 1,
        strip_filler(token_for(host_bytes, filler)) == base64_of(host_bytes),
{
    let e = base64_of(host_bytes);
    let i = obf_index(e.len()) as int;
    lemma_obf_index_le(e.len());
    let t = e.insert(i, filler);
    assert(t.remove(i) =~= e);
}

/// Round trip: the token built from any host string and any filler byte is
/// a valid token, and what stands behind it is exactly that host string.
/// Together with the `ensures` of `decode_token`, this says that decoding
/// any result of `encode_host(h)` yields `Ok` with the value `h` again.
pub proof fn lemma_round_trip(host: Seq<char>, filler: u8)
    ensures
        strip_filler(token_for(encode_utf8(host), filler)) == base64_of(encode_utf8(host)),
        valid_utf8(encode_utf8(host)),
        decode_utf8(encode_utf8(host)) == host,
        token_valid(token_for(encode_utf8(host), filler)),
{
    lemma_strip_inverts_token(encode_utf8(host), filler);
    encode_utf8_valid_utf8(host);
    encode_utf8_decode_utf8(host);
}

/// Obfuscate a host string into a transport-safe token: base64 of the UTF-8
/// bytes with one random alphanumeric byte inserted at the filler index.
pub fn encode_host(host: &str) -> (r: String)
    ensures
        exists|c: u8|
            is_filler_byte(c) && encode_utf8(r@) == token_for(encode_utf8(host@), c),
        encode_utf8(r@).len() == base64_of(encode_utf8(host@)).len() + 1,
        base64_of(encode_utf8(host@)).len() == 4 * ((encode_utf8(host@).len() + 2) / 3),
{
    let bytes = host.as_bytes();
    let mut encoded = b64_encode(bytes);
    let idx = filler_index(encoded.len());
    let filler = random_filler();
    let ghost e = encoded@;
    encoded.insert(idx, filler);
    proof {
        assert(encoded@ =~= e.insert(obf_index(e.len()) as int, filler));
        assert(forall|i: int| 0 <= i < encoded@.len() ==> encoded@[i] < 128) by {
            assert(is_filler_byte(filler));
        }
        lemma_ascii_valid_utf8(encoded@);
    }
    let r = utf8_to_string(encoded);
    r.unwrap()
}

/// Invert the obfuscation on raw token bytes: remove the filler byte, then
/// base64-decode and read the result as UTF-8.  Fails with
/// `InvalidHostEncoding` exactly on tokens that no host string encodes to.
pub fn decode_token(token: &[u8]) -> (r: Result<String, CodecError>)
    ensures
        r is Ok <==> token_valid(token@),
        r matches Ok(s) ==> strip_filler(token@) == base64_of(encode_utf8(s@)),
        forall|b: Seq<u8>|
            token@.len() >= 1 && strip_filler(token@) == base64_of(b) && valid_utf8(b)
                ==> (r matches Ok(s) && s@ == decode_utf8(b)),
{
    if token.len() == 0 {
        return Err(CodecError::InvalidHostEncoding);
    }
    let i = filler_index(token.len() - 1);
    let mut rest = slice_to_vec(token);
    let ghost t = rest@;
    rest.remove(i);
    proof {
        assert(rest@ =~= strip_filler(t));
    }
    match b64_decode(rest.as_slice()) {
        None => Err(CodecError::InvalidHostEncoding),
        Some(decoded) => {
            match utf8_to_string(decoded) {
                None => Err(CodecError::InvalidHostEncoding),
                Some(s) => Ok(s),
            }
        },
    }
}

/// Invert the obfuscation on a token string, as the relay server receives
/// it.  Fails with `InvalidHostEncoding` instead of aborting on malformed
/// input.
pub fn decode_host(encoded_host: String) -> (r: Result<String, CodecError>)
    ensures
        r is Ok <==> token_valid(encode_utf8(encoded_host@)),
        r matches Ok(s) ==>
            strip_filler(encode_utf8(encoded_host@)) == base64_of(encode_utf8(s@)),
        forall|b: Seq<u8>|
            encode_utf8(encoded_host@).len() >= 1
                && strip_filler(encode_utf8(encoded_host@)) == base64_of(b)
                && valid_utf8(b)
                ==> (r matches Ok(s) && s@ == decode_utf8(b)),
{
    decode_token(encoded_host.as_str().as_bytes())
}

/// A sequence of ASCII bytes is valid UTF-8.
proof fn lemma_ascii_valid_utf8(bytes: Seq<u8>)
    requires
        forall|i: int| 0 <= i < bytes.len() ==> bytes[i] < 128,
    ensures
        valid_utf8(bytes),
    decreases bytes.len(),
{
    if bytes.len() > 0 {
        assert(vstd::utf8::valid_first_scalar(bytes));
        assert(vstd::utf8::length_of_first_scalar(bytes) == 1);
        assert(vstd::utf8::pop_first_scalar(bytes) =~= bytes.drop_first());
        lemma_ascii_valid_utf8(bytes.drop_first());
    }
}

} // verus!
