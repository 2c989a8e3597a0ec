//! Server-side routing of an accepted WebSocket connection.
//!
//! A connection whose request path ends in `control` is a control-channel
//! handshake.  Any other connection is a data tunnel: it must carry an
//! `X-Token` header (its value is accepted unconditionally when present — a
//! known gap, the token issued by the control channel is never matched
//! against it), and its query string names the obfuscated target.  The
//! query is read the way the reference endpoint writes it: every `q=`
//! substring is dropped, and what remains is decoded as a host token.

use crate::bytes::find_byte;
use crate::codec::{base64_of, decode_token, strip_filler, token_valid, CodecError};
use vstd::prelude::*;
use vstd::utf8::{decode_utf8, encode_utf8, valid_utf8};

verus! {

/// What the server does with an accepted connection.
pub enum Route {
    /// Run the control-channel handshake.
    Control,
    /// Open a TCP connection to this host and splice.
    Tunnel { host: String },
    /// No `X-Token` header: refuse the handshake with `403 Forbidden`.
    Forbidden,
    /// The query names no decodable host: refuse instead of aborting.
    InvalidHost,
}

pub open spec fn control_suffix() -> Seq<u8> {
    seq!['c' as u8, 'o' as u8, 'n' as u8, 't' as u8, 'r' as u8, 'o' as u8, 'l' as u8]
}

/// Whether the request path asks for the control channel.
pub open spec fn is_control_path(path: Seq<u8>) -> bool {
    path.len() >= 7 && path.skip(path.len() - 7) == control_suffix()
}

/// The query string with every `q=` pair of bytes removed, scanned left to
/// right.
pub open spec fn strip_q(s: Seq<u8>) -> Seq<u8>
    decreases s.len(),
{
    if s.len() >= 2 && s[0] == 'q' as u8 && s[1] == '=' as u8 {
        strip_q(s.skip(2))
    } else if s.len() == 0 {
        s
    } else {
        seq![s[0]] + strip_q(s.drop_first())
    }
}

/// Decide the route for an accepted connection from its request path, its
/// query string and whether an `X-Token` header was present.  The control
/// path needs no token; a tunnel without a token is `Forbidden`; a tunnel
/// whose query decodes to no host is `InvalidHost`, and otherwise the
/// decoded target comes back in `Tunnel`.
pub fn route_request(path: &str, query: &str, has_token: bool) -> (r: Route)
    ensures
        is_control_path(encode_utf8(path@)) ==> r is Control,
        !is_control_path(encode_utf8(path@)) && !has_token ==> r is Forbidden,
        !is_control_path(encode_utf8(path@)) && has_token ==> {
            let t = strip_q(encode_utf8(query@));
            (r is Tunnel <==> token_valid(t)) && (!token_valid(t) ==> r is InvalidHost) && (
            r matches Route::Tunnel { host } ==> strip_filler(t) == base64_of(
                encode_utf8(host@),
            ))
        },
        forall|b: Seq<u8>|
            !is_control_path(encode_utf8(path@)) && has_token && strip_q(
                encode_utf8(query@),
            ).len() >= 1 && strip_filler(strip_q(encode_utf8(query@))) == base64_of(b)
                && valid_utf8(b) ==> (r matches Route::Tunnel { host } && host@ == decode_utf8(
                b,
            )),
{
    let pb = path.as_bytes();
    if ends_with_control(pb) {
        return Route::Control;
    }
    if !has_token {
        return Route::Forbidden;
    }
    let stripped = strip_q_bytes(query.as_bytes());
    match decode_token(stripped.as_slice()) {
        Ok(host) => Route::Tunnel { host },
        Err(CodecError::InvalidHostEncoding) => Route::InvalidHost,
    }
}

/// Whether the path's last seven bytes read `control`.
fn ends_with_control(path: &[u8]) -> (r: bool)
    ensures
        r == is_control_path(path@),
{
    let pat: Vec<u8> = vec![
        'c' as u8,
        'o' as u8,
        'n' as u8,
        't' as u8,
        'r' as u8,
        'o' as u8,
        'l' as u8,
    ];
    proof {
        assert(pat@ =~= control_suffix());
    }
    let n = path.len();
    if n < 7 {
        return false;
    }
    let r = crate::bytes::bytes_match_at(path, n - 7, &pat);
    proof {
        assert(path@.skip(n - 7) =~= path@.subrange(n - 7, n as int));
    }
    r
}

/// Remove every `q=` byte pair from `s`, scanning left to right.
fn strip_q_bytes(s: &[u8]) -> (out: Vec<u8>)
    ensures
        out@ == strip_q(s@),
{
    let len = s.len();
    let mut out: Vec<u8> = Vec::new();
    let mut i: usize = 0;
    proof {
        assert(s@.skip(0) =~= s@);
        assert(out@ + strip_q(s@) =~= strip_q(s@));
    }
    while i < len
        invariant
            0 <= i <= len,
            len == s@.len(),
            strip_q(s@) =~= out@ + strip_q(s@.skip(i as int)),
        decreases len - i,
    {
        if i + 1 < len && s[i] == 113 && s[i + 1] == 61 {
            proof {
                assert(s@.skip(i as int).skip(2) =~= s@.skip(i + 2));
            }
            i += 2;
        } else {
            proof {
                assert(s@.skip(i as int).drop_first() =~= s@.skip(i + 1));
                assert(s@.skip(i as int)[0] == s@[i as int]);
            }
            out.push(s[i]);
            i += 1;
        }
    }
    proof {
        assert(s@.skip(len as int) =~= Seq::<u8>::empty());
        assert(out@ =~= strip_q(s@));
    }
    out
}

} // verus!
