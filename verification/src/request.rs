//! Request splitter.
//!
//! An accepted local connection hands the proxy a raw HTTP request head:
//! lines up to and including the first empty (`"\r\n"`) line.  While
//! scanning, the last `Host: ` line gives the target host (with `:80`
//! appended when it names no port), and the last `Content-Length` line gives
//! the body length (`0` when absent or unparsable, by design: a malformed
//! length degrades to "no body" rather than failing the request).  A head
//! whose first line starts with `"CONNECT "` asks for CONNECT-mode
//! tunnelling; anything else is relayed as plain HTTP.

use crate::bytes::{bytes_match_at, find_byte, find_byte_range, lemma_find_byte_unique};
use vstd::prelude::*;
use vstd::slice::slice_to_vec;
use vstd::string::*;
use vstd::utf8::encode_utf8;

verus! {

/// A parsed request head: target host, the raw header block, and the body.
pub struct ParsedRequest {
    pub host: Vec<u8>,
    pub headers: Vec<u8>,
    pub body: Vec<u8>,
}

/// How a parsed request asks to be tunnelled.
pub enum TunnelPlan {
    /// CONNECT mode: write this exact response to the local peer first,
    /// then splice bytes both ways with no further framing.
    Connect { local_response: Vec<u8> },
    /// Plain-HTTP mode: send these opening binary messages (the raw header
    /// block, then the body if non-empty), then relay only the
    /// WebSocket-to-stream direction.
    PlainHttp { opening: Vec<Vec<u8>> },
}

pub open spec fn crlf() -> Seq<u8> {
    seq![13u8, 10u8]
}

pub open spec fn host_prefix() -> Seq<u8> {
    seq!['H' as u8, 'o' as u8, 's' as u8, 't' as u8, ':' as u8, ' ' as u8]
}

pub open spec fn clen_prefix() -> Seq<u8> {
    seq![
        'C' as u8,
        'o' as u8,
        'n' as u8,
        't' as u8,
        'e' as u8,
        'n' as u8,
        't' as u8,
        '-' as u8,
        'L' as u8,
        'e' as u8,
        'n' as u8,
        'g' as u8,
        't' as u8,
        'h' as u8,
    ]
}

pub open spec fn connect_prefix() -> Seq<u8> {
    seq!['C' as u8, 'O' as u8, 'N' as u8, 'N' as u8, 'E' as u8, 'C' as u8, 'T' as u8, ' ' as u8]
}

/// One past the first `\n` at or after `from`, or `s.len()` when no newline
/// follows: where the line that starts at `from` ends.
pub open spec fn line_end(s: Seq<u8>, from: int) -> int
    decreases s.len() - from,
{
    if from < 0 || from >= s.len() {
        s.len() as int
    } else if s[from] == 10 {
        from + 1
    } else {
        line_end(s, from + 1)
    }
}

/// `line_end` is pinned by its witnesses: no newline before `r`, and one at
/// `r` (or none at all when `r` is the length).
pub proof fn lemma_line_end_unique(s: Seq<u8>, from: int, r: int)
    requires
        0 <= from <= r <= s.len(),
        forall|j: int| from <= j < r ==> s[j] != 10,
        r < s.len() ==> s[r] == 10,
    ensures
        line_end(s, from) == if r < s.len() {
            r + 1
        } else {
            s.len() as int
        },
    decreases r - from,
{
    if from < r {
        lemma_line_end_unique(s, from + 1, r);
    }
}

/// The value with every trailing `\r\n` pair removed.
pub open spec fn strip_crlf_end(v: Seq<u8>) -> Seq<u8>
    decreases v.len(),
{
    if v.len() >= 2 && v[v.len() - 1] == 10 && v[v.len() - 2] == 13 {
        strip_crlf_end(v.take(v.len() - 2))
    } else {
        v
    }
}

pub open spec fn contains_byte(v: Seq<u8>, b: u8) -> bool {
    exists|i: int| 0 <= i < v.len() && v[i] == b
}

/// A header line that names the target host.
pub open spec fn is_host_line(line: Seq<u8>) -> bool {
    line.len() >= 6 && line.take(6) == host_prefix()
}

/// The host a `Host: ` line carries: the value with the line ending
/// stripped, and `:80` appended when it names no port.
pub open spec fn host_of_line(line: Seq<u8>) -> Seq<u8> {
    let v = strip_crlf_end(line.skip(6));
    if contains_byte(v, ':' as u8) {
        v
    } else {
        v + seq![':' as u8, '8' as u8, '0' as u8]
    }
}

/// A header line that names the body length.
pub open spec fn is_clen_line(line: Seq<u8>) -> bool {
    line.len() >= 14 && line.take(14) == clen_prefix()
}

/// ASCII whitespace, as trimmed around the length value.
pub open spec fn is_ws_byte(b: u8) -> bool {
    b == 32 || b == 9 || b == 10 || b == 11 || b == 12 || b == 13
}

pub open spec fn trim_start_ws(v: Seq<u8>) -> Seq<u8>
    decreases v.len(),
{
    if v.len() > 0 && is_ws_byte(v[0]) {
        trim_start_ws(v.drop_first())
    } else {
        v
    }
}

pub open spec fn trim_end_ws(v: Seq<u8>) -> Seq<u8>
    decreases v.len(),
{
    if v.len() > 0 && is_ws_byte(v.last()) {
        trim_end_ws(v.drop_last())
    } else {
        v
    }
}

pub open spec fn trim_ws(v: Seq<u8>) -> Seq<u8> {
    trim_end_ws(trim_start_ws(v))
}

pub open spec fn is_digit_byte(b: u8) -> bool {
    48 <= b <= 57
}

pub open spec fn is_dec_digits(d: Seq<u8>) -> bool {
    d.len() > 0 && forall|i: int| 0 <= i < d.len() ==> is_digit_byte(#[trigger] d[i])
}

/// Decimal value of a digit byte string (most significant digit first).
pub open spec fn dec_val_bytes(s: Seq<u8>) -> int
    decreases s.len(),
{
    if s.len() == 0 {
        0
    } else {
        dec_val_bytes(s.drop_last()) * 10 + ((s.last() as int) - 48)
    }
}

/// How the length value is read: trimmed of ASCII whitespace, an optional
/// leading `+`, then decimal digits that fit a `usize`; anything else is 0.
pub open spec fn spec_parse_usize(v: Seq<u8>) -> int {
    let t = trim_ws(v);
    let d = if t.len() >= 1 && t[0] == '+' as u8 {
        t.drop_first()
    } else {
        t
    };
    if is_dec_digits(d) && dec_val_bytes(d) <= usize::MAX as int {
        dec_val_bytes(d)
    } else {
        0
    }
}

/// The length a `Content-Length` line carries: the text between the first
/// colon and the next colon (or the line end), read as above.
pub open spec fn clen_of_line(line: Seq<u8>) -> int {
    let p = find_byte(line, ':' as u8);
    if p == line.len() {
        0
    } else {
        let tail = line.skip(p + 1);
        spec_parse_usize(tail.take(find_byte(tail, ':' as u8)))
    }
}

proof fn lemma_dec_val_bytes_nonneg(s: Seq<u8>)
    requires
        forall|i: int| 0 <= i < s.len() ==> is_digit_byte(#[trigger] s[i]),
    ensures
        dec_val_bytes(s) >= 0,
    decreases s.len(),
{
    if s.len() > 0 {
        lemma_dec_val_bytes_nonneg(s.drop_last());
    }
}

/// A digit string is worth at least any of its prefixes.
proof fn lemma_dec_val_bytes_monotone(s: Seq<u8>, k: int)
    requires
        0 <= k <= s.len(),
        forall|i: int| 0 <= i < s.len() ==> is_digit_byte(#[trigger] s[i]),
    ensures
        dec_val_bytes(s) >= dec_val_bytes(s.take(k)),
    decreases s.len(),
{
    if k == s.len() {
        assert(s.take(k) =~= s);
    } else {
        lemma_dec_val_bytes_nonneg(s.drop_last());
        assert(s.drop_last().take(k) =~= s.take(k));
        lemma_dec_val_bytes_monotone(s.drop_last(), k);
    }
}

/// The head scan, line by line from `from`, carrying the host and length
/// seen so far: `Some((end, host, len))` when a blank line closes the head
/// at `end`, `None` when the input runs out first.
pub open spec fn scan_head(s: Seq<u8>, from: int, host: Seq<u8>, clen: int) -> Option<
    (int, Seq<u8>, int),
>
    decreases s.len() - from,
{
    if from < 0 || from >= s.len() {
        None
    } else {
        let e = line_end(s, from);
        let line = s.subrange(from, e);
        if line == crlf() {
            Some((e, host, clen))
        } else if e <= from || e > s.len() {
            // line_end never answers this; the guard keeps the recursion
            // visibly well-founded
            None
        } else {
            scan_head(
                s,
                e,
                if is_host_line(line) {
                    host_of_line(line)
                } else {
                    host
                },
                if is_clen_line(line) {
                    clen_of_line(line)
                } else {
                    clen
                },
            )
        }
    }
}

/// The whole head of `s`: scan from the start with no host and length 0.
pub open spec fn parsed_head(s: Seq<u8>) -> Option<(int, Seq<u8>, int)> {
    scan_head(s, 0, seq![], 0)
}

pub open spec fn head_end(s: Seq<u8>) -> int
    recommends
        parsed_head(s) is Some,
{
    (parsed_head(s)->0).0
}

pub open spec fn head_host(s: Seq<u8>) -> Seq<u8>
    recommends
        parsed_head(s) is Some,
{
    (parsed_head(s)->0).1
}

pub open spec fn head_clen(s: Seq<u8>) -> int
    recommends
        parsed_head(s) is Some,
{
    (parsed_head(s)->0).2
}

/// The input holds a complete request: a closed head and a full body.
pub open spec fn request_parses(s: Seq<u8>) -> bool {
    parsed_head(s) is Some && head_end(s) + head_clen(s) <= s.len()
}

/// The head asks for CONNECT-mode tunnelling.
pub open spec fn is_connect_head(h: Seq<u8>) -> bool {
    h.len() >= 8 && h.take(8) == connect_prefix()
}

/// The exact response a CONNECT-mode client is owed before any tunnelled
/// byte.
pub open spec fn established_response() -> Seq<u8> {
    encode_utf8("HTTP/1.1 200 Connection established\r\n\r\n"@)
}

fn ws_byte(b: u8) -> (r: bool)
    ensures
        r == is_ws_byte(b),
{
    b == 32 || b == 9 || b == 10 || b == 11 || b == 12 || b == 13
}

/// Read the length value standing in `input[a..b]`.
fn parse_clen_value(input: &[u8], a: usize, b: usize) -> (r: usize)
    requires
        a <= b <= input@.len(),
    ensures
        r == spec_parse_usize(input@.subrange(a as int, b as int)),
{
    let ghost v = input@.subrange(a as int, b as int);
    let mut a2 = a;
    let mut b2 = b;
    while a2 < b2 && ws_byte(input[a2])
        invariant
            a <= a2 <= b2 <= input@.len(),
            b2 == b,
            trim_start_ws(v) == trim_start_ws(input@.subrange(a2 as int, b as int)),
        decreases b2 - a2,
    {
        proof {
            assert(input@.subrange(a2 as int, b as int).drop_first() =~= input@.subrange(
                a2 + 1,
                b as int,
            ));
        }
        a2 += 1;
    }
    proof {
        assert(trim_start_ws(v) == input@.subrange(a2 as int, b as int));
    }
    while b2 > a2 && ws_byte(input[b2 - 1])
        invariant
            a2 <= b2 <= b <= input@.len(),
            trim_ws(v) == trim_end_ws(input@.subrange(a2 as int, b2 as int)),
        decreases b2 - a2,
    {
        proof {
            assert(input@.subrange(a2 as int, b2 as int).drop_last() =~= input@.subrange(
                a2 as int,
                b2 - 1,
            ));
        }
        b2 -= 1;
    }
    let ghost t = input@.subrange(a2 as int, b2 as int);
    proof {
        assert(trim_ws(v) == t);
    }
    let d_lo = if a2 < b2 && input[a2] == 43 {
        a2 + 1
    } else {
        a2
    };
    let ghost d = input@.subrange(d_lo as int, b2 as int);
    proof {
        if a2 < b2 && input@[a2 as int] == 43 {
            assert(t.drop_first() =~= d);
        }
    }
    if d_lo == b2 {
        return 0;
    }
    let mut acc: u128 = 0;
    let mut i = d_lo;
    let mut ok = true;
    while i < b2 && ok
        invariant
            d_lo <= i <= b2 <= input@.len(),
            d_lo < b2,
            d == input@.subrange(d_lo as int, b2 as int),
            spec_parse_usize(v) == if is_dec_digits(d) && dec_val_bytes(d) <= usize::MAX as int {
                dec_val_bytes(d)
            } else {
                0
            },
            ok ==> acc as int == dec_val_bytes(d.take(i - d_lo)) && acc <= usize::MAX as u128,
            ok ==> forall|j: int| 0 <= j < i - d_lo ==> is_digit_byte(#[trigger] d[j]),
            !ok ==> spec_parse_usize(v) == 0,
        decreases b2 - i,
    {
        let c = input[i];
        if c < 48 || 57 < c {
            proof {
                assert(d[i - d_lo] == c);
                assert(!is_dec_digits(d));
            }
            ok = false;
        } else {
            let newacc = acc * 10 + ((c - 48) as u128);
            proof {
                assert(d.take(i - d_lo + 1).drop_last() =~= d.take(i - d_lo));
                assert(d.take(i - d_lo + 1).last() == c);
                assert(newacc as int == dec_val_bytes(d.take(i - d_lo + 1)));
            }
            if newacc > usize::MAX as u128 {
                proof {
                    if is_dec_digits(d) {
                        lemma_dec_val_bytes_monotone(d, i - d_lo + 1);
                    }
                }
                ok = false;
            } else {
                acc = newacc;
            }
        }
        i += 1;
    }
    if ok {
        proof {
            assert(d.take(b2 - d_lo) =~= d);
            assert(is_dec_digits(d));
        }
        acc as usize
    } else {
        0
    }
}

/// Parse a raw request: scan header lines to the first blank line, then take
/// exactly the announced body.  `None` when the input does not yet hold a
/// complete request; callers that read incrementally simply read on.
pub fn parse_request_header(input: &[u8]) -> (r: Option<ParsedRequest>)
    ensures
        r is Some <==> request_parses(input@),
        r matches Some(p) ==> parsed_head(input@) is Some && p.host@ == head_host(input@)
            && p.headers@ == input@.take(head_end(input@)) && p.body@ == input@.subrange(
            head_end(input@),
            head_end(input@) + head_clen(input@),
        ),
{
    let len = input.len();
    let host_pat: Vec<u8> = vec![
        'H' as u8,
        'o' as u8,
        's' as u8,
        't' as u8,
        ':' as u8,
        ' ' as u8,
    ];
    let clen_pat: Vec<u8> = vec![
        'C' as u8,
        'o' as u8,
        'n' as u8,
        't' as u8,
        'e' as u8,
        'n' as u8,
        't' as u8,
        '-' as u8,
        'L' as u8,
        'e' as u8,
        'n' as u8,
        'g' as u8,
        't' as u8,
        'h' as u8,
    ];
    proof {
        assert(host_pat@ =~= host_prefix());
        assert(clen_pat@ =~= clen_prefix());
    }
    let mut from: usize = 0;
    let mut host: Vec<u8> = Vec::new();
    let mut clen: usize = 0;
    loop
        invariant
            0 <= from <= len,
            len == input@.len(),
            host_pat@ == host_prefix(),
            clen_pat@ == clen_prefix(),
            parsed_head(input@) == scan_head(input@, from as int, host@, clen as int),
        decreases len - from,
    {
        if from >= len {
            return None;
        }
        let nl = find_byte_range(input, from, len, 10);
        let e = if nl < len {
            nl + 1
        } else {
            len
        };
        proof {
            lemma_line_end_unique(input@, from as int, nl as int);
            assert(e as int == line_end(input@, from as int));
        }
        let ghost line = input@.subrange(from as int, e as int);
        if e - from == 2 && input[from] == 13 && input[from + 1] == 10 {
            proof {
                assert(line =~= crlf());
                assert(parsed_head(input@) == Some((e as int, host@, clen as int)));
            }
            if clen > len - e {
                return None;
            }
            let headers = slice_to_vec(&input[0..e]);
            let body = slice_to_vec(&input[e..e + clen]);
            proof {
                assert(headers@ =~= input@.take(head_end(input@)));
                assert(body@ =~= input@.subrange(
                    head_end(input@),
                    head_end(input@) + head_clen(input@),
                ));
            }
            return Some(ParsedRequest { host, headers, body });
        }
        proof {
            if line.len() == 2 {
                assert(line[0] == input@[from as int]);
                assert(line[1] == input@[from as int + 1]);
                assert(line != crlf());
            } else {
                assert(line.len() != crlf().len());
                assert(line != crlf());
            }
        }
        let ghost old_host = host@;
        let ghost old_clen = clen as int;
        if e - from >= 6 && bytes_match_at(input, from, &host_pat) {
            proof {
                assert(line.take(6) =~= input@.subrange(from as int, from + 6));
                assert(is_host_line(line));
            }
            let vstart = from + 6;
            let mut end2 = e;
            proof {
                assert(line.skip(6) =~= input@.subrange(vstart as int, e as int));
            }
            while end2 - vstart >= 2 && input[end2 - 1] == 10 && input[end2 - 2] == 13
                invariant
                    vstart <= end2 <= e <= input@.len(),
                    strip_crlf_end(line.skip(6)) == strip_crlf_end(
                        input@.subrange(vstart as int, end2 as int),
                    ),
                decreases end2 - vstart,
            {
                proof {
                    assert(input@.subrange(vstart as int, end2 as int).take(end2 - vstart - 2)
                        =~= input@.subrange(vstart as int, end2 - 2));
                }
                end2 -= 2;
            }
            let ghost vh = input@.subrange(vstart as int, end2 as int);
            proof {
                assert(strip_crlf_end(line.skip(6)) == vh);
            }
            let colon = find_byte_range(input, vstart, end2, 58);
            host = slice_to_vec(&input[vstart..end2]);
            if colon == end2 {
                proof {
                    assert(!contains_byte(vh, ':' as u8));
                }
                host.push(58);
                host.push(56);
                host.push(48);
                proof {
                    assert(host@ =~= host_of_line(line));
                }
            } else {
                proof {
                    assert(vh[colon - vstart] == ':' as u8);
                    assert(contains_byte(vh, ':' as u8));
                    assert(host@ =~= host_of_line(line));
                }
            }
        } else {
            proof {
                if line.len() >= 6 {
                    assert(line.take(6) =~= input@.subrange(from as int, from + 6));
                }
                assert(!is_host_line(line));
            }
        }
        if e - from >= 14 && bytes_match_at(input, from, &clen_pat) {
            proof {
                assert(line.take(14) =~= input@.subrange(from as int, from + 14));
                assert(is_clen_line(line));
            }
            let p = find_byte_range(input, from, e, 58);
            proof {
                assert(forall|j: int| 0 <= j < p - from ==> line[j] == input@[from + j]);
                lemma_find_byte_unique(line, 58, p - from);
            }
            if p == e {
                clen = 0;
                proof {
                    assert(clen_of_line(line) == 0);
                }
            } else {
                let q = find_byte_range(input, p + 1, e, 58);
                let ghost tail = line.skip(p - from + 1);
                proof {
                    assert(forall|j: int|
                        0 <= j < tail.len() ==> tail[j] == input@[p + 1 + j]);
                    lemma_find_byte_unique(tail, 58, q - (p + 1));
                    assert(tail.take(q - (p + 1)) =~= input@.subrange(p + 1, q as int));
                }
                clen = parse_clen_value(input, p + 1, q);
                proof {
                    assert(clen as int == clen_of_line(line));
                }
            }
        } else {
            proof {
                if line.len() >= 14 {
                    assert(line.take(14) =~= input@.subrange(from as int, from + 14));
                }
                assert(!is_clen_line(line));
            }
        }
        proof {
            assert(scan_head(input@, from as int, old_host, old_clen) == scan_head(
                input@,
                e as int,
                host@,
                clen as int,
            ));
        }
        from = e;
    }
}

/// Whether a raw header block asks for CONNECT-mode tunnelling.
pub fn is_connect_request(headers: &[u8]) -> (r: bool)
    ensures
        r == is_connect_head(headers@),
{
    let pat: Vec<u8> = vec![
        'C' as u8,
        'O' as u8,
        'N' as u8,
        'N' as u8,
        'E' as u8,
        'C' as u8,
        'T' as u8,
        ' ' as u8,
    ];
    proof {
        assert(pat@ =~= connect_prefix());
    }
    let r = bytes_match_at(headers, 0, &pat);
    proof {
        if headers@.len() >= 8 {
            assert(headers@.take(8) =~= headers@.subrange(0, 8));
        }
    }
    r
}

/// The exact bytes a CONNECT-mode client writes to its local peer before
/// any tunnelled payload.
pub fn connect_established_response() -> (r: Vec<u8>)
    ensures
        r@ == established_response(),
{
    "HTTP/1.1 200 Connection established\r\n\r\n".as_bytes_vec()
}

/// Decide how a parsed request is tunnelled.  A CONNECT head owes the local
/// peer the literal established-response before anything else; any other
/// head opens with the raw header block as one binary message, followed by
/// the body as a second message only when it is non-empty.
pub fn plan_tunnel(headers: Vec<u8>, body: Vec<u8>) -> (r: TunnelPlan)
    ensures
        is_connect_head(headers@) ==> (r matches TunnelPlan::Connect { local_response }
            && local_response@ == established_response()),
        !is_connect_head(headers@) ==> (r matches TunnelPlan::PlainHttp { opening }
            && opening@.len() >= 1 && opening@[0]@ == headers@ && (body@.len() == 0
            ==> opening@.len() == 1) && (body@.len() > 0 ==> opening@.len() == 2 && opening@[1]@
            == body@)),
{
    if is_connect_request(headers.as_slice()) {
        TunnelPlan::Connect { local_response: connect_established_response() }
    } else {
        let nonempty = body.len() > 0;
        let mut opening: Vec<Vec<u8>> = Vec::new();
        opening.push(headers);
        if nonempty {
            opening.push(body);
        }
        TunnelPlan::PlainHttp { opening }
    }
}

} // verus!
