//! Control-channel handshake.
//!
//! The server waits for exactly one text message `"Hello:<version>:<userId>"`
//! per control connection.  It gates the client twice: the reported app
//! version must satisfy the fixed requirement `>=0.1.0`, and the user must
//! stand in the allow-list.  The reply is a single text message: `"Hi:<token>"`
//! on acceptance, `"Bye:<message>"` on rejection; a malformed first message
//! gets no reply at all, the connection is simply closed.  The client mirrors
//! this: it sends the hello, reads one reply, and proceeds only on `"Hi:"`.

use vstd::prelude::*;
use vstd::string::*;

verus! {

/// The outcome of one server-side handshake exchange.  `Malformed` carries
/// no response: the server closes the connection without replying.
pub enum HandshakeReply {
    Accepted { response: String, token: String },
    RejectedVersion { response: String },
    RejectedUser { response: String },
    Malformed,
}

/// The client-side gate: start the local listener, or abort with a reason.
pub enum GateDecision {
    Proceed,
    Abort { reason: String },
}

/// First index of `c` in `s`, or `s.len()` when `c` does not occur.
pub open spec fn find_char(s: Seq<char>, c: char) -> int
    decreases s.len(),
{
    if s.len() == 0 {
        0
    } else if s[0] == c {
        0
    } else {
        1 + find_char(s.drop_first(), c)
    }
}

pub open spec fn hello_prefix() -> Seq<char> {
    seq!['H', 'e', 'l', 'l', 'o', ':']
}

pub open spec fn hi_prefix() -> Seq<char> {
    seq!['H', 'i', ':']
}

pub open spec fn bye_prefix() -> Seq<char> {
    seq!['B', 'y', 'e', ':']
}

/// The fixed version requirement every client must satisfy.
pub open spec fn supported_req() -> Seq<char> {
    ">=0.1.0"@
}

/// The exact rejection sent when the client's version is too old.
pub open spec fn bye_version_response() -> Seq<char> {
    "Bye:The installed version is not supported, please download the latest version from https://github.com/echo-proxy/echo-proxy-core/releases"@
}

/// The exact rejection sent when the user is not in the allow-list.
pub open spec fn bye_user_response() -> Seq<char> {
    "Bye:User not allowed"@
}

/// Parse `"Hello:<version>:<userId>"`: the version is everything between the
/// first and second colon, the user everything between the second and third
/// (or the end).  Text past a third colon is ignored.  `None` when the
/// message does not begin with `"Hello:"` or has no second colon.
pub open spec fn hello_parts(msg: Seq<char>) -> Option<(Seq<char>, Seq<char>)> {
    if msg.len() < 6 || msg.take(6) != hello_prefix() {
        None
    } else {
        let rest = msg.skip(6);
        let i = find_char(rest, ':');
        if i == rest.len() {
            None
        } else {
            let after = rest.skip(i + 1);
            Some((rest.take(i), after.take(find_char(after, ':'))))
        }
    }
}

/// Decimal value of a digit string (most significant digit first).
pub open spec fn dec_val(s: Seq<char>) -> int
    decreases s.len(),
{
    if s.len() == 0 {
        0
    } else {
        dec_val(s.drop_last()) * 10 + (s.last() as int - 48)
    }
}

/// A semver numeric identifier: digits only, no leading zero, fits in `u64`.
pub open spec fn is_numeral(s: Seq<char>) -> bool {
    s.len() > 0 && (forall|i: int| 0 <= i < s.len() ==> '0' <= #[trigger] s[i] <= '9') && (s.len() == 1
        || s[0] != '0') && dec_val(s) <= u64::MAX
}

/// `s` is the plain version `x.y.z` made of the three numerals, with no
/// prerelease and no build metadata.
pub open spec fn plain_version(s: Seq<char>, x: Seq<char>, y: Seq<char>, z: Seq<char>) -> bool {
    is_numeral(x) && is_numeral(y) && is_numeral(z) && s == x + seq!['.'] + y + seq!['.'] + z
}

/// Lexicographic order on version cores: `(ax, ay, az) >= (bx, by, bz)`.
pub open spec fn triple_ge(ax: int, ay: int, az: int, bx: int, by: int, bz: int) -> bool {
    ax > bx || (ax == bx && (ay > by || (ay == by && az >= bz)))
}

/// What the semver gate answers for a requirement string and a version
/// string: `None` when either fails to parse, else whether the version
/// satisfies the requirement.  Left uninterpreted; the wrapper below pins
/// the plain-numeral case down.
pub uninterp spec fn semver_req_match(req: Seq<char>, version: Seq<char>) -> Option<bool>;

/// Relies on `semver::VersionReq::parse`, `semver::Version::parse` and
/// `semver::VersionReq::matches`.  The answer depends on the two strings
/// alone.  For a requirement `">=x.y.z"` and a version `"a.b.c"`, both in
/// plain numerals, the crate parses both and `matches` compares the cores
/// lexicographically (a version without prerelease satisfies `>=` exactly
/// when its core is at least the requirement's core).
#[verifier::external_body]
fn semver_req_matches(req: &str, version: &str) -> (r: Option<bool>)
    ensures
        r == semver_req_match(req@, version@),
        forall|rx: Seq<char>, ry: Seq<char>, rz: Seq<char>, vx: Seq<char>, vy: Seq<char>, vz: Seq<char>|
            #![trigger plain_version(req@.skip(2), rx, ry, rz), plain_version(version@, vx, vy, vz)]
            req@.len() >= 2 && req@.take(2) == seq!['>', '='] && plain_version(
                req@.skip(2),
                rx,
                ry,
                rz,
            ) && plain_version(version@, vx, vy, vz) ==> r == Some(
                triple_ge(
                    dec_val(vx),
                    dec_val(vy),
                    dec_val(vz),
                    dec_val(rx),
                    dec_val(ry),
                    dec_val(rz),
                ),
            ),
{
    let parsed_req = match semver::VersionReq::parse(req) {
        Ok(q) => q,
        Err(_) => return None,
    };
    let parsed_version = match semver::Version::parse(version) {
        Ok(v) => v,
        Err(_) => return None,
    };
    Some(parsed_req.matches(&parsed_version))
}

/// Relies on `uuid::Uuid::new_v4` and its `Display` impl: a fresh random
/// UUID in the 36-character hyphenated form.  The value is random, so only
/// the length is stated.
#[verifier::external_body]
fn fresh_token() -> (r: String)
    ensures
        r@.len() == 36,
{
    uuid::Uuid::new_v4().to_string()
}

/// Basic facts about `find_char`: it lands on the first occurrence.
pub proof fn lemma_find_char(s: Seq<char>, c: char)
    ensures
        0 <= find_char(s, c) <= s.len(),
        find_char(s, c) < s.len() ==> s[find_char(s, c)] == c,
        forall|j: int| 0 <= j < find_char(s, c) ==> s[j] != c,
    decreases s.len(),
{
    if s.len() > 0 && s[0] != c {
        lemma_find_char(s.drop_first(), c);
        assert(forall|j: int|
            0 <= j < find_char(s, c) ==> #[trigger] s[j] == if j == 0 {
                s[0]
            } else {
                s.drop_first()[j - 1]
            });
    }
}

/// `find_char` is pinned by its witnesses: no occurrence before `k`, and an
/// occurrence at `k` (or none at all when `k` is the length).
pub proof fn lemma_find_char_unique(s: Seq<char>, c: char, k: int)
    requires
        0 <= k <= s.len(),
        forall|j: int| 0 <= j < k ==> s[j] != c,
        k < s.len() ==> s[k] == c,
    ensures
        k < s.len() ==> find_char(s, c) == k,
        k == s.len() ==> find_char(s, c) == s.len(),
{
    lemma_find_char(s, c);
}

/// The user stands in the allow-list.
pub open spec fn user_in_list(allowed: Seq<String>, user: Seq<char>) -> bool {
    exists|i: int| 0 <= i < allowed.len() && allowed[i]@ == user
}

/// The version core `(vx, vy, vz)` passes the fixed `>=0.1.0` gate.
pub open spec fn version_core_ok(vx: Seq<char>, vy: Seq<char>, vz: Seq<char>) -> bool {
    triple_ge(dec_val(vx), dec_val(vy), dec_val(vz), 0, 1, 0)
}

/// Whether `msg` begins with the whole of `pat`.
fn str_has_prefix(msg: &str, pat: &str) -> (b: bool)
    ensures
        b == (msg@.len() >= pat@.len() && msg@.take(pat@.len() as int) == pat@),
{
    let plen = pat.unicode_len();
    let mlen = msg.unicode_len();
    if mlen < plen {
        return false;
    }
    let mut i: usize = 0;
    while i < plen
        invariant
            0 <= i <= plen,
            plen == pat@.len(),
            mlen == msg@.len(),
            plen <= mlen,
            forall|j: int| 0 <= j < i ==> msg@[j] == pat@[j],
        decreases plen - i,
    {
        if msg.get_char(i) != pat.get_char(i) {
            proof {
                assert(msg@.take(plen as int)[i as int] != pat@[i as int]);
            }
            return false;
        }
        i += 1;
    }
    proof {
        assert(msg@.take(plen as int) =~= pat@);
    }
    true
}

/// First position of `:` in `msg` at or after `from`, or `len` if none.
fn find_colon(msg: &str, from: usize, len: usize) -> (r: usize)
    requires
        len == msg@.len(),
        from <= len,
    ensures
        from <= r <= len,
        r < len ==> msg@[r as int] == ':',
        forall|j: int| from <= j < r ==> msg@[j] != ':',
    decreases len - from,
{
    let mut i = from;
    while i < len
        invariant
            from <= i <= len,
            len == msg@.len(),
            forall|j: int| from <= j < i ==> msg@[j] != ':',
        decreases len - i,
    {
        if msg.get_char(i) == ':' {
            return i;
        }
        i += 1;
    }
    len
}

/// Run the server side of the handshake on the one text message a control
/// connection brings, against the allow-list.  The version gate is the fixed
/// requirement `>=0.1.0`; the user gate is membership in `allowed`.  The
/// last two clauses pin the version gate down wherever the reported version
/// is a plain numeral triple: below `0.1.0` the reply is always the version
/// rejection, at or above it the version gate never fires.
pub fn handshake_response(msg: &str, allowed: &Vec<String>) -> (r: HandshakeReply)
    ensures
        (match hello_parts(msg@) {
            None => r is Malformed,
            Some(parts) => (match semver_req_match(supported_req(), parts.0) {
                None => r is Malformed,
                Some(false) => r matches HandshakeReply::RejectedVersion { response }
                    && response@ == bye_version_response(),
                Some(true) => if user_in_list(allowed@, parts.1) {
                    r matches HandshakeReply::Accepted { response, token } && token@.len() == 36
                        && response@ == hi_prefix() + token@
                } else {
                    r matches HandshakeReply::RejectedUser { response } && response@
                        == bye_user_response()
                },
            }),
        }),
        forall|vx: Seq<char>, vy: Seq<char>, vz: Seq<char>|
            #![trigger plain_version((hello_parts(msg@)->0).0, vx, vy, vz)]
            hello_parts(msg@) is Some && plain_version((hello_parts(msg@)->0).0, vx, vy, vz)
                && !version_core_ok(vx, vy, vz) ==> r is RejectedVersion,
        forall|vx: Seq<char>, vy: Seq<char>, vz: Seq<char>|
            #![trigger plain_version((hello_parts(msg@)->0).0, vx, vy, vz)]
            hello_parts(msg@) is Some && plain_version((hello_parts(msg@)->0).0, vx, vy, vz)
                && version_core_ok(vx, vy, vz) ==> (r is Accepted || r is RejectedUser),
{
    let len = msg.unicode_len();
    proof {
        reveal_strlit("Hello:");
    }
    if !str_has_prefix(msg, "Hello:") {
        proof {
            if msg@.len() >= 6 {
                assert(msg@.take(6) != hello_prefix()) by {
                    assert("Hello:"@ =~= hello_prefix());
                }
            }
        }
        return HandshakeReply::Malformed;
    }
    proof {
        assert("Hello:"@ =~= hello_prefix());
        assert(msg@.take(6) == hello_prefix());
    }
    let ghost rest = msg@.skip(6);
    let vend = find_colon(msg, 6, len);
    proof {
        assert(forall|j: int| 0 <= j < rest.len() ==> rest[j] == msg@[j + 6]);
        lemma_find_char_unique(rest, ':', vend - 6);
    }
    if vend == len {
        return HandshakeReply::Malformed;
    }
    let version_str = msg.substring_char(6, vend);
    let uend = find_colon(msg, vend + 1, len);
    let user_str = msg.substring_char(vend + 1, uend);
    let ghost after = rest.skip(vend - 6 + 1);
    proof {
        assert(version_str@ =~= rest.take(vend - 6));
        assert(forall|j: int| 0 <= j < after.len() ==> after[j] == msg@[j + vend + 1]);
        lemma_find_char_unique(after, ':', uend - (vend + 1));
        assert(user_str@ =~= after.take(find_char(after, ':')));
        assert(hello_parts(msg@) == Some((version_str@, user_str@)));
    }
    let gate = semver_req_matches(">=0.1.0", version_str);
    proof {
        reveal_strlit(">=0.1.0");
        assert(">=0.1.0"@ == supported_req());
        let rxs = seq!['0'];
        let rys = seq!['1'];
        let rzs = seq!['0'];
        assert(dec_val(Seq::<char>::empty()) == 0);
        assert(rxs.drop_last() =~= Seq::<char>::empty());
        assert(rys.drop_last() =~= Seq::<char>::empty());
        assert(dec_val(rxs) == 0);
        assert(dec_val(rys) == 1);
        assert(is_numeral(rxs));
        assert(is_numeral(rys));
        assert(supported_req().take(2) =~= seq!['>', '=']);
        assert(supported_req().skip(2) =~= rxs + seq!['.'] + rys + seq!['.'] + rzs);
        assert forall|vx: Seq<char>, vy: Seq<char>, vz: Seq<char>|
            plain_version(version_str@, vx, vy, vz) implies gate == Some(
            triple_ge(dec_val(vx), dec_val(vy), dec_val(vz), 0, 1, 0),
        ) by {
            assert(plain_version(supported_req().skip(2), rxs, rys, rzs));
        }
    }
    match gate {
        None => HandshakeReply::Malformed,
        Some(false) => HandshakeReply::RejectedVersion {
            response: String::from_str(
                "Bye:The installed version is not supported, please download the latest version from https://github.com/echo-proxy/echo-proxy-core/releases",
            ),
        },
        Some(true) => {
            let user_string = String::from_str(user_str);
            let mut found = false;
            let mut k: usize = 0;
            while k < allowed.len()
                invariant
                    0 <= k <= allowed.len(),
                    user_string@ == user_str@,
                    found == exists|j: int| 0 <= j < k && allowed@[j]@ == user_str@,
                decreases allowed.len() - k,
            {
                if !found && user_string.eq(&allowed[k]) {
                    found = true;
                }
                k += 1;
            }
            if found {
                let token = fresh_token();
                let mut response = String::from_str("Hi:");
                proof {
                    reveal_strlit("Hi:");
                    assert("Hi:"@ =~= hi_prefix());
                }
                response.append(token.as_str());
                HandshakeReply::Accepted { response, token }
            } else {
                HandshakeReply::RejectedUser { response: String::from_str("Bye:User not allowed") }
            }
        },
    }
}

/// Wire agreement between the two ends: the message `hello_message` builds
/// for any colon-free version and user parses back, through `hello_parts`,
/// to exactly that version and user on the server side.
pub proof fn lemma_hello_round_trip(version: Seq<char>, user: Seq<char>)
    requires
        forall|i: int| 0 <= i < version.len() ==> version[i] != ':',
        forall|i: int| 0 <= i < user.len() ==> user[i] != ':',
    ensures
        hello_parts(hello_prefix() + version + seq![':'] + user) == Some((version, user)),
{
    let msg = hello_prefix() + version + seq![':'] + user;
    assert(msg.take(6) =~= hello_prefix());
    let rest = msg.skip(6);
    assert(rest =~= version + seq![':'] + user);
    lemma_find_char_unique(rest, ':', version.len() as int);
    assert(rest.take(version.len() as int) =~= version);
    let after = rest.skip(version.len() as int + 1);
    assert(after =~= user);
    lemma_find_char_unique(after, ':', user.len() as int);
    assert(after.take(user.len() as int) =~= user);
}

/// The legacy version `0.0.9` is a plain numeral triple whose core lies
/// below the requirement: by the contract of `handshake_response`, any hello
/// reporting it is answered with the version rejection, never with `Hi:`.
pub proof fn lemma_legacy_version_below_gate()
    ensures
        plain_version("0.0.9"@, seq!['0'], seq!['0'], seq!['9']),
        !version_core_ok(seq!['0'], seq!['0'], seq!['9']),
{
    reveal_strlit("0.0.9");
    assert(dec_val(Seq::<char>::empty()) == 0);
    assert(seq!['0'].drop_last() =~= Seq::<char>::empty());
    assert(seq!['9'].drop_last() =~= Seq::<char>::empty());
    assert(dec_val(seq!['0']) == 0);
    assert(dec_val(seq!['9']) == 9);
    assert(is_numeral(seq!['0']));
    assert(is_numeral(seq!['9']));
    assert("0.0.9"@ =~= seq!['0'] + seq!['.'] + seq!['0'] + seq!['.'] + seq!['9']);
}

/// What remains of a rejection once a leading `"Bye:"` is stripped.
pub open spec fn strip_bye(s: Seq<char>) -> Seq<char> {
    if s.len() >= 4 && s.take(4) == bye_prefix() {
        s.skip(4)
    } else {
        s
    }
}

/// Run the client-side check on the one reply the server sent: any
/// text starting with `"Hi:"` passes; anything else aborts startup, with a
/// leading `"Bye:"` stripped off the reported reason.  A non-text reply or a
/// transport failure never reaches this point: the caller aborts on its own.
pub fn interpret_server_reply(msg: &str) -> (r: GateDecision)
    ensures
        (msg@.len() >= 3 && msg@.take(3) == hi_prefix()) ==> r is Proceed,
        !(msg@.len() >= 3 && msg@.take(3) == hi_prefix()) ==> (r matches GateDecision::Abort {
            reason,
        } && reason@ == strip_bye(msg@)),
{
    proof {
        reveal_strlit("Hi:");
        reveal_strlit("Bye:");
        assert("Hi:"@ =~= hi_prefix());
        assert("Bye:"@ =~= bye_prefix());
    }
    if str_has_prefix(msg, "Hi:") {
        return GateDecision::Proceed;
    }
    let len = msg.unicode_len();
    if str_has_prefix(msg, "Bye:") {
        let reason = msg.substring_char(4, len);
        proof {
            assert(reason@ =~= strip_bye(msg@));
        }
        GateDecision::Abort { reason: String::from_str(reason) }
    } else {
        GateDecision::Abort { reason: String::from_str(msg) }
    }
}

/// Build the client's opening message `"Hello:<version>:<userId>"`.
pub fn hello_message(version: &str, user: &str) -> (r: String)
    ensures
        r@ == hello_prefix() + version@ + seq![':'] + user@,
{
    proof {
        reveal_strlit("Hello:");
        reveal_strlit(":");
        assert("Hello:"@ =~= hello_prefix());
        assert(":"@ =~= seq![':']);
    }
    let mut s = String::from_str("Hello:");
    s.append(version);
    s.append(":");
    s.append(user);
    s
}

} // verus!
