//! The HTTP side of the WebSocket backhaul: HTTP digest authentication (RFC 2617) of the
//! endpoint discovery request, the Basic authorization of the upgrade request, reading the
//! discovery answer, and the heartbeat of the WebSocket connection. Texts are handled as bytes; the application turns them into
//! strings.
use base64::Engine;
use vstd::prelude::*;
use vstd::string::{StrSliceExecFns, StringSliceAdditionalSpecFns};

use crate::chars::{
    find_char, first_char_index, lowercase_str, lowercased, split_chars, str_eq, trim_str, trimmed, unquote_str,
    unquoted,
};
use crate::text::{append, ascii_to_string};
use crate::text_ops::{contains_bytes, find_byte, find_bytes, find_sub, first_index, lower, lower_bytes, occurs_at, trim, trim_bytes};

verus! {

/// The MD5 digest (16 bytes) of a byte string.
pub uninterp spec fn md5_digest(input: Seq<u8>) -> Seq<u8>;

/// `md5::compute`: the 16-byte MD5 digest of the input, which depends only on the input.
#[verifier::external_body]
fn md5_compute(input: &[u8]) -> (r: Vec<u8>)
    ensures
        r@ == md5_digest(input@),
        r@.len() == 16,
{
    md5::compute(input).0.to_vec()
}

/// `std::time::SystemTime`, carried through opaquely.
#[verifier::external_type_specification]
#[verifier::external_body]
pub struct ExSystemTime(std::time::SystemTime);

/// `SystemTime::now`: the current time; nothing is known of it.
#[verifier::external_body]
fn system_now() -> std::time::SystemTime {
    std::time::SystemTime::now()
}

/// `SystemTime::duration_since(UNIX_EPOCH)`: the time since the epoch, none for a time
/// before it; nothing more is known of it.
#[verifier::external_body]
fn since_unix_epoch(t: std::time::SystemTime) -> Option<std::time::Duration> {
    t.duration_since(std::time::UNIX_EPOCH).ok()
}

/// `Duration::subsec_nanos`: the nanoseconds of the duration's last second, below one
/// billion.
#[verifier::external_body]
fn duration_subsec_nanos(d: std::time::Duration) -> (r: u32)
    ensures
        r < 1_000_000_000,
{
    d.subsec_nanos()
}

/// The nanoseconds of the current second of the wall clock (zero before the epoch).
fn now_subsec_nanos() -> (r: u32)
    ensures
        r < 1_000_000_000,
{
    match since_unix_epoch(system_now()) {
        Some(d) => duration_subsec_nanos(d),
        None => 0,
    }
}

/// Lowercase hexadecimal digit of a nibble.
pub open spec fn hex_digit(n: u8) -> u8 {
    if n < 10 {
        (48 + n) as u8
    } else {
        (87 + n) as u8
    }
}

/// Lowercase hexadecimal of a byte string, two digits per byte.
pub open spec fn hex_lower(bytes: Seq<u8>) -> Seq<u8>
    decreases bytes.len(),
{
    if bytes.len() == 0 {
        Seq::empty()
    } else {
        hex_lower(bytes.drop_last()) + seq![hex_digit(bytes.last() / 16), hex_digit(bytes.last() % 16)]
    }
}

/// Eight lowercase hexadecimal digits of a 32-bit value, most significant first.
pub open spec fn hex32(v: u32) -> Seq<u8> {
    Seq::new(8, |i: int| hex_digit(((v >> ((28 - 4 * i) as u32)) & 15u32) as u8))
}

fn hex_digit_of(n: u8) -> (r: u8)
    requires
        n < 16,
    ensures
        r == hex_digit(n),
{
    if n < 10 {
        48 + n
    } else {
        87 + n
    }
}

/// Lowercase hexadecimal of the MD5 digest of the input.
pub fn md5_hex(input: &[u8]) -> (r: Vec<u8>)
    ensures
        r@ == hex_lower(md5_digest(input@)),
{
    let d = md5_compute(input);
    let mut out: Vec<u8> = Vec::new();
    let mut i: usize = 0;
    while i < d.len()
        invariant
            0 <= i <= d@.len(),
            out@ == hex_lower(d@.take(i as int)),
        decreases d@.len() - i,
    {
        let b = d[i];
        out.push(hex_digit_of(b / 16));
        out.push(hex_digit_of(b % 16));
        proof {
            assert(d@.take(i + 1).drop_last() =~= d@.take(i as int));
            assert(out@ =~= hex_lower(d@.take(i + 1)));
        }
        i = i + 1;
    }
    proof {
        assert(d@.take(d@.len() as int) =~= d@);
    }
    out
}

/// Eight lowercase hexadecimal digits of a 32-bit value.
pub fn hex32_of(v: u32) -> (r: Vec<u8>)
    ensures
        r@ == hex32(v),
{
    let mut out: Vec<u8> = Vec::new();
    let mut i: u32 = 0;
    while i < 8
        invariant
            0 <= i <= 8,
            out@ == hex32(v).take(i as int),
        decreases 8 - i,
    {
        let shift: u32 = 28 - 4 * i;
        let n: u8 = ((v >> shift) & 15u32) as u8;
        proof {
            assert(((v >> shift) & 15u32) < 16) by (bit_vector);
        }
        out.push(hex_digit_of(n));
        proof {
            assert(out@ =~= hex32(v).take(i + 1));
        }
        i = i + 1;
    }
    proof {
        assert(hex32(v).take(8) =~= hex32(v));
    }
    out
}

/// The `Digest ` prefix of a challenge.
pub open spec fn digest_prefix() -> Seq<char> {
    seq!['D', 'i', 'g', 'e', 's', 't', ' ']
}

/// The parameters of a digest challenge: the header after an optional `Digest ` prefix.
pub open spec fn challenge_body(h: Seq<char>) -> Seq<char> {
    if h.len() >= 7 && h.take(7) == digest_prefix() {
        h.skip(7)
    } else {
        h
    }
}

/// One `key=value` parameter: the key trimmed and lowercased, the value trimmed and
/// unquoted; none without `=`. Trimming and lowercasing are those of `str::trim` and
/// `str::to_lowercase`.
pub open spec fn param_of(part: Seq<char>) -> Option<(Seq<char>, Seq<char>)> {
    let p = trimmed(part);
    match first_char_index(p, '=') {
        Some(eq) => Some((lowercased(trimmed(p.take(eq))), unquoted(trimmed(p.skip(eq + 1))))),
        None => None,
    }
}

/// The parameters of the comma-separated parts, in order.
pub open spec fn params_of(parts: Seq<Seq<char>>) -> Seq<(Seq<char>, Seq<char>)>
    decreases parts.len(),
{
    if parts.len() == 0 {
        Seq::empty()
    } else {
        let rest = params_of(parts.drop_last());
        match param_of(parts.last()) {
            Some(kv) => rest.push(kv),
            None => rest,
        }
    }
}

/// The parameters of a `WWW-Authenticate: Digest ...` challenge, in order.
pub open spec fn challenge_params(h: Seq<char>) -> Seq<(Seq<char>, Seq<char>)> {
    params_of(split_chars(challenge_body(h), ','))
}

pub open spec fn pairs_view(v: Seq<(String, String)>) -> Seq<(Seq<char>, Seq<char>)> {
    v.map_values(|p: (String, String)| (p.0@, p.1@))
}

/// The value of the last parameter named `key` (a later one overrides an earlier one).
pub open spec fn param_value(ps: Seq<(Seq<char>, Seq<char>)>, key: Seq<char>) -> Option<Seq<char>>
    decreases ps.len(),
{
    if ps.len() == 0 {
        None
    } else if ps.last().0 == key {
        Some(ps.last().1)
    } else {
        param_value(ps.drop_last(), key)
    }
}

fn parse_param(part: &str) -> (r: Option<(String, String)>)
    ensures
        match r {
            Some(kv) => param_of(part@) == Some((kv.0@, kv.1@)),
            None => param_of(part@) is None,
        },
{
    let p = trim_str(part);
    match find_char(p, '=') {
        Some(eq) => {
            let n = p.unicode_len();
            let k = p.substring_char(0, eq);
            let v = p.substring_char(eq + 1, n);
            proof {
                assert(k@ =~= p@.take(eq as int));
                assert(v@ =~= p@.skip(eq + 1));
            }
            let key = lowercase_str(trim_str(k));
            let value = unquote_str(trim_str(v)).to_owned();
            Some((key, value))
        },
        None => None,
    }
}

/// Parses a `Digest realm="...", nonce="...", ...` challenge into its parameters, in
/// order: each comma-separated part with an `=`, its key trimmed and lowercased, its value
/// trimmed and unquoted.
pub fn parse_digest_challenge(header: &str) -> (r: Vec<(String, String)>)
    ensures
        pairs_view(r@) == challenge_params(header@),
{
    let ghost h = header@;
    let n = header.unicode_len();
    let prefix: [char; 7] = ['D', 'i', 'g', 'e', 's', 't', ' '];
    proof {
        assert(prefix@ =~= digest_prefix());
    }
    let mut start: usize = 0;
    if n >= 7 {
        let mut same = true;
        let mut j: usize = 0;
        proof {
            assert(h.take(0) =~= prefix@.take(0));
        }
        while j < 7
            invariant
                0 <= j <= 7,
                n == h.len(),
                h == header@,
                7 <= h.len(),
                prefix@.len() == 7,
                same == (h.take(j as int) == prefix@.take(j as int)),
            decreases 7 - j,
        {
            proof {
                assert(h.take(j + 1) =~= h.take(j as int).push(h[j as int]));
                assert(prefix@.take(j + 1) =~= prefix@.take(j as int).push(prefix@[j as int]));
                if h.take(j as int) != prefix@.take(j as int) {
                    if h.take(j + 1) == prefix@.take(j + 1) {
                        assert(h.take(j + 1).drop_last() =~= h.take(j as int));
                        assert(prefix@.take(j + 1).drop_last() =~= prefix@.take(j as int));
                    }
                }
                if h.take(j + 1) == prefix@.take(j + 1) {
                    assert(h.take(j + 1)[j as int] == prefix@.take(j + 1)[j as int]);
                }
            }
            if header.get_char(j) != prefix[j] {
                same = false;
            }
            j = j + 1;
        }
        proof {
            assert(prefix@.take(7) =~= prefix@);
        }
        if same {
            start = 7;
        }
    }
    let ghost body = challenge_body(h);
    proof {
        assert(body =~= h.skip(start as int));
    }
    let mut out: Vec<(String, String)> = Vec::new();
    let mut seg: usize = start;
    let ghost mut done: Seq<Seq<char>> = Seq::empty();
    let mut i: usize = start;
    proof {
        assert(body.take(0) =~= Seq::<char>::empty());
        assert(h.subrange(start as int, start as int) =~= Seq::<char>::empty());
    }
    while i < n
        invariant
            start <= seg <= i <= n,
            n == h.len(),
            h == header@,
            body == h.skip(start as int),
            split_chars(body.take(i - start), ',') == done.push(h.subrange(seg as int, i as int)),
            pairs_view(out@) == params_of(done),
        decreases n - i,
    {
        let c = header.get_char(i);
        proof {
            assert(body.take(i + 1 - start) =~= body.take(i - start).push(c));
            assert(body.take(i + 1 - start).drop_last() =~= body.take(i - start));
        }
        if c == ',' {
            let part = header.substring_char(seg, i);
            let ghost cur = h.subrange(seg as int, i as int);
            match parse_param(part) {
                Some(kv) => {
                    out.push(kv);
                },
                None => {},
            }
            proof {
                assert(done.push(cur).drop_last() =~= done);
                assert(pairs_view(out@) =~= params_of(done.push(cur)));
                done = done.push(cur);
            }
            seg = i + 1;
            proof {
                assert(h.subrange(seg as int, i + 1) =~= Seq::<char>::empty());
                assert(split_chars(body.take(i + 1 - start), ',') =~= done.push(h.subrange(seg as int, i + 1)));
            }
        } else {
            proof {
                let old_cur = h.subrange(seg as int, i as int);
                let t1 = body.take(i + 1 - start);
                assert(t1.len() > 0);
                assert(t1.last() == c);
                assert(split_chars(t1, ',') == split_chars(t1.drop_last(), ',').update(
                    split_chars(t1.drop_last(), ',').len() - 1,
                    split_chars(t1.drop_last(), ',').last().push(t1.last()),
                ));
                assert(h.subrange(seg as int, i + 1) =~= old_cur.push(c));
                assert(split_chars(body.take(i + 1 - start), ',') =~= done.push(old_cur).update(
                    done.len() as int,
                    old_cur.push(c),
                ));
                assert(done.push(old_cur).update(done.len() as int, old_cur.push(c)) =~= done.push(
                    h.subrange(seg as int, i + 1),
                ));
            }
        }
        i = i + 1;
    }
    proof {
        assert(body.take(n - start) =~= body);
    }
    let last = header.substring_char(seg, n);
    let ghost cur = h.subrange(seg as int, n as int);
    match parse_param(last) {
        Some(kv) => {
            out.push(kv);
        },
        None => {},
    }
    proof {
        assert(done.push(cur).drop_last() =~= done);
        assert(pairs_view(out@) =~= params_of(done.push(cur)));
    }
    out
}

/// The value of parameter `key` of a parsed challenge; a later parameter of the same name
/// overrides an earlier one.
pub fn digest_param(params: &Vec<(String, String)>, key: &str) -> (r: Option<String>)
    ensures
        match r {
            Some(v) => param_value(pairs_view(params@), key@) == Some(v@),
            None => param_value(pairs_view(params@), key@) is None,
        },
{
    let mut i: usize = params.len();
    proof {
        assert(pairs_view(params@).take(params@.len() as int) =~= pairs_view(params@));
    }
    while i > 0
        invariant
            0 <= i <= params@.len(),
            param_value(pairs_view(params@), key@) == param_value(pairs_view(params@).take(i as int), key@),
        decreases i,
    {
        proof {
            assert(pairs_view(params@).take(i as int).drop_last() =~= pairs_view(params@).take(i - 1));
        }
        if str_eq(params[i - 1].0.as_str(), key) {
            return Some(params[i - 1].1.clone());
        }
        i = i - 1;
    }
    None
}

/// The `Authorization` header of a digest answer (RFC 2617, MD5): `response` is
/// MD5(HA1:nonce:nc:cnonce:auth:HA2) when the server offers `auth` quality of protection
/// and MD5(HA1:nonce:HA2) otherwise, with HA1 = MD5(username:realm:password) and
/// HA2 = MD5(method:uri), all in lowercase hexadecimal; the nonce count is always 1.
pub open spec fn digest_header(
    username: Seq<u8>,
    password: Seq<u8>,
    realm: Seq<u8>,
    nonce: Seq<u8>,
    qop: Seq<u8>,
    uri: Seq<u8>,
    method: Seq<u8>,
    opaque: Option<Seq<u8>>,
    cnonce: u32,
) -> Seq<u8> {
    let c = seq![58u8];
    let q = seq![34u8];
    let ha1 = hex_lower(md5_digest(username + c + realm + c + password));
    let ha2 = hex_lower(md5_digest(method + c + uri));
    let nc = "00000001".spec_bytes();
    let auth = contains_bytes(qop, "auth".spec_bytes());
    let response = if auth {
        hex_lower(
            md5_digest(ha1 + c + nonce + c + nc + c + hex32(cnonce) + c + "auth".spec_bytes() + c + ha2),
        )
    } else {
        hex_lower(md5_digest(ha1 + c + nonce + c + ha2))
    };
    "Digest username=\"".spec_bytes() + username + "\", realm=\"".spec_bytes() + realm
        + "\", nonce=\"".spec_bytes() + nonce + "\", uri=\"".spec_bytes() + uri
        + "\", response=\"".spec_bytes() + response + q + (if auth {
        ", qop=auth, nc=".spec_bytes() + nc + ", cnonce=\"".spec_bytes() + hex32(cnonce) + q
    } else {
        Seq::empty()
    }) + (match opaque {
        Some(o) => ", opaque=\"".spec_bytes() + o + q,
        None => Seq::empty(),
    })
}

pub open spec fn opt_str_bytes(o: Option<&str>) -> Option<Seq<u8>> {
    match o {
        Some(s) => Some(s.spec_bytes()),
        None => None,
    }
}

/// Builds the `Authorization` header of a digest answer with the given client nonce.
pub fn digest_response_with_cnonce(
    username: &str,
    password: &str,
    realm: &str,
    nonce: &str,
    qop: &str,
    uri: &str,
    method: &str,
    opaque: Option<&str>,
    cnonce: u32,
) -> (r: Vec<u8>)
    ensures
        r@ == digest_header(
            username.spec_bytes(),
            password.spec_bytes(),
            realm.spec_bytes(),
            nonce.spec_bytes(),
            qop.spec_bytes(),
            uri.spec_bytes(),
            method.spec_bytes(),
            opt_str_bytes(opaque),
            cnonce,
        ),
{
    let colon: [u8; 1] = [58u8];
    let quote: [u8; 1] = [34u8];
    let mut a1: Vec<u8> = Vec::new();
    append(&mut a1, username.as_bytes());
    append(&mut a1, colon.as_slice());
    append(&mut a1, realm.as_bytes());
    append(&mut a1, colon.as_slice());
    append(&mut a1, password.as_bytes());
    let ha1 = md5_hex(a1.as_slice());
    let mut a2: Vec<u8> = Vec::new();
    append(&mut a2, method.as_bytes());
    append(&mut a2, colon.as_slice());
    append(&mut a2, uri.as_bytes());
    let ha2 = md5_hex(a2.as_slice());
    let nc = "00000001".as_bytes();
    let auth_lit = "auth".as_bytes();
    let cn = hex32_of(cnonce);
    let auth = find_bytes(qop.as_bytes(), auth_lit);
    let mut a3: Vec<u8> = Vec::new();
    append(&mut a3, ha1.as_slice());
    append(&mut a3, colon.as_slice());
    append(&mut a3, nonce.as_bytes());
    append(&mut a3, colon.as_slice());
    if auth {
        append(&mut a3, nc);
        append(&mut a3, colon.as_slice());
        append(&mut a3, cn.as_slice());
        append(&mut a3, colon.as_slice());
        append(&mut a3, auth_lit);
        append(&mut a3, colon.as_slice());
    }
    append(&mut a3, ha2.as_slice());
    let response = md5_hex(a3.as_slice());
    let mut out: Vec<u8> = Vec::new();
    append(&mut out, "Digest username=\"".as_bytes());
    append(&mut out, username.as_bytes());
    append(&mut out, "\", realm=\"".as_bytes());
    append(&mut out, realm.as_bytes());
    append(&mut out, "\", nonce=\"".as_bytes());
    append(&mut out, nonce.as_bytes());
    append(&mut out, "\", uri=\"".as_bytes());
    append(&mut out, uri.as_bytes());
    append(&mut out, "\", response=\"".as_bytes());
    append(&mut out, response.as_slice());
    append(&mut out, quote.as_slice());
    let ghost base = out@;
    if auth {
        append(&mut out, ", qop=auth, nc=".as_bytes());
        append(&mut out, nc);
        append(&mut out, ", cnonce=\"".as_bytes());
        append(&mut out, cn.as_slice());
        append(&mut out, quote.as_slice());
    }
    let ghost mid = out@;
    match opaque {
        Some(o) => {
            append(&mut out, ", opaque=\"".as_bytes());
            append(&mut out, o.as_bytes());
            append(&mut out, quote.as_slice());
        },
        None => {},
    }
    proof {
        let c = seq![58u8];
        let q = seq![34u8];
        assert(colon@ =~= c);
        assert(quote@ =~= q);
        assert(a1@ =~= username.spec_bytes() + c + realm.spec_bytes() + c + password.spec_bytes());
        assert(a2@ =~= method.spec_bytes() + c + uri.spec_bytes());
        if auth {
            assert(a3@ =~= ha1@ + c + nonce.spec_bytes() + c + nc@ + c + cn@ + c + auth_lit@ + c + ha2@);
            assert(mid =~= base + (", qop=auth, nc=".spec_bytes() + nc@ + ", cnonce=\"".spec_bytes() + cn@ + q));
        } else {
            assert(a3@ =~= ha1@ + c + nonce.spec_bytes() + c + ha2@);
            assert(mid =~= base + Seq::<u8>::empty());
        }
        match opaque {
            Some(o) => {
                assert(out@ =~= mid + (", opaque=\"".spec_bytes() + o.spec_bytes() + q));
            },
            None => {
                assert(out@ =~= mid + Seq::<u8>::empty());
            },
        }
    }
    out
}

/// Builds the `Authorization` header of a digest answer, with a client nonce taken from
/// the clock (the nanoseconds of the current second).
pub fn build_digest_response(
    username: &str,
    password: &str,
    realm: &str,
    nonce: &str,
    qop: &str,
    uri: &str,
    method: &str,
    opaque: Option<&str>,
) -> (r: Vec<u8>)
    ensures
        exists|cnonce: u32|
            cnonce < 1_000_000_000 && r@ == #[trigger] digest_header(
                username.spec_bytes(),
                password.spec_bytes(),
                realm.spec_bytes(),
                nonce.spec_bytes(),
                qop.spec_bytes(),
                uri.spec_bytes(),
                method.spec_bytes(),
                opt_str_bytes(opaque),
                cnonce,
            ),
{
    let cnonce = now_subsec_nanos();
    digest_response_with_cnonce(username, password, realm, nonce, qop, uri, method, opaque, cnonce)
}

/// Why endpoint discovery failed.
#[derive(Debug)]
pub enum AuthError {
    /// A 200 answer without a body.
    NoBody,
    /// The body of a 200 answer is not a path.
    InvalidEndpoint(Vec<u8>),
    /// A 401 answer without a `WWW-Authenticate` header.
    NoChallenge,
    /// A `WWW-Authenticate` header without a value.
    MalformedChallenge,
    /// A challenge for another scheme than digest.
    UnsupportedScheme(Vec<u8>),
    /// The server asks for credentials but none are configured.
    NoCredentials,
    /// The authenticated request was refused; the status line.
    AuthenticationFailed(Vec<u8>),
    /// Neither 200 nor 401; the status line.
    UnexpectedStatus(Vec<u8>),
}

pub open spec fn crlf() -> Seq<u8> {
    seq![13u8, 10u8]
}

pub open spec fn blank_line() -> Seq<u8> {
    seq![13u8, 10u8, 13u8, 10u8]
}

/// `p` is the first occurrence of `needle` in `hay`.
pub open spec fn first_at(hay: Seq<u8>, needle: Seq<u8>, p: int) -> bool {
    occurs_at(hay, needle, p) && forall|k: int| 0 <= k < p ==> !occurs_at(hay, needle, k)
}

/// What a 200 answer yields: its body after the first blank line, trimmed, which must be a
/// path (start with `/`).
pub open spec fn endpoint_result_ok(response: Seq<u8>, r: Result<Vec<u8>, AuthError>) -> bool {
    if !contains_bytes(response, blank_line()) {
        r matches Err(AuthError::NoBody)
    } else {
        exists|p: int|
            #![trigger first_at(response, blank_line(), p)]
            first_at(response, blank_line(), p) && {
                let body = trim(response.skip(p + 4));
                if body.len() > 0 && body[0] == 47u8 {
                    r matches Ok(e) && e@ == body
                } else {
                    r matches Err(AuthError::InvalidEndpoint(e)) && e@ == body
                }
            }
    }
}

/// Reads the WebSocket endpoint path out of a 200 answer.
pub fn extract_endpoint(response: &[u8]) -> (r: Result<Vec<u8>, AuthError>)
    ensures
        endpoint_result_ok(response@, r),
{
    let sep: [u8; 4] = [13u8, 10u8, 13u8, 10u8];
    proof {
        assert(sep@ =~= blank_line());
    }
    match find_sub(response, sep.as_slice()) {
        None => Err(AuthError::NoBody),
        Some(p) => {
            proof {
                assert(occurs_at(response@, sep@, p as int));
                assert(p + 4 <= response@.len());
                assert(response@.len() == response.len());
            }
            let mut rest: Vec<u8> = Vec::new();
            let mut i: usize = p + 4;
            while i < response.len()
                invariant
                    p + 4 <= i <= response@.len(),
                    rest@ == response@.subrange(p + 4, i as int),
                decreases response@.len() - i,
            {
                rest.push(response[i]);
                proof {
                    assert(rest@ =~= response@.subrange(p + 4, i + 1));
                }
                i = i + 1;
            }
            proof {
                assert(rest@ =~= response@.skip(p + 4));
                assert(first_at(response@, blank_line(), p as int));
            }
            let body = trim_bytes(rest.as_slice());
            if body.len() > 0 && body[0] == 47u8 {
                Ok(body)
            } else {
                Err(AuthError::InvalidEndpoint(body))
            }
        },
    }
}

/// The class of an HTTP status line.
#[derive(Debug, Clone, Copy, PartialEq, Eq, Structural)]
pub enum HttpStatus {
    Success,
    Unauthorized,
    Other,
}

/// The status line of an answer: up to the first line break.
pub open spec fn status_line_of(response: Seq<u8>) -> Seq<u8> {
    if contains_bytes(response, crlf()) {
        response.take(choose|p: int| first_at(response, crlf(), p))
    } else {
        response
    }
}

/// A status line mentioning 200 is a success, else one mentioning 401 asks for
/// authentication.
pub open spec fn status_class(line: Seq<u8>) -> HttpStatus {
    if contains_bytes(line, "200".spec_bytes()) {
        HttpStatus::Success
    } else if contains_bytes(line, "401".spec_bytes()) {
        HttpStatus::Unauthorized
    } else {
        HttpStatus::Other
    }
}

proof fn lemma_first_at_unique(hay: Seq<u8>, needle: Seq<u8>, p: int, q: int)
    requires
        first_at(hay, needle, p),
        first_at(hay, needle, q),
    ensures
        p == q,
{
}

/// The status line of an answer and its class.
pub fn http_status(response: &[u8]) -> (r: (Vec<u8>, HttpStatus))
    ensures
        r.0@ == status_line_of(response@),
        r.1 == status_class(r.0@),
{
    let sep: [u8; 2] = [13u8, 10u8];
    proof {
        assert(sep@ =~= crlf());
    }
    let end = match find_sub(response, sep.as_slice()) {
        Some(p) => {
            proof {
                assert(first_at(response@, crlf(), p as int));
                let q = choose|q: int| first_at(response@, crlf(), q);
                lemma_first_at_unique(response@, crlf(), p as int, q);
            }
            p
        },
        None => response.len(),
    };
    let mut line: Vec<u8> = Vec::new();
    let mut i: usize = 0;
    while i < end
        invariant
            0 <= i <= end <= response@.len(),
            line@ == response@.take(i as int),
        decreases end - i,
    {
        line.push(response[i]);
        proof {
            assert(line@ =~= response@.take(i + 1));
        }
        i = i + 1;
    }
    proof {
        if !contains_bytes(response@, crlf()) {
            assert(response@.take(response@.len() as int) =~= response@);
        }
    }
    let class = if find_bytes(line.as_slice(), "200".as_bytes()) {
        HttpStatus::Success
    } else if find_bytes(line.as_slice(), "401".as_bytes()) {
        HttpStatus::Unauthorized
    } else {
        HttpStatus::Other
    };
    (line, class)
}

/// The heartbeat of the WebSocket connection. Times are milliseconds of a monotonic clock.
pub struct Heartbeat {
    /// Last time anything was received.
    pub last_activity_ms: u64,
    /// Last time a ping was due and sent.
    pub last_ping_ms: u64,
    pub last_ping_sent_ms: Option<u64>,
    pub last_ping_id: Option<u64>,
    /// Sequence number of the last ping.
    pub ping_seq: u64,
}

/// What one read from the WebSocket gave.
#[derive(Debug, Clone, Copy, PartialEq, Eq, Structural)]
pub enum FrameKind {
    Binary,
    Ping,
    Pong,
    Close,
    /// A text or other frame, not expected on this link.
    Other,
    /// Nothing to read now (the read would block or timed out).
    NoData,
    /// The connection was closed or failed.
    Error,
}

/// What the receiver does with one read.
#[derive(Debug, Clone, Copy, PartialEq, Eq, Structural)]
pub enum FrameAction {
    /// Hand the binary payload to the caller and keep reading.
    Deliver,
    /// Answer with a pong carrying the ping's payload (a failed send drops the connection)
    /// and keep reading.
    AnswerPong,
    /// Keep reading.
    Continue,
    /// Stop reading for now.
    StopReading,
    /// Drop the connection.
    Disconnect,
}

/// The receiver's decision for one read.
pub open spec fn frame_action(kind: FrameKind) -> FrameAction {
    match kind {
        FrameKind::Binary => FrameAction::Deliver,
        FrameKind::Ping => FrameAction::AnswerPong,
        FrameKind::Pong => FrameAction::Continue,
        FrameKind::Close => FrameAction::Disconnect,
        FrameKind::Other => FrameAction::Continue,
        FrameKind::NoData => FrameAction::StopReading,
        FrameKind::Error => FrameAction::Disconnect,
    }
}

/// A data frame, a ping or a pong shows the peer is alive.
pub open spec fn is_activity(kind: FrameKind) -> bool {
    kind is Binary || kind is Ping || kind is Pong
}

/// Time elapsed from `then` to `now`, zero when `then` is later.
pub open spec fn elapsed(now: u64, then: u64) -> int {
    if now >= then {
        now - then
    } else {
        0
    }
}

impl Heartbeat {
    /// A heartbeat started at `now_ms`, with nothing sent yet.
    pub fn new(now_ms: u64) -> (r: Self)
        ensures
            r.last_activity_ms == now_ms,
            r.last_ping_ms == now_ms,
            r.last_ping_sent_ms is None,
            r.last_ping_id is None,
            r.ping_seq == 0,
    {
        Heartbeat {
            last_activity_ms: now_ms,
            last_ping_ms: now_ms,
            last_ping_sent_ms: None,
            last_ping_id: None,
            ping_seq: 0,
        }
    }

    /// Whether a ping is due: `interval_ms` have passed since the last one.
    pub fn ping_due(&self, now_ms: u64, interval_ms: u64) -> (r: bool)
        ensures
            r == (elapsed(now_ms, self.last_ping_ms) >= interval_ms),
    {
        now_ms.saturating_sub(self.last_ping_ms) >= interval_ms
    }

    /// The identifier of the next ping: the sequence number advanced by one, wrapping.
    pub fn next_ping(&mut self) -> (id: u64)
        ensures
            id == (if old(self).ping_seq == u64::MAX {
                0
            } else {
                (old(self).ping_seq + 1) as u64
            }),
            final(self).ping_seq == id,
            final(self).last_activity_ms == old(self).last_activity_ms,
            final(self).last_ping_ms == old(self).last_ping_ms,
            final(self).last_ping_sent_ms == old(self).last_ping_sent_ms,
            final(self).last_ping_id == old(self).last_ping_id,
    {
        self.ping_seq = self.ping_seq.wrapping_add(1);
        self.ping_seq
    }

    /// Records that ping `id` went out at `now_ms`.
    pub fn ping_sent(&mut self, id: u64, now_ms: u64)
        ensures
            final(self).last_ping_ms == now_ms,
            final(self).last_ping_id == Some(id),
            final(self).last_ping_sent_ms == Some(now_ms),
            final(self).last_activity_ms == old(self).last_activity_ms,
            final(self).ping_seq == old(self).ping_seq,
    {
        self.last_ping_ms = now_ms;
        self.last_ping_id = Some(id);
        self.last_ping_sent_ms = Some(now_ms);
    }

    /// Whether the connection is dead: nothing was received for `timeout_ms`.
    pub fn timed_out(&self, now_ms: u64, timeout_ms: u64) -> (r: bool)
        ensures
            r == (elapsed(now_ms, self.last_activity_ms) >= timeout_ms),
    {
        now_ms.saturating_sub(self.last_activity_ms) >= timeout_ms
    }

    /// Decides what to do with one read at `now_ms`, recording activity for a data frame,
    /// a ping or a pong.
    pub fn on_frame(&mut self, kind: FrameKind, now_ms: u64) -> (a: FrameAction)
        ensures
            a == frame_action(kind),
            final(self).last_activity_ms == (if is_activity(kind) {
                now_ms
            } else {
                old(self).last_activity_ms
            }),
            final(self).last_ping_ms == old(self).last_ping_ms,
            final(self).last_ping_sent_ms == old(self).last_ping_sent_ms,
            final(self).last_ping_id == old(self).last_ping_id,
            final(self).ping_seq == old(self).ping_seq,
    {
        match kind {
            FrameKind::Binary => {
                self.last_activity_ms = now_ms;
                FrameAction::Deliver
            },
            FrameKind::Ping => {
                self.last_activity_ms = now_ms;
                FrameAction::AnswerPong
            },
            FrameKind::Pong => {
                self.last_activity_ms = now_ms;
                FrameAction::Continue
            },
            FrameKind::Close => FrameAction::Disconnect,
            FrameKind::Other => FrameAction::Continue,
            FrameKind::NoData => FrameAction::StopReading,
            FrameKind::Error => FrameAction::Disconnect,
        }
    }

    /// Records that something (data, ping or pong) was received at `now_ms`.
    pub fn activity(&mut self, now_ms: u64)
        ensures
            final(self).last_activity_ms == now_ms,
            final(self).last_ping_ms == old(self).last_ping_ms,
            final(self).last_ping_sent_ms == old(self).last_ping_sent_ms,
            final(self).last_ping_id == old(self).last_ping_id,
            final(self).ping_seq == old(self).ping_seq,
    {
        self.last_activity_ms = now_ms;
    }
}

/// The lines of a text separated by CRLF, in order (one line when there is no break).
pub open spec fn lines_of(s: Seq<u8>) -> Seq<Seq<u8>>
    decreases s.len(),
{
    if s.len() == 0 {
        seq![Seq::empty()]
    } else if s.len() >= 2 && s[s.len() - 2] == 13u8 && s[s.len() - 1] == 10u8 {
        lines_of(s.take(s.len() - 2)).push(Seq::empty())
    } else {
        let r = lines_of(s.drop_last());
        r.update(r.len() - 1, r.last().push(s.last()))
    }
}

pub open spec fn has_prefix(s: Seq<u8>, p: Seq<u8>) -> bool {
    s.len() >= p.len() && s.take(p.len() as int) == p
}

/// Whether a line is the `WWW-Authenticate` header (the name in any case).
pub open spec fn is_challenge_line(l: Seq<u8>) -> bool {
    has_prefix(lower(l), "www-authenticate".spec_bytes())
}

/// What a 401 answer yields: the value of its first `WWW-Authenticate` header line (after
/// the first colon, trimmed), which must name the digest scheme (in any case).
pub open spec fn challenge_result_ok(response: Seq<u8>, r: Result<Vec<u8>, AuthError>) -> bool {
    let ls = lines_of(response);
    &&& !(exists|j: int| 0 <= j < ls.len() && #[trigger] is_challenge_line(ls[j])) ==> (r matches Err(
        AuthError::NoChallenge,
    ))
    &&& forall|j: int| #[trigger] first_challenge_line(ls, j) ==> line_challenge_ok(ls[j], r)
}

/// Line `j` is the first `WWW-Authenticate` line.
pub open spec fn first_challenge_line(ls: Seq<Seq<u8>>, j: int) -> bool {
    0 <= j < ls.len() && is_challenge_line(ls[j]) && forall|k: int| 0 <= k < j ==> !is_challenge_line(#[trigger] ls[k])
}

/// The challenge in a `WWW-Authenticate` line: its value after the first colon, trimmed,
/// which must name the digest scheme (in any case).
pub open spec fn line_challenge_ok(l: Seq<u8>, r: Result<Vec<u8>, AuthError>) -> bool {
    match first_index(l, 58u8) {
        None => r matches Err(AuthError::MalformedChallenge),
        Some(c) => {
            let v = trim(l.skip(c + 1));
            if has_prefix(lower(v), "digest".spec_bytes()) {
                r matches Ok(x) && x@ == v
            } else {
                r matches Err(AuthError::UnsupportedScheme(x)) && x@ == v
            }
        },
    }
}

proof fn lemma_lines_nonempty(s: Seq<u8>)
    ensures
        lines_of(s).len() >= 1,
    decreases s.len(),
{
    if s.len() > 0 {
        if s.len() >= 2 && s[s.len() - 2] == 13u8 && s[s.len() - 1] == 10u8 {
            lemma_lines_nonempty(s.take(s.len() - 2));
        } else {
            lemma_lines_nonempty(s.drop_last());
        }
    }
}

fn line_challenge(line: &Vec<u8>) -> (r: Result<Vec<u8>, AuthError>)
    ensures
        line_challenge_ok(line@, r),
        !(r matches Err(AuthError::NoCredentials)),
{
    match find_byte(line.as_slice(), 58u8) {
        None => Err(AuthError::MalformedChallenge),
        Some(c) => {
            proof {
                assert(c < line@.len());
                assert(line@.len() == line.len());
            }
            let mut rest: Vec<u8> = Vec::new();
            let mut i: usize = c + 1;
            while i < line.len()
                invariant
                    c + 1 <= i <= line@.len(),
                    rest@ == line@.subrange(c + 1, i as int),
                decreases line@.len() - i,
            {
                rest.push(line[i]);
                proof {
                    assert(rest@ =~= line@.subrange(c + 1, i + 1));
                }
                i = i + 1;
            }
            proof {
                assert(rest@ =~= line@.skip(c + 1));
            }
            let v = trim_bytes(rest.as_slice());
            let lv = lower_bytes(v.as_slice());
            if starts_with_bytes(lv.as_slice(), "digest".as_bytes()) {
                Ok(v)
            } else {
                Err(AuthError::UnsupportedScheme(v))
            }
        },
    }
}

fn split_lines(s: &[u8]) -> (r: Vec<Vec<u8>>)
    ensures
        r@.map_values(|l: Vec<u8>| l@) == lines_of(s@),
{
    let mut done: Vec<Vec<u8>> = Vec::new();
    let mut cur: Vec<u8> = Vec::new();
    let mut i: usize = 0;
    proof {
        assert(s@.take(0) =~= Seq::<u8>::empty());
        assert(done@.map_values(|l: Vec<u8>| l@).push(cur@) =~= seq![Seq::<u8>::empty()]);
    }
    while i < s.len()
        invariant
            0 <= i <= s@.len(),
            lines_of(s@.take(i as int)) == done@.map_values(|l: Vec<u8>| l@).push(cur@),
            cur@.len() <= i,
            cur@.len() > 0 ==> cur@.last() == s@[i - 1],
            (i > 0 && s@[i - 1] == 13u8) ==> cur@.len() > 0,
        decreases s@.len() - i,
    {
        let c = s[i];
        let ghost dv = done@.map_values(|l: Vec<u8>| l@);
        let ghost t1 = s@.take(i + 1);
        proof {
            assert(t1.drop_last() =~= s@.take(i as int));
            assert(t1.last() == c);
        }
        if c == 10u8 && cur.len() > 0 && cur[cur.len() - 1] == 13u8 {
            let ghost c0 = cur@;
            let mut line = cur;
            line.pop();
            proof {
                assert(t1.take(t1.len() - 2) =~= s@.take(i - 1));
                let t0 = s@.take(i as int);
                assert(t0.drop_last() =~= s@.take(i - 1));
                assert(!(t0.len() >= 2 && t0[t0.len() - 2] == 13u8 && t0[t0.len() - 1] == 10u8));
                assert(lines_of(s@.take(i - 1)) =~= dv.push(line@)) by {
                    let r = lines_of(s@.take(i - 1));
                    lemma_lines_nonempty(s@.take(i - 1));
                    assert(lines_of(t0) == r.update(r.len() - 1, r.last().push(13u8)));
                    assert(c0 =~= line@.push(13u8));
                    assert(lines_of(t0).len() == dv.len() + 1);
                    assert(r.update(r.len() - 1, r.last().push(13u8)).len() == r.len());
                    assert(r.len() == dv.len() + 1);
                    assert forall|k: int| 0 <= k < r.len() implies r[k] == dv.push(line@)[k] by {
                        if k < r.len() - 1 {
                            assert(lines_of(t0)[k] == r[k]);
                        } else {
                            assert(lines_of(t0)[k] == r.last().push(13u8));
                            assert(r.last() =~= line@);
                        }
                    }
                }
            }
            done.push(line);
            cur = Vec::new();
            proof {
                assert(done@.map_values(|l: Vec<u8>| l@) =~= dv.push(line@));
                assert(lines_of(t1) =~= done@.map_values(|l: Vec<u8>| l@).push(cur@));
            }
        } else {
            let ghost c0 = cur@;
            cur.push(c);
            proof {
                if t1.len() >= 2 && t1[t1.len() - 2] == 13u8 && t1[t1.len() - 1] == 10u8 {
                    assert(s@[i - 1] == 13u8);
                    assert(c0.last() == 13u8);
                }
                assert(lines_of(t1) =~= dv.push(c0).update(dv.len() as int, c0.push(c)));
                assert(lines_of(t1) =~= done@.map_values(|l: Vec<u8>| l@).push(cur@));
            }
        }
        i = i + 1;
    }
    proof {
        assert(s@.take(s@.len() as int) =~= s@);
    }
    let ghost dv = done@.map_values(|l: Vec<u8>| l@);
    done.push(cur);
    proof {
        assert(done@.map_values(|l: Vec<u8>| l@) =~= dv.push(cur@));
    }
    done
}

fn starts_with_bytes(s: &[u8], p: &[u8]) -> (r: bool)
    ensures
        r == has_prefix(s@, p@),
{
    if s.len() < p.len() {
        return false;
    }
    let mut j: usize = 0;
    while j < p.len()
        invariant
            0 <= j <= p@.len(),
            p@.len() <= s@.len(),
            forall|m: int| 0 <= m < j ==> s@[m] == p@[m],
        decreases p@.len() - j,
    {
        if s[j] != p[j] {
            proof {
                assert(s@.take(p@.len() as int)[j as int] != p@[j as int]);
            }
            return false;
        }
        j = j + 1;
    }
    proof {
        assert(s@.take(p@.len() as int) =~= p@);
    }
    true
}

/// Reads the digest challenge out of a 401 answer.
pub fn digest_challenge(response: &[u8]) -> (r: Result<Vec<u8>, AuthError>)
    ensures
        challenge_result_ok(response@, r),
        !(r matches Err(AuthError::NoCredentials)),
{
    let lines = split_lines(response);
    let ghost ls = lines_of(response@);
    let name = "www-authenticate".as_bytes();
    let mut j: usize = 0;
    while j < lines.len()
        invariant
            0 <= j <= lines@.len(),
            lines@.map_values(|l: Vec<u8>| l@) == ls,
            ls == lines_of(response@),
            name@ == "www-authenticate".spec_bytes(),
            forall|k: int| 0 <= k < j ==> !is_challenge_line(#[trigger] ls[k]),
        decreases lines@.len() - j,
    {
        let low = lower_bytes(lines[j].as_slice());
        if starts_with_bytes(low.as_slice(), name) {
            proof {
                assert(ls[j as int] == lines@[j as int]@);
                assert(is_challenge_line(ls[j as int]));
            }
            let r = line_challenge(&lines[j]);
            proof {
                let jj = j as int;
                assert(ls[jj] == lines@[jj]@);
                assert(line_challenge_ok(ls[jj], r));
                assert(forall|k: int| 0 <= k < jj ==> !is_challenge_line(ls[k]));
                assert(0 <= j < ls.len() && is_challenge_line(ls[j as int]));
                assert forall|j2: int| #[trigger] first_challenge_line(ls, j2) implies line_challenge_ok(ls[j2], r) by {
                    if j2 < jj {
                        assert(!is_challenge_line(ls[j2]));
                    } else if j2 > jj {
                        assert(!is_challenge_line(ls[jj]));
                    }
                }
                assert(challenge_result_ok(response@, r));
            }
            return r;
        }
        proof {
            assert(ls[j as int] == lines@[j as int]@);
        }
        j = j + 1;
    }
    proof {
        assert forall|j2: int| #[trigger] first_challenge_line(ls, j2) implies line_challenge_ok(ls[j2], r_none()) by {
            assert(!is_challenge_line(ls[j2]));
        }
    }
    Err(AuthError::NoChallenge)
}

pub open spec fn r_none() -> Result<Vec<u8>, AuthError> {
    Err(AuthError::NoChallenge)
}

/// Where the answer to the unauthenticated discovery request leads.
#[derive(Debug)]
pub enum AuthNext {
    /// The endpoint path of a 200 answer.
    Endpoint(Vec<u8>),
    /// The digest challenge of a 401 answer, to be answered with the credentials.
    Challenge(Vec<u8>),
}

/// The outcome of the first discovery answer: a 200 gives its endpoint; a 401 gives its
/// digest challenge when credentials are configured (a missing or unusable challenge is
/// reported first); any other status fails with its status line.
pub open spec fn first_answer_ok(response: Seq<u8>, has_credentials: bool, r: Result<AuthNext, AuthError>) -> bool {
    match status_class(status_line_of(response)) {
        HttpStatus::Success => match r {
            Ok(AuthNext::Endpoint(e)) => endpoint_result_ok(response, Ok(e)),
            Ok(AuthNext::Challenge(_)) => false,
            Err(x) => endpoint_result_ok(response, Err(x)),
        },
        HttpStatus::Unauthorized => match r {
            Ok(AuthNext::Endpoint(_)) => false,
            Ok(AuthNext::Challenge(c)) => has_credentials && challenge_result_ok(response, Ok(c)),
            Err(AuthError::NoCredentials) => !has_credentials && exists|c: Vec<u8>| challenge_result_ok(response, Ok(c)),
            Err(x) => challenge_result_ok(response, Err(x)),
        },
        HttpStatus::Other => r matches Err(AuthError::UnexpectedStatus(l)) && l@ == status_line_of(response),
    }
}

/// Decides what the answer to the unauthenticated discovery request leads to.
pub fn first_answer(response: &[u8], has_credentials: bool) -> (r: Result<AuthNext, AuthError>)
    ensures
        first_answer_ok(response@, has_credentials, r),
{
    let (line, class) = http_status(response);
    match class {
        HttpStatus::Success => match extract_endpoint(response) {
            Ok(e) => Ok(AuthNext::Endpoint(e)),
            Err(x) => Err(x),
        },
        HttpStatus::Unauthorized => match digest_challenge(response) {
            Ok(c) => {
                if has_credentials {
                    Ok(AuthNext::Challenge(c))
                } else {
                    proof {
                        assert(challenge_result_ok(response@, Ok(c)));
                    }
                    Err(AuthError::NoCredentials)
                }
            },
            Err(x) => Err(x),
        },
        HttpStatus::Other => Err(AuthError::UnexpectedStatus(line)),
    }
}

/// The outcome of the authenticated discovery answer: a 200 gives its endpoint, anything
/// else fails with its status line.
pub fn second_answer(response: &[u8]) -> (r: Result<Vec<u8>, AuthError>)
    ensures
        status_class(status_line_of(response@)) == HttpStatus::Success ==> endpoint_result_ok(response@, r),
        status_class(status_line_of(response@)) != HttpStatus::Success ==> (r matches Err(
            AuthError::AuthenticationFailed(l),
        ) && l@ == status_line_of(response@)),
{
    let (line, class) = http_status(response);
    match class {
        HttpStatus::Success => extract_endpoint(response),
        _ => Err(AuthError::AuthenticationFailed(line)),
    }
}

/// The character of the standard base64 alphabet for the 6-bit value `v`.
pub open spec fn b64_digit(v: int) -> u8 {
    if v < 26 {
        (65 + v) as u8
    } else if v < 52 {
        (97 + v - 26) as u8
    } else if v < 62 {
        (48 + v - 52) as u8
    } else if v == 62 {
        43u8
    } else {
        47u8
    }
}

/// Standard base64 (RFC 4648, alphabet `A-Za-z0-9+/`, padded with `=`): each group of
/// three bytes becomes four characters of six bits each; a last group of one or two bytes
/// is padded to four characters.
pub open spec fn base64_standard(s: Seq<u8>) -> Seq<u8>
    decreases s.len(),
{
    if s.len() == 0 {
        Seq::empty()
    } else if s.len() == 1 {
        seq![b64_digit((s[0] / 4) as int), b64_digit((s[0] % 4) * 16), 61u8, 61u8]
    } else if s.len() == 2 {
        seq![b64_digit((s[0] / 4) as int), b64_digit((s[0] % 4) * 16 + s[1] / 16), b64_digit((s[1] % 16) * 4), 61u8]
    } else {
        seq![
            b64_digit((s[0] / 4) as int),
            b64_digit((s[0] % 4) * 16 + s[1] / 16),
            b64_digit((s[1] % 16) * 4 + s[2] / 64),
            b64_digit((s[2] % 64) as int),
        ] + base64_standard(s.skip(3))
    }
}

proof fn lemma_base64_ascii(s: Seq<u8>)
    ensures
        forall|i: int| 0 <= i < base64_standard(s).len() ==> #[trigger] base64_standard(s)[i] < 128,
    decreases s.len(),
{
    if s.len() >= 3 {
        lemma_base64_ascii(s.skip(3));
        let head = seq![
            b64_digit((s[0] / 4) as int),
            b64_digit((s[0] % 4) * 16 + s[1] / 16),
            b64_digit((s[1] % 16) * 4 + s[2] / 64),
            b64_digit((s[2] % 64) as int),
        ];
        assert forall|i: int| 0 <= i < base64_standard(s).len() implies #[trigger] base64_standard(s)[i] < 128 by {
            if i >= 4 {
                assert(base64_standard(s)[i] == base64_standard(s.skip(3))[i - 4]);
            }
        }
    }
}

/// `base64::engine::general_purpose::STANDARD.encode`: the standard padded base64 of the
/// bytes, as ASCII bytes. The encoder panics when the encoded length overflows `usize`,
/// which the bound on the input rules out.
#[verifier::external_body]
fn base64_encode(input: &[u8]) -> (r: Vec<u8>)
    requires
        input@.len() <= usize::MAX / 2,
    ensures
        r@ == base64_standard(input@),
{
    base64::engine::general_purpose::STANDARD.encode(input).into_bytes()
}

/// The value of a Basic `Authorization` header: `Basic ` and the base64 of
/// `user:password`.
pub open spec fn basic_header(user: Seq<u8>, pass: Seq<u8>) -> Seq<u8> {
    seq![66u8, 97u8, 115u8, 105u8, 99u8, 32u8] + base64_standard(user + seq![58u8] + pass)
}

/// Builds the Basic `Authorization` header value for the WebSocket upgrade request.
pub fn basic_auth_header(user: &str, pass: &str) -> (r: String)
    requires
        user.spec_bytes().len() + pass.spec_bytes().len() < usize::MAX / 2,
    ensures
        r@ == basic_header(user.spec_bytes(), pass.spec_bytes()).map_values(|b: u8| b as char),
{
    let mut creds: Vec<u8> = Vec::new();
    append(&mut creds, user.as_bytes());
    creds.push(58u8);
    append(&mut creds, pass.as_bytes());
    let enc = base64_encode(creds.as_slice());
    let mut h: Vec<u8> = Vec::new();
    h.push(66u8);
    h.push(97u8);
    h.push(115u8);
    h.push(105u8);
    h.push(99u8);
    h.push(32u8);
    append(&mut h, enc.as_slice());
    proof {
        assert(creds@ =~= user.spec_bytes() + seq![58u8] + pass.spec_bytes());
        assert(h@ =~= basic_header(user.spec_bytes(), pass.spec_bytes()));
        lemma_base64_ascii(creds@);
        assert forall|i: int| 0 <= i < h@.len() implies h@[i] < 128 by {
            if i >= 6 {
                assert(h@[i] == base64_standard(creds@)[i - 6]);
            }
        }
    }
    ascii_to_string(h)
}


proof fn lemma_occurs_in_middle(a: Seq<u8>, b: Seq<u8>, c: Seq<u8>)
    ensures
        contains_bytes(a + b + c, b),
{
    assert((a + b + c).subrange(a.len() as int, (a.len() + b.len()) as int) =~= b);
    assert(occurs_at(a + b + c, b, a.len() as int));
}

/// The answer to a digest challenge whose offered quality of protection contains `auth`
/// (such as `auth,auth-int`) is the answer to a plain `auth` offer: it carries `qop=auth`,
/// the nonce count 00000001 and the client nonce, and its response is the MD5 of
/// HA1:nonce:00000001:cnonce:auth:HA2. An offer without `auth` is answered as if nothing
/// were offered.
pub proof fn lemma_qop_auth_answer(
    username: Seq<u8>,
    password: Seq<u8>,
    realm: Seq<u8>,
    nonce: Seq<u8>,
    qop: Seq<u8>,
    uri: Seq<u8>,
    method: Seq<u8>,
    opaque: Option<Seq<u8>>,
    cnonce: u32,
)
    ensures
        contains_bytes(qop, "auth".spec_bytes()) ==> digest_header(username, password, realm, nonce, qop, uri, method, opaque, cnonce)
            == digest_header(username, password, realm, nonce, "auth".spec_bytes(), uri, method, opaque, cnonce),
        !contains_bytes(qop, "auth".spec_bytes()) ==> digest_header(username, password, realm, nonce, qop, uri, method, opaque, cnonce)
            == digest_header(username, password, realm, nonce, Seq::empty(), uri, method, opaque, cnonce),
        contains_bytes(qop, "auth".spec_bytes()) ==> contains_bytes(
            digest_header(username, password, realm, nonce, qop, uri, method, opaque, cnonce),
            ", qop=auth, nc=00000001, cnonce=\"".spec_bytes() + hex32(cnonce) + seq![34u8],
        ),
        contains_bytes(qop, "auth".spec_bytes()) ==> contains_bytes(
            digest_header(username, password, realm, nonce, qop, uri, method, opaque, cnonce),
            "\", response=\"".spec_bytes() + hex_lower(
                md5_digest(
                    hex_lower(md5_digest(username + seq![58u8] + realm + seq![58u8] + password)) + seq![58u8] + nonce
                        + seq![58u8] + "00000001".spec_bytes() + seq![58u8] + hex32(cnonce) + seq![58u8]
                        + "auth".spec_bytes() + seq![58u8] + hex_lower(md5_digest(method + seq![58u8] + uri)),
                ),
            ) + seq![34u8],
        ),
{
    reveal_strlit("auth");
    reveal_strlit(", qop=auth, nc=");
    reveal_strlit("00000001");
    reveal_strlit(", cnonce=\"");
    reveal_strlit(", qop=auth, nc=00000001, cnonce=\"");
    vstd::string::is_ascii_spec_bytes("auth");
    vstd::string::is_ascii_spec_bytes(", qop=auth, nc=");
    vstd::string::is_ascii_spec_bytes("00000001");
    vstd::string::is_ascii_spec_bytes(", cnonce=\"");
    vstd::string::is_ascii_spec_bytes(", qop=auth, nc=00000001, cnonce=\"");
    let a = "auth".spec_bytes();
    assert(a.subrange(0, 4) =~= a);
    assert(occurs_at(a, a, 0));
    assert(!contains_bytes(Seq::<u8>::empty(), a)) by {
        assert forall|i: int| !occurs_at(Seq::<u8>::empty(), a, i) by {}
    }
    if contains_bytes(qop, a) {
        let c = seq![58u8];
        let q = seq![34u8];
        let ha1 = hex_lower(md5_digest(username + c + realm + c + password));
        let ha2 = hex_lower(md5_digest(method + c + uri));
        let nc = "00000001".spec_bytes();
        let response = hex_lower(md5_digest(ha1 + c + nonce + c + nc + c + hex32(cnonce) + c + a + c + ha2));
        let p1 = "Digest username=\"".spec_bytes() + username + "\", realm=\"".spec_bytes() + realm
            + "\", nonce=\"".spec_bytes() + nonce + "\", uri=\"".spec_bytes() + uri;
        let mid = "\", response=\"".spec_bytes() + response + q;
        let seg = ", qop=auth, nc=".spec_bytes() + nc + ", cnonce=\"".spec_bytes() + hex32(cnonce) + q;
        let tail = match opaque {
            Some(o) => ", opaque=\"".spec_bytes() + o + q,
            None => Seq::empty(),
        };
        let h = digest_header(username, password, realm, nonce, qop, uri, method, opaque, cnonce);
        assert(h =~= p1 + mid + seg + tail);
        assert(seg =~= ", qop=auth, nc=00000001, cnonce=\"".spec_bytes() + hex32(cnonce) + q);
        assert(h =~= (p1 + mid) + seg + tail);
        lemma_occurs_in_middle(p1 + mid, seg, tail);
        assert(h =~= p1 + mid + (seg + tail));
        lemma_occurs_in_middle(p1, mid, seg + tail);
    }
}

} // verus!
