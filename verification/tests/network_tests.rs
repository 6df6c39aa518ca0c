use flowstation::websocket::{
    basic_auth_header, FrameAction, FrameKind,
    build_digest_response, digest_challenge, digest_param, digest_response_with_cnonce, extract_endpoint, hex32_of,
    first_answer, http_status, md5_hex, parse_digest_challenge, second_answer, AuthError, AuthNext, Heartbeat,
    HttpStatus,
};

fn md5_ref(s: &str) -> String {
    format!("{:x}", md5::compute(s.as_bytes()))
}

#[test]
fn md5_hex_matches_known_digests() {
    assert_eq!(md5_hex(b""), b"d41d8cd98f00b204e9800998ecf8427e".to_vec());
    assert_eq!(md5_hex(b"abc"), b"900150983cd24fb0d6963f7d28e17f72".to_vec());
}

#[test]
fn hex32_pads_to_eight_digits() {
    assert_eq!(hex32_of(0x1a2b), b"00001a2b".to_vec());
    assert_eq!(hex32_of(999_999_999), b"3b9ac9ff".to_vec());
}

#[test]
fn digest_challenge_is_parsed() {
    let p = parse_digest_challenge("Digest realm=\"brew\", NONCE=\"abc123\",qop=\"auth\", opaque=\"xyz\", junk, realm=\"second\"");
    assert_eq!(p.len(), 5);
    assert_eq!(p[0], ("realm".to_string(), "brew".to_string()));
    assert_eq!(p[1], ("nonce".to_string(), "abc123".to_string()));
    assert_eq!(digest_param(&p, "qop"), Some("auth".to_string()));
    assert_eq!(digest_param(&p, "realm"), Some("second".to_string()));
    assert_eq!(digest_param(&p, "missing"), None);
    let bare = parse_digest_challenge("a=1");
    assert_eq!(bare, vec![("a".to_string(), "1".to_string())]);
}

#[test]
fn digest_challenge_trims_unicode_white_space_and_lowercases() {
    // A no-break space and an ideographic space around a part are trimmed as `str::trim`
    // does; a non-ASCII capital in a key is lowercased as `str::to_lowercase` does.
    let p = parse_digest_challenge("Digest \u{a0}REALM\u{3000}=\u{2003}\"x y\" ,ÉTAG=1");
    assert_eq!(p, vec![("realm".to_string(), "x y".to_string()), ("étag".to_string(), "1".to_string())]);
}

#[test]
fn digest_response_follows_rfc2617() {
    let r = digest_response_with_cnonce("u", "p", "realm", "n1", "auth", "/ws", "GET", Some("op"), 0x1f);
    let ha1 = md5_ref("u:realm:p");
    let ha2 = md5_ref("GET:/ws");
    let resp = md5_ref(&format!("{}:n1:00000001:0000001f:auth:{}", ha1, ha2));
    let expected = format!(
        "Digest username=\"u\", realm=\"realm\", nonce=\"n1\", uri=\"/ws\", response=\"{}\", qop=auth, nc=00000001, cnonce=\"0000001f\", opaque=\"op\"",
        resp
    );
    assert_eq!(String::from_utf8(r).unwrap(), expected);
    let plain = digest_response_with_cnonce("u", "p", "realm", "n1", "", "/ws", "GET", None, 5);
    let resp2 = md5_ref(&format!("{}:n1:{}", ha1, ha2));
    assert_eq!(
        String::from_utf8(plain).unwrap(),
        format!("Digest username=\"u\", realm=\"realm\", nonce=\"n1\", uri=\"/ws\", response=\"{}\"", resp2)
    );
    let timed = String::from_utf8(build_digest_response("u", "p", "realm", "n1", "auth", "/ws", "GET", None)).unwrap();
    assert!(timed.starts_with("Digest username=\"u\""));
    assert!(timed.contains(", qop=auth, nc=00000001, cnonce=\""));
}

#[test]
fn endpoint_is_read_from_body() {
    assert_eq!(extract_endpoint(b"HTTP/1.1 200 OK\r\nX: y\r\n\r\n  /brew/abc \r\n").unwrap(), b"/brew/abc".to_vec());
    assert!(matches!(extract_endpoint(b"HTTP/1.1 200 OK\r\n\r\nnope"), Err(AuthError::InvalidEndpoint(e)) if e == b"nope".to_vec()));
    assert!(matches!(extract_endpoint(b"HTTP/1.1 200 OK\r\n"), Err(AuthError::NoBody)));
}

#[test]
fn status_and_challenge_of_answers() {
    let ok = http_status(b"HTTP/1.1 200 OK\r\nA: b\r\n\r\n/x");
    assert_eq!(ok.0, b"HTTP/1.1 200 OK".to_vec());
    assert_eq!(ok.1, HttpStatus::Success);
    let un = b"HTTP/1.1 401 Unauthorized\r\nServer: s\r\nwww-Authenticate:  Digest realm=\"r\"\r\n\r\n";
    assert_eq!(http_status(un).1, HttpStatus::Unauthorized);
    assert_eq!(digest_challenge(un).unwrap(), b"Digest realm=\"r\"".to_vec());
    assert_eq!(http_status(b"HTTP/1.1 500 Oops").1, HttpStatus::Other);
    assert!(matches!(digest_challenge(b"HTTP/1.1 401\r\nA: b\r\n"), Err(AuthError::NoChallenge)));
    assert!(matches!(digest_challenge(b"HTTP/1.1 401\r\nWWW-Authenticate\r\n"), Err(AuthError::MalformedChallenge)));
    assert!(matches!(digest_challenge(b"HTTP/1.1 401\r\nWWW-Authenticate: Basic x\r\n"), Err(AuthError::UnsupportedScheme(_))));
}

#[test]
fn heartbeat_pings_and_times_out() {
    let mut hb = Heartbeat::new(1000);
    assert!(!hb.ping_due(5999, 5000));
    assert!(hb.ping_due(6000, 5000));
    let id = hb.next_ping();
    assert_eq!(id, 1);
    hb.ping_sent(id, 6000);
    assert_eq!(hb.last_ping_id, Some(1));
    assert!(!hb.ping_due(10999, 5000));
    assert!(!hb.timed_out(10999, 10000));
    assert!(hb.timed_out(11000, 10000));
    hb.activity(11000);
    assert!(!hb.timed_out(11000, 10000));
    hb.ping_seq = u64::MAX;
    assert_eq!(hb.next_ping(), 0);
}

#[test]
fn discovery_answers_lead_on() {
    let ok = b"HTTP/1.1 200 OK\r\nContent-Length: 5\r\n\r\n/ws/1\r\n";
    assert!(matches!(first_answer(ok, false), Ok(AuthNext::Endpoint(p)) if p == b"/ws/1".to_vec()));
    let chal = b"HTTP/1.1 401 Unauthorized\r\nWWW-Authenticate: Digest realm=\"r\"\r\n\r\n";
    assert!(matches!(first_answer(chal, true), Ok(AuthNext::Challenge(c)) if c == b"Digest realm=\"r\"".to_vec()));
    assert!(matches!(first_answer(chal, false), Err(AuthError::NoCredentials)));
    let basic = b"HTTP/1.1 401 Unauthorized\r\nWWW-Authenticate: Basic\r\n\r\n";
    assert!(matches!(first_answer(basic, true), Err(AuthError::UnsupportedScheme(_))));
    let moved = b"HTTP/1.1 302 Found\r\n\r\n";
    assert!(matches!(first_answer(moved, true), Err(AuthError::UnexpectedStatus(l)) if l == b"HTTP/1.1 302 Found".to_vec()));
    assert!(matches!(second_answer(ok), Ok(p) if p == b"/ws/1".to_vec()));
    assert!(matches!(second_answer(chal), Err(AuthError::AuthenticationFailed(l)) if l == b"HTTP/1.1 401 Unauthorized".to_vec()));
}

#[test]
fn basic_authorization_is_base64_of_user_and_password() {
    assert_eq!(basic_auth_header("user", "pass"), "Basic dXNlcjpwYXNz");
    assert_eq!(basic_auth_header("Aladdin", "open sesame"), "Basic QWxhZGRpbjpvcGVuIHNlc2FtZQ==");
    assert_eq!(basic_auth_header("a", "b"), "Basic YTpi");
    assert_eq!(basic_auth_header("", ""), "Basic Og==");
}

#[test]
fn received_frames_are_decided() {
    let mut hb = Heartbeat::new(0);
    assert_eq!(hb.on_frame(FrameKind::Binary, 10), FrameAction::Deliver);
    assert_eq!(hb.last_activity_ms, 10);
    assert_eq!(hb.on_frame(FrameKind::Ping, 20), FrameAction::AnswerPong);
    assert_eq!(hb.on_frame(FrameKind::Pong, 30), FrameAction::Continue);
    assert_eq!(hb.last_activity_ms, 30);
    assert_eq!(hb.on_frame(FrameKind::Other, 40), FrameAction::Continue);
    assert_eq!(hb.on_frame(FrameKind::NoData, 50), FrameAction::StopReading);
    assert_eq!(hb.on_frame(FrameKind::Close, 60), FrameAction::Disconnect);
    assert_eq!(hb.on_frame(FrameKind::Error, 70), FrameAction::Disconnect);
    assert_eq!(hb.last_activity_ms, 30);
}
