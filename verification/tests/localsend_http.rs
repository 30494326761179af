use epochoxide::localsend::cert::fingerprint_of_der;
use epochoxide::localsend::http::{
    answer, decode_hex, dechunk, parse_response, request_bytes, Endpoint, PinnedFingerprint,
};

#[test]
fn a_fingerprint_can_be_written_with_or_without_separators() {
    assert_eq!(decode_hex("00ff10").unwrap(), vec![0, 255, 16]);
    assert_eq!(decode_hex("00:FF:10").unwrap(), vec![0, 255, 16]);
}

#[test]
fn an_unusable_fingerprint_is_refused_rather_than_ignored() {
    assert!(decode_hex("abc").is_none());
    assert!(decode_hex("zz").is_none());
    assert!(PinnedFingerprint::new("nonsense!").is_err());
}

#[test]
fn a_fingerprint_with_letters_beyond_ascii_is_refused() {
    assert!(decode_hex("aéb").is_none());
    assert!(decode_hex("é").is_none());
    assert_eq!(decode_hex("+f").unwrap(), vec![15]);
    assert_eq!(
        PinnedFingerprint::new("abc").unwrap_err(),
        "device announced an unreadable fingerprint"
    );
}

#[test]
fn a_pin_accepts_only_the_certificate_it_was_made_for() {
    let pin = PinnedFingerprint::new(&fingerprint_of_der(b"certificate")).unwrap();
    assert!(pin.accepts(b"certificate"));
    assert!(!pin.accepts(b"another"));
}

#[test]
fn a_status_line_and_body_are_split_apart() {
    let raw = b"HTTP/1.1 200 OK\r\nContent-Length: 2\r\n\r\n{}";
    let (status, body) = parse_response(raw).unwrap();
    assert_eq!(status, 200);
    assert_eq!(body, b"{}");
}

#[test]
fn a_chunked_body_is_unwrapped() {
    let raw = b"HTTP/1.1 200 OK\r\nTransfer-Encoding: chunked\r\n\r\n5\r\nhello\r\n0\r\n\r\n";
    let (status, body) = parse_response(raw).unwrap();
    assert_eq!(status, 200);
    assert_eq!(body, b"hello");
}

#[test]
fn a_chunked_body_arriving_in_several_chunks_is_joined() {
    let raw = b"HTTP/1.1 200 OK\r\ntransfer-encoding: chunked\r\n\r\n3\r\nabc\r\n2\r\nde\r\n0\r\n\r\n";
    let (_, body) = parse_response(raw).unwrap();
    assert_eq!(body, b"abcde");
}

#[test]
fn a_content_length_body_is_left_alone() {
    let raw = b"HTTP/1.1 200 OK\r\nContent-Length: 5\r\n\r\nhello";
    let (_, body) = parse_response(raw).unwrap();
    assert_eq!(body, b"hello");
}

#[test]
fn a_response_with_no_header_break_is_an_error() {
    assert!(parse_response(b"HTTP/1.1 200 OK").is_err());
    assert_eq!(
        parse_response(b"HTTP/1.1 200 OK").unwrap_err(),
        "malformed response from device"
    );
    assert_eq!(
        parse_response(b"HTTP/1.1\r\n\r\n").unwrap_err(),
        "device sent no status line"
    );
}

#[test]
fn chunks_may_carry_extensions_or_be_cut_short() {
    assert_eq!(dechunk(b"5;name=x\r\nhello\r\n0\r\n\r\n").unwrap(), b"hello");
    assert_eq!(dechunk(b"ff\r\nabc").unwrap(), b"abc");
    assert_eq!(
        dechunk(b"zz\r\nabc").unwrap_err(),
        "device sent an unreadable chunk size \"zz\""
    );
    assert_eq!(dechunk(b"nothing").unwrap(), b"");
}

#[test]
fn the_transfer_encoding_is_read_in_any_case() {
    let raw = b"HTTP/1.1 200 OK\r\nTRANSFER-ENCODING: gzip, CHUNKED\r\n\r\n1\r\na\r\n0\r\n\r\n";
    assert_eq!(parse_response(raw).unwrap().1, b"a");
}

#[test]
fn only_a_success_is_an_answer() {
    assert_eq!(answer(b"HTTP/1.1 204 No\r\n\r\n").unwrap(), b"");
    assert_eq!(
        answer(b"HTTP/1.1 403 No\r\n\r\n rejected \n").unwrap_err(),
        "device answered HTTP 403: rejected"
    );
    assert_eq!(
        answer(b"HTTP/1.1 500 No\r\n\r\n").unwrap_err(),
        "device answered HTTP 500"
    );
    assert_eq!(
        answer(b"HTTP/1.1 500 No\r\n\r\n\xff").unwrap_err(),
        "device answered HTTP 500: \u{fffd}"
    );
}

#[test]
fn a_request_carries_its_length() {
    let endpoint = Endpoint {
        host: "10.0.0.2".to_string(),
        port: 53317,
        https: true,
        fingerprint: String::new(),
    };
    let expected = b"POST /p HTTP/1.1\r\nHost: 10.0.0.2\r\nContent-Type: text/plain\r\nContent-Length: 3\r\nConnection: close\r\n\r\nabc";
    assert_eq!(endpoint.post("/p", "text/plain", b"abc"), expected);
    assert_eq!(request_bytes("/p", "10.0.0.2", "text/plain", b"abc"), expected);
}
