use sstp_proto::http::{build_request, parse_response, read_head, ParseError};

#[test]
fn request_matches_reference_shape() {
    let req = build_request("vpn.example.com:8443", "11111111-2222-3333-4444-555555555555");
    let text = String::from_utf8(req).unwrap();
    assert!(text.starts_with("SSTP_DUPLEX_POST /sra_{BA195980-CD49-458b-9E23-C84EE0ADCD75}/ HTTP/1.1\r\n"));
    assert!(text.contains("Host: vpn.example.com:8443\r\n"));
    assert!(text.contains("Content-Length: 18446744073709551615\r\n"));
    assert!(text.contains("SSTPCORRELATIONID: {11111111-2222-3333-4444-555555555555}\r\n"));
    assert!(text.ends_with("\r\n\r\n"));
}

#[test]
fn parses_successful_response_and_finds_body_offset() {
    let response = b"HTTP/1.1 200 OK\r\nServer: Microsoft-HTTPAPI/2.0\r\nDate: Sat, 19 Feb 2011 02:13:44 GMT\r\n\r\nBINARY-SSTP-BYTES";
    let (code, offset) = parse_response(response).unwrap();
    assert_eq!(code, 200);
    assert_eq!(&response[offset..], b"BINARY-SSTP-BYTES");
}

#[test]
fn status_line_without_reason_phrase_still_parses() {
    let response = b"HTTP/1.1 200\r\n\r\n";
    let (code, _) = parse_response(response).unwrap();
    assert_eq!(code, 200);
}

#[test]
fn incomplete_headers_ask_for_more_bytes() {
    assert_eq!(parse_response(b"HTTP/1.1 200 OK\r\nServer: x"), Err(ParseError::Incomplete));
    assert_eq!(parse_response(b""), Err(ParseError::Incomplete));
}

#[test]
fn non_200_status_is_a_distinct_error() {
    let response = b"HTTP/1.1 401 Unauthorized\r\n\r\n";
    assert_eq!(parse_response(response), Err(ParseError::NonSuccessStatus(401)));
}

#[test]
fn garbage_status_line_is_a_distinct_error() {
    let response = b"NOT-HTTP AT ALL\r\n\r\n";
    assert!(matches!(parse_response(response), Err(ParseError::BadStatusLine(_))));
}

#[test]
fn request_is_exact() {
    let text = String::from_utf8(build_request("h:1", "u")).unwrap();
    assert_eq!(
        text,
        "SSTP_DUPLEX_POST /sra_{BA195980-CD49-458b-9E23-C84EE0ADCD75}/ HTTP/1.1\r\nHost: h:1\r\nContent-Length: 18446744073709551615\r\nSSTPCORRELATIONID: {u}\r\n\r\n"
    );
}

#[test]
fn status_codes_are_read_like_numbers() {
    assert_eq!(parse_response(b"HTTP/1.1 +200 x\r\n\r\n"), Ok((200, 19)));
    assert_eq!(parse_response(b"HTTP/1.1 00200\r\n\r\n"), Ok((200, 18)));
    assert_eq!(parse_response(b"HTTP/ 65535\r\n\r\n"), Err(ParseError::NonSuccessStatus(65535)));
    let bad = |line: &str| Err(ParseError::BadStatusLine(line.to_string()));
    assert_eq!(parse_response(b"HTTP/1.1 65536\r\n\r\n"), bad("HTTP/1.1 65536"));
    assert_eq!(parse_response(b"HTTP/1.1  200\r\n\r\n"), bad("HTTP/1.1  200"));
    assert_eq!(parse_response(b"HTTP/1.1 +\r\n\r\n"), bad("HTTP/1.1 +"));
    assert_eq!(parse_response(b"HTTP/1.1 -200\r\n\r\n"), bad("HTTP/1.1 -200"));
    assert_eq!(parse_response(b"HTTP/1.1\r\n\r\n"), bad("HTTP/1.1"));
    assert_eq!(parse_response(b"http/1.1 200\r\n\r\n"), bad("http/1.1 200"));
    assert_eq!(parse_response(b"\r\n\r\nHTTP/1.1 200\r\n\r\n"), bad(""));
}

#[test]
fn only_the_first_line_is_the_status_line() {
    assert_eq!(parse_response(b"HTTP/1.1 200\nHost: x\r\n\r\n"), Ok((200, 24)));
    assert_eq!(
        parse_response(b"HTTP/1.1 200\rX\r\n\r\n"),
        Err(ParseError::BadStatusLine("HTTP/1.1 200\rX".to_string()))
    );
}

#[test]
fn bytes_that_are_no_text_are_read_all_the_same() {
    assert_eq!(parse_response(b"HTTP/1.1 200 \xff\xfe\r\n\r\n"), Ok((200, 19)));
    assert_eq!(
        parse_response(b"\xff\r\n\r\n"),
        Err(ParseError::BadStatusLine("\u{FFFD}".to_string()))
    );
}

#[test]
fn headers_end_at_the_first_blank_line() {
    let response = b"HTTP/1.1 200 OK\r\n\r\n\r\n\r\n";
    assert_eq!(parse_response(response), Ok((200, 19)));
    for cut in 0..19 {
        assert_eq!(parse_response(&response[..cut]), Err(ParseError::Incomplete));
    }
}

#[test]
fn parse_errors_have_their_words() {
    assert_eq!(ParseError::Incomplete.message(), "Incomplete");
    assert_eq!(ParseError::NonSuccessStatus(401).message(), "NonSuccessStatus(401)");
    assert_eq!(
        ParseError::BadStatusLine("a\"b\n".to_string()).message(),
        "BadStatusLine(\"a\\\"b\\n\")"
    );
}

#[test]
fn head_is_judged_by_its_text() {
    assert_eq!(read_head("HTTP/1.1 200 OK\r\nServer: x", 27), Ok((200, 31)));
    assert_eq!(read_head("HTTP/1.1 500", 12), Err(ParseError::NonSuccessStatus(500)));
    assert_eq!(read_head("", 0), Err(ParseError::BadStatusLine(String::new())));
}
