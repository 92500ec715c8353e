use std::io::Write;

use request_smuggler::chunked::{decode_chunked, ChunkError, ChunkPhase, ChunkedDecoder};
use request_smuggler::raw_requests::{
    body_framing, build_response, decode_body, first_read_len, needs_resend, parse_decimal,
    parse_headers, parse_status_line, status_fields, Framing, LineScanner,
};
use request_smuggler::structs::{closes_with, Headers, Response};

fn scan(mut s: LineScanner, input: &[u8]) -> Vec<u8> {
    for &b in input {
        if s.push(b) {
            break;
        }
    }
    s.into_bytes()
}

fn response(version: &str, connection: Option<&str>) -> Response {
    let mut h = Headers::new();
    if let Some(c) = connection {
        h.insert(String::from("connection"), String::from(c));
    }
    Response { time: 0, code: 200, http_version: String::from(version), headers: h, body: String::new() }
}

fn gzip(text: &str) -> Vec<u8> {
    let mut e = flate2::write::GzEncoder::new(Vec::new(), flate2::Compression::default());
    e.write_all(text.as_bytes()).unwrap();
    e.finish().unwrap()
}

#[test]
fn status_line_stops_after_crlf() {
    let line = scan(LineScanner::status_line(), b"HTTP/1.1 200 OK\r\nServer: x\r\n");
    assert_eq!(line, b"HTTP/1.1 200 OK\r\n");
}

#[test]
fn status_line_ignores_early_line_ends() {
    let line = scan(LineScanner::status_line(), b"\r\nHTTP/1.1 204 No\r\nX");
    assert_eq!(line, b"\r\nHTTP/1.1 204 No\r\n");
}

#[test]
fn status_line_stops_at_zero_byte_and_cap() {
    assert_eq!(scan(LineScanner::status_line(), b"\0HTTP"), b"\0");
    let long = vec![b'a'; 600];
    assert_eq!(scan(LineScanner::status_line(), &long).len(), 512);
    assert!(needs_resend(b"\0"));
    assert!(!needs_resend(b"HT"));
}

#[test]
fn header_block_stops_at_blank_line() {
    let block = scan(LineScanner::header_block(), b"A: b\r\nC: d\r\n\r\nbody");
    assert_eq!(block, b"A: b\r\nC: d\r\n\r\n");
    let mut s = LineScanner::header_block();
    assert!(!s.is_done());
    s.push(b'x');
    assert!(!s.is_done());
}

#[test]
fn status_line_fields() {
    assert_eq!(parse_status_line(b"HTTP/1.1 404 Not Found\r\n"), (String::from("HTTP/1.1"), 404));
    assert_eq!(parse_status_line(b"HTTP/1.0 +200\r\n"), (String::from("HTTP/1.0"), 200));
    assert_eq!(parse_status_line(b"garbage"), (String::from("garbage"), 0));
    assert_eq!(parse_status_line(b"HTTP/1.1 99999 X"), (String::from("HTTP/1.1"), 0));
    assert_eq!(parse_status_line(b"HTTP/1.1 abc X"), (String::from("HTTP/1.1"), 0));
    let (v, _) = parse_status_line(b"HT\xffTP 200");
    assert_eq!(v, "HT\u{fffd}TP");
}

#[test]
fn decimal_numbers() {
    assert_eq!(parse_decimal("42"), Some(42));
    assert_eq!(parse_decimal("+7"), Some(7));
    assert_eq!(parse_decimal(""), None);
    assert_eq!(parse_decimal("+"), None);
    assert_eq!(parse_decimal("-1"), None);
    assert_eq!(parse_decimal("1 2"), None);
    assert_eq!(parse_decimal("99999999999999999999999"), None);
}

#[test]
fn headers_are_lowercased_and_last_wins() {
    let h = parse_headers(b"Content-Type: a\r\nX-Thing: 1\r\nno colon here\r\ncontent-type: b\r\nLocation: http://x/y\r\n\r\n").unwrap();
    assert_eq!(h.len(), 3);
    assert_eq!(h.get("content-type").unwrap(), " b");
    assert_eq!(h.get("x-thing").unwrap(), " 1");
    assert_eq!(h.get("location").unwrap(), " http://x/y");
    assert!(h.get("Content-Type").is_none());
}

#[test]
fn headers_must_be_utf8() {
    assert!(parse_headers(b"A: \xff\xfe\r\n\r\n").is_none());
    assert_eq!(parse_headers(b"\r\n\r\n").unwrap().len(), 0);
}

#[test]
fn framing_follows_header_precedence() {
    let mut h = Headers::new();
    assert!(matches!(body_framing(&h), Framing::Bodiless));
    h.insert(String::from("transfer-encoding"), String::from(" gzip, chunked"));
    assert!(matches!(body_framing(&h), Framing::Chunked));
    h.insert(String::from("content-length"), String::from(" 1 2 "));
    assert!(matches!(body_framing(&h), Framing::Length(12)));
    h.insert(String::from("content-length"), String::from("x"));
    assert!(matches!(body_framing(&h), Framing::Invalid));
    let mut g = Headers::new();
    g.insert(String::from("transfer-encoding"), String::from("identity"));
    assert!(matches!(body_framing(&g), Framing::Bodiless));
    assert_eq!(first_read_len(10), 1);
    assert_eq!(first_read_len(3), 3);
    assert_eq!(first_read_len(0), 0);
}

#[test]
fn chunked_round_trip() {
    let data = b"hello, world and more".to_vec();
    let mut enc = Vec::new();
    for part in data.chunks(5) {
        enc.extend_from_slice(format!("{:x}\r\n", part.len()).as_bytes());
        enc.extend_from_slice(part);
        enc.extend_from_slice(b"\r\n");
    }
    enc.extend_from_slice(b"0\r\n\r\n");
    assert_eq!(decode_chunked(&enc), Ok(data));
}

#[test]
fn chunked_zero_chunk_ends_decoding() {
    assert_eq!(decode_chunked(b"3\r\nabc\r\n0\r\n\r\n1\r\nz\r\n"), Ok(b"abc".to_vec()));
    assert_eq!(decode_chunked(b"A\r\n0123456789\r\n0\r\n"), Ok(b"0123456789".to_vec()));
    assert_eq!(decode_chunked(b"2\r\nab\r\n000\r\n3\r\nxyz"), Ok(b"ab".to_vec()));
}

#[test]
fn chunked_bad_size_is_an_error() {
    assert_eq!(decode_chunked(b"zz\r\nabc\r\n0\r\n\r\n"), Err(ChunkError::BadSize));
    assert_eq!(decode_chunked(b"-1\r\nabc"), Err(ChunkError::BadSize));
}

#[test]
fn chunked_truncated_input_is_an_error() {
    assert_eq!(decode_chunked(b"5\r\nab"), Err(ChunkError::Truncated));
    assert_eq!(decode_chunked(b""), Err(ChunkError::Truncated));
}

#[test]
fn chunked_decoder_reports_phases() {
    let mut d = ChunkedDecoder::new();
    d.push(b'\r');
    assert_eq!(d.phase(), ChunkPhase::Start);
    d.push(b'2');
    assert_eq!(d.phase(), ChunkPhase::Size);
    d.push_all(b"\r\n");
    assert_eq!(d.phase(), ChunkPhase::Data(2));
    d.push_all(b"ok\r\n0\r\n");
    assert_eq!(d.phase(), ChunkPhase::Done);
    assert_eq!(d.finish(), Ok(b"ok".to_vec()));
}

#[test]
fn gzip_bodies_are_decompressed() {
    let z = gzip("compressed text");
    assert_eq!(decode_body(" gzip ", &z), "compressed text");
    assert_eq!(decode_body("gzip", b"not gzip"), "not gzip");
    assert_eq!(decode_body("br", b"plain"), "plain");
}

#[test]
fn response_is_assembled() {
    let mut h = Headers::new();
    h.insert(String::from("content-encoding"), String::from("gzip"));
    let z = gzip("hi");
    let r = build_response(b"HTTP/1.1 302 Found\r\n", h, &z, 17);
    assert_eq!(r.code, 302);
    assert_eq!(r.http_version, "HTTP/1.1");
    assert_eq!(r.body, "hi");
    assert_eq!(r.time, 17);
    let f = Response::failed(9, Headers::new());
    assert_eq!((f.code, f.http_version.as_str(), f.body.as_str(), f.time), (0, "HTTP/0.0", "", 9));
}

#[test]
fn is_closed_truth_table() {
    assert!(response("HTTP/1.0", None).is_closed());
    assert!(response("HTTP/0.0", Some("keep-alive")).is_closed());
    assert!(response("HTTP/1.0", Some("close")).is_closed());
    assert!(!response("HTTP/1.1", None).is_closed());
    assert!(!response("HTTP/1.1", Some("keep-alive")).is_closed());
    assert!(response("HTTP/1.1", Some("close")).is_closed());
    assert!(response("HTTP/1.1", Some(" Close \t")).is_closed());
    assert!(response("HTTP/1.1", Some("CLOSE")).is_closed());
    assert!(!response("HTTP/1.1", Some("closed")).is_closed());
    assert!(closes_with("HTTP/2", None));
    assert!(!closes_with("HTTP/1.1", Some("keep-alive")));
}

#[test]
fn response_print_lists_headers_then_body() {
    let mut r = response("HTTP/1.1", Some("close"));
    r.headers.insert(String::from("a"), String::from("b"));
    r.body = String::from("text");
    assert_eq!(r.print(), "connection:close\na:b\n\ntext");
}

#[test]
fn status_fields_of_decoded_text() {
    assert_eq!(status_fields("HTTP/1.1  200"), (String::from("HTTP/1.1"), 0));
    assert_eq!(status_fields("HTTP/2 301 Moved"), (String::from("HTTP/2"), 301));
}

#[test]
fn header_block_stops_at_its_cap() {
    let long = vec![b'h'; 40000];
    assert_eq!(scan(LineScanner::header_block(), &long).len(), 32768);
}

#[test]
fn unicode_white_space_is_trimmed() {
    assert_eq!(status_fields("\u{a0}HTTP/1.1\u{3000} \t204\u{2009} x"), (String::from("HTTP/1.1"), 204));
    assert_eq!(status_fields("   "), (String::new(), 0));
}

#[test]
fn bad_size_after_valid_chunks_is_an_error() {
    assert_eq!(decode_chunked(b"3\r\nabc\r\nzz\r\n0\r\n\r\n"), Err(ChunkError::BadSize));
    assert_eq!(decode_chunked(b"3\r\nabc\r\n00\r\n\r\n5\r\nextra\r\n"), Ok(b"abc".to_vec()));
}
