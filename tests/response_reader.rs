use std::io::Write;

use request_smuggler::reader::{ReadStep, ResponseReader};
use request_smuggler::structs::Response;

/// Reads one response from `streams[0]`, moving to the next stream when the
/// reader asks for the request to be sent again. Returns the response, the
/// number of bytes consumed before the time was taken (if it was), and
/// whether the read completed.
fn read(streams: &[&[u8]]) -> (Response, Option<usize>, bool) {
    let mut which = 0;
    let mut pos = 0;
    let mut marked = None;
    let mut reader = ResponseReader::new();
    loop {
        let mark = match reader.next_step() {
            ReadStep::Byte => {
                let b = streams[which].get(pos).copied().unwrap_or(0);
                pos += 1;
                reader.push_byte(b)
            }
            ReadStep::Exact(n) => {
                let s = streams[which];
                if pos + n > s.len() {
                    return (reader.finish(99), marked, false);
                }
                let m = reader.push_bytes(&s[pos..pos + n]);
                pos += n;
                m
            }
            ReadStep::Resend => {
                which += 1;
                pos = 0;
                reader.resent();
                false
            }
            ReadStep::Done => break,
        };
        if mark && marked.is_none() {
            marked = Some(pos);
        }
    }
    let complete = reader.is_complete();
    (reader.finish(7), marked, complete)
}

#[test]
fn reads_a_fixed_length_response() {
    let raw = b"HTTP/1.1 200 OK\r\nContent-Length: 5\r\nConnection: keep-alive\r\n\r\nhelloEXTRA";
    let (r, marked, complete) = read(&[raw]);
    assert!(complete);
    assert_eq!(r.code, 200);
    assert_eq!(r.body, "hello");
    assert_eq!(r.time, 7);
    assert_eq!(r.headers.get("connection").unwrap(), " keep-alive");
    let head = raw.len() - "helloEXTRA".len();
    assert_eq!(marked, Some(head + 1));
    assert!(!r.is_closed());
}

#[test]
fn reads_a_short_body_at_once() {
    let raw = b"HTTP/1.1 200 OK\r\nContent-Length: 3\r\n\r\nabc";
    let (r, marked, _) = read(&[raw]);
    assert_eq!(r.body, "abc");
    assert_eq!(marked, Some(raw.len()));
}

#[test]
fn reads_a_chunked_response() {
    let raw = b"HTTP/1.1 200 OK\r\nTransfer-Encoding: chunked\r\n\r\n4\r\nWiki\r\n5\r\npedia\r\n0\r\n\r\n";
    let (r, marked, complete) = read(&[raw]);
    assert!(complete);
    assert_eq!(r.body, "Wikipedia");
    let head = raw.iter().position(|&b| b == b'4').unwrap();
    assert_eq!(marked, Some(head + 1));
}

#[test]
fn reads_a_gzip_body() {
    let mut e = flate2::write::GzEncoder::new(Vec::new(), flate2::Compression::default());
    e.write_all(b"zipped").unwrap();
    let z = e.finish().unwrap();
    let mut raw = format!("HTTP/1.1 200 OK\r\nContent-Encoding: gzip\r\nContent-Length: {}\r\n\r\n", z.len()).into_bytes();
    raw.extend_from_slice(&z);
    let (r, _, complete) = read(&[&raw]);
    assert!(complete);
    assert_eq!(r.body, "zipped");
}

#[test]
fn bodiless_response_is_timed_at_its_headers() {
    let raw = b"HTTP/1.0 204 No Content\r\nServer: x\r\n\r\n";
    let (r, marked, complete) = read(&[raw]);
    assert!(complete);
    assert_eq!(r.code, 204);
    assert_eq!(r.body, "");
    assert_eq!(marked, Some(raw.len()));
    assert!(r.is_closed());
}

#[test]
fn empty_status_line_is_sent_again_once() {
    let (r, _, complete) = read(&[b"", b"HTTP/1.1 404 Not Found\r\nContent-Length: 0\r\n\r\n"]);
    assert!(complete);
    assert_eq!(r.code, 404);
    let (r, _, complete) = read(&[b"", b""]);
    assert!(!complete);
    assert_eq!((r.code, r.http_version.as_str()), (0, "HTTP/0.0"));
}

#[test]
fn broken_responses_give_the_failed_response() {
    let (r, _, complete) = read(&[b"HTTP/1.1 200 OK\r\nContent-Length: nope\r\n\r\nbody"]);
    assert!(!complete);
    assert_eq!(r.code, 0);
    assert_eq!(r.headers.get("content-length").unwrap(), " nope");
    let (r, _, complete) = read(&[b"HTTP/1.1 200 OK\r\nTransfer-Encoding: chunked\r\n\r\nxyz\r\nabc"]);
    assert!(!complete);
    assert_eq!(r.code, 0);
    let (r, _, complete) = read(&[b"HTTP/1.1 200 OK\r\nContent-Length: 10\r\n\r\nshort"]);
    assert!(!complete);
    assert_eq!((r.code, r.time), (0, 99));
    let (r, _, _) = read(&[b"HTTP/1.1 200 OK\r\nA: \xff\r\n\r\n"]);
    assert_eq!(r.code, 0);
    assert_eq!(r.headers.len(), 0);
}

#[test]
fn zero_size_chunk_in_any_spelling_ends_the_body() {
    let raw = b"HTTP/1.1 200 OK\r\nTransfer-Encoding: chunked\r\n\r\n2\r\nok\r\n000\r\n\r\n5\r\nextra\r\n";
    let (r, _, complete) = read(&[raw]);
    assert!(complete);
    assert_eq!(r.body, "ok");
}

#[test]
fn chunked_body_cut_short_is_not_complete() {
    let (r, _, complete) = read(&[b"HTTP/1.1 200 OK\r\nTransfer-Encoding: chunked\r\n\r\n5\r\nab"]);
    assert!(!complete);
    assert_eq!(r.code, 0);
    let (r, _, complete) = read(&[b"HTTP/1.1 200 OK\r\nTransfer-Encoding: chunked\r\n\r\n2\r\nok\r\n"]);
    assert!(!complete);
    assert_eq!(r.http_version, "HTTP/0.0");
}

#[test]
fn long_status_line_is_cut_at_512_bytes() {
    let mut raw = vec![b'H'; 600];
    raw.extend_from_slice(b"\r\n\r\n");
    let (r, _, complete) = read(&[&raw]);
    assert!(complete);
    assert_eq!(r.http_version.len(), 512);
}
