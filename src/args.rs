//! The parts of building a configuration that decide something: default
//! headers and the default port.
use vstd::prelude::*;
use vstd::string::*;

use crate::structs::{find_header, put_header, HeaderSeq, Headers};
use crate::utils::USER_AGENT;

verus! {

/// `h` with `k` set to `v` where no entry is named `k`; unchanged otherwise.
pub open spec fn put_absent(h: HeaderSeq, k: Seq<char>, v: Seq<char>) -> HeaderSeq {
    if find_header(h, k) is Some {
        h
    } else {
        put_header(h, k, v)
    }
}

/// The headers with the defaults filled in where their names are absent: a
/// user agent, the host, `Accept: */*` and `Accept-Encoding: gzip`.
pub open spec fn with_defaults(h: HeaderSeq, host: Seq<char>) -> HeaderSeq {
    put_absent(
        put_absent(put_absent(put_absent(h, "User-Agent"@, USER_AGENT@), "Host"@, host), "Accept"@, "*/*"@),
        "Accept-Encoding"@,
        "gzip"@,
    )
}

fn set_absent(h: &mut Headers, name: &str, value: &str)
    ensures
        final(h)@ == put_absent(old(h)@, name@, value@),
{
    if h.get(name).is_none() {
        h.insert(String::from_str(name), String::from_str(value));
    }
}

/// `headers` with the default headers added for `host`.
pub fn effective_headers(headers: Headers, host: &str) -> (r: Headers)
    ensures
        r@ == with_defaults(headers@, host@),
{
    let mut h = headers;
    set_absent(&mut h, "User-Agent", USER_AGENT);
    set_absent(&mut h, "Host", host);
    set_absent(&mut h, "Accept", "*/*");
    set_absent(&mut h, "Accept-Encoding", "gzip");
    h
}

/// The port to connect to: the one the URL names, else 443 for TLS and 80
/// otherwise.
pub fn target_port(https: bool, port: Option<u16>) -> (r: usize)
    ensures
        r == match port {
            Some(p) => p as usize,
            None => if https {
                443usize
            } else {
                80usize
            },
        },
{
    match port {
        Some(p) => p as usize,
        None => if https {
            443
        } else {
            80
        },
    }
}

} // verus!
