//! Reading one HTTP response: the scanners that find the end of the status
//! line and of the header block, the parsers for both, the choice of body
//! framing, the chunked-body decoder and the assembly of the final
//! [`Response`].
use vstd::prelude::*;
use vstd::string::*;

use vstd::utf8::*;

use crate::structs::{find_header, put_header, HeaderSeq, Headers, Response};
use crate::text::{
    contains_text, is_line_end, line_end, lossy_text, text_of, lower_of, lowercase, same_text,
    strip_white,
    text_contains, trim_text, trimmed, utf8_text, without_white,
};

verus! {

/// How many line-end bytes end the run at the end of `s`, counting a line
/// end only once `count_after` bytes came before it.
pub open spec fn line_run(s: Seq<u8>, count_after: nat) -> nat
    decreases s.len(),
{
    if s.len() == 0 {
        0
    } else if is_line_end(s.last()) && s.len() - 1 >= count_after {
        line_run(s.drop_last(), count_after) + 1
    } else {
        0
    }
}

/// Whether a scanner with these settings stops after reading `s`: on a zero
/// byte, on a run of `needed` line-end bytes, or at `cap` bytes.
pub open spec fn scan_done(s: Seq<u8>, count_after: nat, needed: nat, cap: nat) -> bool {
    s.len() > 0 && (s.last() == 0 || line_run(s, count_after) == needed || s.len() >= cap)
}

/// No proper non-empty prefix of `s` stops the scan.
pub open spec fn no_earlier_stop(s: Seq<u8>, count_after: nat, needed: nat, cap: nat) -> bool {
    forall|k: int| 0 < k < s.len() ==> !#[trigger] scan_done(s.take(k), count_after, needed, cap)
}

/// `s` is where a scan with these settings stops: it stops there and at no
/// shorter prefix.
pub open spec fn first_stop(s: Seq<u8>, count_after: nat, needed: nat, cap: nat) -> bool {
    scan_done(s, count_after, needed, cap) && no_earlier_stop(s, count_after, needed, cap)
}

/// Collects bytes one at a time until the end of a status line or of a
/// header block.
pub struct LineScanner {
    bytes: Vec<u8>,
    run: usize,
    count_after: usize,
    needed: usize,
    cap: usize,
}

impl LineScanner {
    /// The bytes read so far.
    pub closed spec fn seen(&self) -> Seq<u8> {
        self.bytes@
    }

    /// Whether the scan has stopped.
    pub closed spec fn done(&self) -> bool {
        scan_done(self.bytes@, self.count_after as nat, self.needed as nat, self.cap as nat)
    }

    /// Line ends after the first four bytes.
    pub closed spec fn counts_after(&self) -> nat {
        self.count_after as nat
    }

    /// Size of the stopping run of line ends.
    pub closed spec fn needs(&self) -> nat {
        self.needed as nat
    }

    /// Most bytes read before stopping.
    pub closed spec fn limit(&self) -> nat {
        self.cap as nat
    }

    /// Internal consistency of the scanner.
    pub closed spec fn wf(&self) -> bool {
        &&& self.run == line_run(self.bytes@, self.count_after as nat)
        &&& self.run <= self.bytes@.len()
        &&& self.bytes@.len() <= self.cap
        &&& self.cap > 0
        &&& self.cap <= 32768
        &&& no_earlier_stop(
            self.bytes@,
            self.count_after as nat,
            self.needed as nat,
            self.cap as nat,
        )
    }

    /// A scanner for a status line: it stops at the second line-end byte in a
    /// row once more than four bytes were read, at a zero byte, or at 512
    /// bytes.
    pub fn status_line() -> (r: LineScanner)
        ensures
            r.wf(),
            !r.done(),
            r.seen().len() == 0,
            r.counts_after() == 5,
            r.needs() == 2,
            r.limit() == 512,
    {
        LineScanner { bytes: Vec::new(), run: 0, count_after: 5, needed: 2, cap: 512 }
    }

    /// A scanner for a header block: it stops at the fourth line-end byte in
    /// a row, at a zero byte, or at 32768 bytes.
    pub fn header_block() -> (r: LineScanner)
        ensures
            r.wf(),
            !r.done(),
            r.seen().len() == 0,
            r.counts_after() == 0,
            r.needs() == 4,
            r.limit() == 32768,
    {
        LineScanner { bytes: Vec::new(), run: 0, count_after: 0, needed: 4, cap: 32768 }
    }

    /// Takes one more byte; returns whether the scan has stopped.
    pub fn push(&mut self, b: u8) -> (r: bool)
        requires
            old(self).wf(),
            !old(self).done(),
        ensures
            final(self).wf(),
            final(self).seen() == old(self).seen().push(b),
            final(self).counts_after() == old(self).counts_after(),
            final(self).needs() == old(self).needs(),
            final(self).limit() == old(self).limit(),
            r == final(self).done(),
            r == scan_done(
                final(self).seen(),
                final(self).counts_after(),
                final(self).needs(),
                final(self).limit(),
            ),
    {
        let before = self.bytes.len();
        if line_end(b) && before >= self.count_after {
            proof {
                assert(self.bytes@.len() <= self.cap);
            }
            self.run = self.run + 1;
        } else {
            self.run = 0;
        }
        self.bytes.push(b);
        proof {
            assert(self.bytes@.drop_last() =~= old(self).bytes@);
            let s = self.bytes@;
            assert forall|k: int| 0 < k < s.len() implies !#[trigger] scan_done(
                s.take(k),
                self.count_after as nat,
                self.needed as nat,
                self.cap as nat,
            ) by {
                if k < s.len() - 1 {
                    assert(s.take(k) =~= old(self).bytes@.take(k));
                } else {
                    assert(s.take(k) =~= old(self).bytes@);
                }
            }
        }
        b == 0 || self.run == self.needed || self.bytes.len() >= self.cap
    }

    /// Whether the scan has stopped.
    pub fn is_done(&self) -> (r: bool)
        requires
            self.wf(),
        ensures
            r == self.done(),
    {
        let n = self.bytes.len();
        n > 0 && (self.bytes[n - 1] == 0 || self.run == self.needed || n >= self.cap)
    }

    /// The bytes read.
    pub fn into_bytes(self) -> (r: Vec<u8>)
        requires
            self.wf(),
        ensures
            r@ == self.seen(),
            no_earlier_stop(r@, self.counts_after(), self.needs(), self.limit()),
    {
        self.bytes
    }
}

/// Whether a status line read is degenerate (the connection closed before
/// it), so that the request is sent once more on a new connection.
pub fn needs_resend(line: &[u8]) -> (r: bool)
    ensures
        r == (line@.len() <= 1),
{
    line.len() <= 1
}

/// An ASCII decimal digit.
pub open spec fn is_digit(c: char) -> bool {
    '0' <= c && c <= '9'
}

/// The value of a run of decimal digits.
pub open spec fn digits_value(s: Seq<char>) -> nat
    decreases s.len(),
{
    if s.len() == 0 {
        0
    } else {
        digits_value(s.drop_last()) * 10 + ((s.last() as u32) - ('0' as u32)) as nat
    }
}

/// `s` without one leading `+`.
pub open spec fn unsigned_part(s: Seq<char>) -> Seq<char> {
    if s.len() > 0 && s[0] == '+' {
        s.drop_first()
    } else {
        s
    }
}

/// Every character of `d` is a decimal digit.
pub open spec fn all_digits(d: Seq<char>) -> bool {
    forall|i: int| 0 <= i < d.len() ==> is_digit(#[trigger] d[i])
}

/// The number a text spells in decimal: an optional `+`, then one or more
/// digits and nothing else.
pub open spec fn decimal_of(s: Seq<char>) -> Option<nat> {
    let d = unsigned_part(s);
    if d.len() > 0 && all_digits(d) {
        Some(digits_value(d))
    } else {
        None
    }
}

proof fn lemma_digits_grow(d: Seq<char>, k: int)
    requires
        0 <= k <= d.len(),
        all_digits(d),
    ensures
        digits_value(d.subrange(0, k)) <= digits_value(d),
    decreases d.len(),
{
    if k < d.len() {
        let e = d.drop_last();
        assert forall|i: int| 0 <= i < e.len() implies is_digit(#[trigger] e[i]) by {
            assert(e[i] == d[i]);
        }
        lemma_digits_grow(e, k);
        assert(e.subrange(0, k) =~= d.subrange(0, k));
    } else {
        assert(d.subrange(0, k) =~= d);
    }
}

/// Reads a decimal number that fits in `usize`: an optional `+`, then
/// digits only.
pub fn parse_decimal(s: &str) -> (r: Option<usize>)
    ensures
        r is Some <==> (decimal_of(s@) is Some && decimal_of(s@)->0 <= usize::MAX),
        r matches Some(v) ==> v == decimal_of(s@)->0,
{
    let n = s.unicode_len();
    let mut i: usize = 0;
    if n > 0 && s.get_char(0) == '+' {
        i = 1;
    }
    let start = i;
    let ghost d = s@.subrange(start as int, n as int);
    assert(d =~= unsigned_part(s@));
    if i >= n {
        assert(decimal_of(s@) is None);
        return None;
    }
    let mut v: usize = 0;
    assert(d.subrange(0, 0) =~= Seq::<char>::empty());
    while i < n
        invariant
            n == s@.len(),
            start <= i <= n,
            d == s@.subrange(start as int, n as int),
            d == unsigned_part(s@),
            forall|k: int| 0 <= k < i - start ==> is_digit(#[trigger] d[k]),
            v == digits_value(d.subrange(0, i - start)),
        decreases n - i,
    {
        let c = s.get_char(i);
        if !('0' <= c && c <= '9') {
            assert(!is_digit(d[i - start]));
            assert(!all_digits(d));
            assert(decimal_of(s@) is None);
            return None;
        }
        let x = (c as u32 - '0' as u32) as usize;
        proof {
            let p = d.subrange(0, i + 1 - start);
            assert(p.drop_last() =~= d.subrange(0, i - start));
            assert(p.last() == c);
        }
        match v.checked_mul(10) {
            Some(w) => match w.checked_add(x) {
                Some(y) => {
                    v = y;
                },
                None => {
                    proof {
                        if all_digits(d) {
                            lemma_digits_grow(d, i + 1 - start);
                        }
                    }
                    return None;
                },
            },
            None => {
                proof {
                    if all_digits(d) {
                        lemma_digits_grow(d, i + 1 - start);
                    }
                }
                return None;
            },
        }
        i = i + 1;
    }
    assert(d.subrange(0, n - start) =~= d);
    Some(v)
}

/// Index of the first space at or after `i`, or the length of `s`.
pub open spec fn space_from(s: Seq<char>, i: int) -> int
    decreases s.len() - i,
{
    if i < 0 || i >= s.len() {
        s.len() as int
    } else if s[i] == ' ' {
        i
    } else {
        space_from(s, i + 1)
    }
}

fn find_space(s: &str, n: usize, from: usize) -> (r: usize)
    requires
        n == s@.len(),
        from <= n,
    ensures
        r == space_from(s@, from as int),
        from <= r <= n,
{
    let mut i = from;
    while i < n
        invariant
            n == s@.len(),
            from <= i <= n,
            space_from(s@, i as int) == space_from(s@, from as int),
        decreases n - i,
    {
        if s.get_char(i) == ' ' {
            return i;
        }
        i = i + 1;
    }
    i
}

/// The version field of a status line: its first space-separated piece,
/// trimmed.
pub open spec fn status_version(line: Seq<char>) -> Seq<char> {
    trimmed(line.subrange(0, space_from(line, 0)))
}

/// The status code of a status line: its second space-separated piece,
/// trimmed and read as a number; 0 where there is none or it is not one.
pub open spec fn status_code(line: Seq<char>) -> u16 {
    let j = space_from(line, 0);
    if j >= line.len() {
        0
    } else {
        match decimal_of(trimmed(line.subrange(j + 1, space_from(line, j + 1)))) {
            Some(v) => if v <= 65535 {
                v as u16
            } else {
                0
            },
            None => 0,
        }
    }
}

/// Version and status code of a decoded status line.
pub fn status_fields(t: &str) -> (r: (String, u16))
    ensures
        r.0@ == status_version(t@),
        r.1 == status_code(t@),
{
    let n = t.unicode_len();
    let j = find_space(t, n, 0);
    let version = trim_text(t.substring_char(0, j));
    if j >= n {
        return (version, 0);
    }
    let k = find_space(t, n, j + 1);
    let token = trim_text(t.substring_char(j + 1, k));
    let code: u16 = match parse_decimal(token.as_str()) {
        Some(v) => if v <= 65535 {
            v as u16
        } else {
            0
        },
        None => 0,
    };
    (version, code)
}

/// Version and status code of a status line read from the wire.
pub fn parse_status_line(line: &[u8]) -> (r: (String, u16))
    ensures
        r.0@ == status_version(text_of(line@)),
        r.1 == status_code(text_of(line@)),
{
    let text = lossy_text(line);
    status_fields(text.as_str())
}

/// First index at or after `i` where a CR LF pair starts, or the length.
pub open spec fn crlf_from(s: Seq<u8>, i: int) -> int
    decreases s.len() - i,
{
    if i < 0 || i + 1 >= s.len() {
        s.len() as int
    } else if s[i] == 13 && s[i + 1] == 10 {
        i
    } else {
        crlf_from(s, i + 1)
    }
}

proof fn lemma_crlf_from(s: Seq<u8>, i: int)
    requires
        0 <= i,
    ensures
        i <= crlf_from(s, i) || crlf_from(s, i) == s.len(),
        crlf_from(s, i) <= s.len(),
        crlf_from(s, i) < s.len() ==> crlf_from(s, i) + 1 < s.len(),
    decreases s.len() - i,
{
    if !(i + 1 >= s.len()) && !(s[i] == 13 && s[i + 1] == 10) {
        lemma_crlf_from(s, i + 1);
    }
}

/// First index in `i..e` holding a colon, or `e`.
pub open spec fn colon_from(s: Seq<u8>, i: int, e: int) -> int
    decreases e - i,
{
    if i < 0 || i >= e {
        e
    } else if s[i] == 58 {
        i
    } else {
        colon_from(s, i + 1, e)
    }
}

/// `acc` with the header line `s[i..e]` added: split at its first colon, the
/// lower-cased name is set to the rest; a line without a colon is dropped.
pub open spec fn add_field(acc: HeaderSeq, s: Seq<u8>, i: int, e: int) -> HeaderSeq {
    let c = colon_from(s, i, e);
    if c < e {
        let name = s.subrange(i, c);
        let value = s.subrange(c + 1, e);
        if valid_utf8(name) && valid_utf8(value) {
            put_header(acc, lower_of(decode_utf8(name)), decode_utf8(value))
        } else {
            acc
        }
    } else {
        acc
    }
}

/// `acc` with every CR LF separated line of `s` from index `i` on added.
pub open spec fn fields_from(s: Seq<u8>, i: int, acc: HeaderSeq) -> HeaderSeq
    decreases s.len() + 1 - i,
    via fields_from_decreases
{
    if i < 0 || i > s.len() {
        acc
    } else {
        let e = crlf_from(s, i);
        let next = add_field(acc, s, i, e);
        if e >= s.len() {
            next
        } else {
            fields_from(s, e + 2, next)
        }
    }
}

#[via_fn]
proof fn fields_from_decreases(s: Seq<u8>, i: int, acc: HeaderSeq) {
    if 0 <= i <= s.len() {
        lemma_crlf_from(s, i);
    }
}

/// The headers of a header block, or `None` where it is not UTF-8.
pub open spec fn parsed_headers(block: Seq<u8>) -> Option<HeaderSeq> {
    if valid_utf8(block) {
        Some(fields_from(block, 0, Seq::empty()))
    } else {
        None
    }
}

fn find_crlf(s: &[u8], from: usize) -> (r: usize)
    requires
        from <= s@.len(),
    ensures
        r == crlf_from(s@, from as int),
{
    let n = s.len();
    let mut i = from;
    while n - i > 1
        invariant
            n == s@.len(),
            from <= i <= n,
            crlf_from(s@, i as int) == crlf_from(s@, from as int),
        decreases n - i,
    {
        if s[i] == 13 && s[i + 1] == 10 {
            return i;
        }
        i = i + 1;
    }
    n
}

fn find_colon(s: &[u8], from: usize, end: usize) -> (r: usize)
    requires
        from <= end <= s@.len(),
    ensures
        r == colon_from(s@, from as int, end as int),
        from <= r <= end,
{
    let mut i = from;
    while i < end
        invariant
            from <= i <= end,
            end <= s@.len(),
            colon_from(s@, i as int, end as int) == colon_from(s@, from as int, end as int),
        decreases end - i,
    {
        if s[i] == 58 {
            return i;
        }
        i = i + 1;
    }
    end
}

/// Splits a header block into lines at CR LF and each line at its first
/// colon; names are lower-cased and a later value replaces an earlier one of
/// the same name. `None` where the block is not UTF-8.
pub fn parse_headers(block: &[u8]) -> (r: Option<Headers>)
    ensures
        r is Some <==> parsed_headers(block@) is Some,
        r matches Some(h) ==> h@ == parsed_headers(block@)->0,
{
    if utf8_text(block).is_none() {
        return None;
    }
    let n = block.len();
    let mut h = Headers::new();
    let mut i: usize = 0;
    loop
        invariant_except_break
            fields_from(block@, 0, Seq::empty()) == fields_from(block@, i as int, h@),
        invariant
            n == block@.len(),
            i <= n,
        ensures
            fields_from(block@, 0, Seq::empty()) == h@,
        decreases n + 1 - i,
    {
        let e = find_crlf(block, i);
        proof {
            lemma_crlf_from(block@, i as int);
        }
        let c = find_colon(block, i, e);
        let ghost before = h@;
        assert(fields_from(block@, i as int, before) == if e >= n {
            add_field(before, block@, i as int, e as int)
        } else {
            fields_from(block@, e + 2, add_field(before, block@, i as int, e as int))
        });
        if c < e {
            let name = utf8_text(&block[i..c]);
            let value = utf8_text(&block[c + 1..e]);
            match (name, value) {
                (Some(k), Some(v)) => {
                    let key = lowercase(k.as_str());
                    h.insert(key, v);
                },
                _ => {},
            }
        }
        assert(h@ == add_field(before, block@, i as int, e as int));
        if e >= n {
            break ;
        }
        i = e + 2;
    }
    Some(h)
}

/// How the body of a response is delimited.
#[derive(Clone, Copy, Debug)]
pub enum Framing {
    /// A `content-length` header gives the size.
    Length(usize),
    /// A `transfer-encoding` header names `chunked`.
    Chunked,
    /// Neither: the response is taken to have no body.
    Bodiless,
    /// A `content-length` header that is not a number.
    Invalid,
}

/// The framing that the headers ask for: `content-length` first, without
/// its white space; then a `transfer-encoding` that mentions `chunked`.
pub open spec fn framing_of(h: HeaderSeq) -> Framing {
    match find_header(h, "content-length"@) {
        Some(v) => match decimal_of(without_white(v)) {
            Some(n) => if n <= usize::MAX {
                Framing::Length(n as usize)
            } else {
                Framing::Invalid
            },
            None => Framing::Invalid,
        },
        None => match find_header(h, "transfer-encoding"@) {
            Some(v) => if text_contains(v, "chunked"@) {
                Framing::Chunked
            } else {
                Framing::Bodiless
            },
            None => Framing::Bodiless,
        },
    }
}

/// The body framing of a response with these headers.
pub fn body_framing(headers: &Headers) -> (r: Framing)
    ensures
        r == framing_of(headers@),
{
    match headers.get("content-length") {
        Some(v) => {
            let digits = strip_white(v.as_str());
            match parse_decimal(digits.as_str()) {
                Some(n) => Framing::Length(n),
                None => Framing::Invalid,
            }
        },
        None => match headers.get("transfer-encoding") {
            Some(v) => if contains_text(v.as_str(), "chunked") {
                Framing::Chunked
            } else {
                Framing::Bodiless
            },
            None => Framing::Bodiless,
        },
    }
}

/// How many bytes of a fixed-length body to read before taking the time:
/// one, unless the body has at most three bytes, which are read at once.
pub fn first_read_len(content_length: usize) -> (r: usize)
    ensures
        r == if content_length > 3 {
            1
        } else {
            content_length
        },
{
    if content_length > 3 {
        1
    } else {
        content_length
    }
}


/// What a gzip decoder reading `b` to the end makes of it as text, or
/// `None` where `b` is not a gzip stream of UTF-8 text.
pub uninterp spec fn gunzip_of(b: Seq<u8>) -> Option<Seq<char>>;

/// Relies on `flate2::read::GzDecoder` read to the end into a `String`:
/// decompression of an in-memory stream depends on its bytes alone.
#[verifier::external_body]
fn gunzip_text(b: &[u8]) -> (r: Option<String>)
    ensures
        r matches Some(t) ==> gunzip_of(b@) == Some(t@),
        r is None ==> gunzip_of(b@) is None,
{
    let mut d = flate2::read::GzDecoder::new(b);
    let mut text = String::new();
    match std::io::Read::read_to_string(&mut d, &mut text) {
        Ok(_) => Some(text),
        Err(_) => None,
    }
}

/// The text of a body: gunzipped where the content encoding is `gzip` and
/// the body decompresses, otherwise the bytes decoded as UTF-8 with
/// replacement characters.
pub open spec fn body_text(encoding: Option<Seq<char>>, body: Seq<u8>) -> Seq<char> {
    match encoding {
        Some(e) => if trimmed(e) == "gzip"@ {
            match gunzip_of(body) {
                Some(t) => t,
                None => text_of(body),
            }
        } else {
            text_of(body)
        },
        None => text_of(body),
    }
}

/// Reverses a content encoding: `gzip` is decompressed, falling back to the
/// raw bytes where that fails; any other encoding is left as it is.
pub fn decode_body(encoding: &str, body: &[u8]) -> (r: String)
    ensures
        r@ == body_text(Some(encoding@), body@),
{
    let e = trim_text(encoding);
    if same_text(e.as_str(), "gzip") {
        match gunzip_text(body) {
            Some(t) => t,
            None => lossy_text(body),
        }
    } else {
        lossy_text(body)
    }
}

/// The response made of a status line, parsed headers, the raw body and the
/// time it took.
pub open spec fn assembled(r: Response, line: Seq<u8>, headers: HeaderSeq, body: Seq<u8>, time: u128) -> bool {
    &&& r.time == time
    &&& r.code == status_code(text_of(line))
    &&& r.http_version@ == status_version(text_of(line))
    &&& r.headers@ == headers
    &&& r.body@ == body_text(find_header(headers, "content-encoding"@), body)
}

/// Builds the response from a status line, its headers, the body bytes and
/// the time it took.
pub fn build_response(line: &[u8], headers: Headers, body: &[u8], time: u128) -> (r: Response)
    ensures
        assembled(r, line@, headers@, body@, time),
{
    let (http_version, code) = parse_status_line(line);
    let text = match headers.get("content-encoding") {
        Some(e) => decode_body(e.as_str(), body),
        None => lossy_text(body),
    };
    Response { time, code, http_version, headers, body: text }
}

} // verus!
