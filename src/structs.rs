//! The values that flow through a scan: header lists, responses, the scan's
//! configuration and the attack variants.
use vstd::prelude::*;
use vstd::string::*;

use crate::text::{lower_of, lowercase, same_text, trim_text, trimmed};


verus! {

/// A header list as name/value texts, in order of first appearance.
pub type HeaderSeq = Seq<(Seq<char>, Seq<char>)>;

/// The value under the first entry named `k`, if any.
pub open spec fn find_header(s: HeaderSeq, k: Seq<char>) -> Option<Seq<char>>
    decreases s.len(),
{
    if s.len() == 0 {
        None
    } else if s[0].0 == k {
        Some(s[0].1)
    } else {
        find_header(s.drop_first(), k)
    }
}

/// `s` with `k` set to `v`: the first entry named `k` takes the new value in
/// place, or a new entry goes at the end.
pub open spec fn put_header(s: HeaderSeq, k: Seq<char>, v: Seq<char>) -> HeaderSeq
    decreases s.len(),
{
    if s.len() == 0 {
        seq![(k, v)]
    } else if s[0].0 == k {
        seq![(k, v)] + s.drop_first()
    } else {
        seq![s[0]] + put_header(s.drop_first(), k, v)
    }
}

/// After setting `k` to `v`, looking up `k` gives `v` and every other name
/// gives what it gave before: the last write wins.
pub proof fn lemma_put_then_find(s: HeaderSeq, k: Seq<char>, v: Seq<char>, other: Seq<char>)
    ensures
        find_header(put_header(s, k, v), k) == Some(v),
        other != k ==> find_header(put_header(s, k, v), other) == find_header(s, other),
    decreases s.len(),
{
    let p = put_header(s, k, v);
    if s.len() == 0 {
        assert(p.drop_first() =~= Seq::<(Seq<char>, Seq<char>)>::empty());
        if other != k {
            assert(find_header(p, other) == find_header(p.drop_first(), other));
        }
    } else if s[0].0 == k {
        assert(p.drop_first() =~= s.drop_first());
        if other != k {
            assert(find_header(p, other) == find_header(p.drop_first(), other));
            assert(find_header(s, other) == find_header(s.drop_first(), other));
        }
    } else {
        lemma_put_then_find(s.drop_first(), k, v, other);
        assert(p.drop_first() =~= put_header(s.drop_first(), k, v));
        assert(p[0] == s[0]);
        if other != k && s[0].0 != other {
            assert(find_header(p, other) == find_header(p.drop_first(), other));
            assert(find_header(s, other) == find_header(s.drop_first(), other));
        }
    }
}

proof fn lemma_find_from(s: HeaderSeq, i: int, k: Seq<char>)
    requires
        0 <= i < s.len(),
    ensures
        find_header(s.subrange(i, s.len() as int), k) == if s[i].0 == k {
            Some(s[i].1)
        } else {
            find_header(s.subrange(i + 1, s.len() as int), k)
        },
{
    assert(s.subrange(i, s.len() as int).drop_first() =~= s.subrange(i + 1, s.len() as int));
}

proof fn lemma_find_skips(s: HeaderSeq, i: int, k: Seq<char>)
    requires
        0 <= i <= s.len(),
        forall|j: int| 0 <= j < i ==> s[j].0 != k,
    ensures
        find_header(s, k) == find_header(s.subrange(i, s.len() as int), k),
    decreases i,
{
    if i == 0 {
        assert(s.subrange(0, s.len() as int) =~= s);
    } else {
        lemma_find_skips(s.drop_first(), i - 1, k);
        assert(s.drop_first().subrange(i - 1, s.len() - 1) =~= s.subrange(i, s.len() as int));
    }
}

proof fn lemma_put_at(s: HeaderSeq, i: int, k: Seq<char>, v: Seq<char>)
    requires
        0 <= i <= s.len(),
        forall|j: int| 0 <= j < i ==> s[j].0 != k,
        i < s.len() ==> s[i].0 == k,
    ensures
        put_header(s, k, v) == if i < s.len() {
            s.update(i, (k, v))
        } else {
            s.push((k, v))
        },
    decreases s.len(),
{
    if s.len() == 0 {
    } else if i == 0 {
        assert(seq![(k, v)] + s.drop_first() =~= s.update(0, (k, v)));
    } else {
        lemma_put_at(s.drop_first(), i - 1, k, v);
        if i < s.len() {
            assert(seq![s[0]] + s.drop_first().update(i - 1, (k, v)) =~= s.update(i, (k, v)));
        } else {
            assert(seq![s[0]] + s.drop_first().push((k, v)) =~= s.push((k, v)));
        }
    }
}

/// An ordered list of header names and values in which setting a name again
/// replaces its value.
#[derive(Clone, Debug)]
pub struct Headers {
    entries: Vec<(String, String)>,
}

impl View for Headers {
    type V = HeaderSeq;

    closed spec fn view(&self) -> HeaderSeq {
        self.entries@.map_values(|e: (String, String)| (e.0@, e.1@))
    }
}

impl Headers {
    /// An empty list.
    pub fn new() -> (r: Headers)
        ensures
            r@ == Seq::<(Seq<char>, Seq<char>)>::empty(),
    {
        Headers { entries: Vec::new() }
    }

    /// Number of entries.
    pub fn len(&self) -> (r: usize)
        ensures
            r == self@.len(),
    {
        self.entries.len()
    }

    /// Name of the `i`-th entry.
    pub fn name_at(&self, i: usize) -> (r: &String)
        requires
            i < self@.len(),
        ensures
            r@ == self@[i as int].0,
    {
        &self.entries[i].0
    }

    /// Value of the `i`-th entry.
    pub fn value_at(&self, i: usize) -> (r: &String)
        requires
            i < self@.len(),
        ensures
            r@ == self@[i as int].1,
    {
        &self.entries[i].1
    }

    fn position(&self, name: &str) -> (r: usize)
        ensures
            r <= self@.len(),
            forall|j: int| 0 <= j < r ==> self@[j].0 != name@,
            r < self@.len() ==> self@[r as int].0 == name@,
    {
        let mut i: usize = 0;
        while i < self.entries.len()
            invariant
                i <= self@.len(),
                forall|j: int| 0 <= j < i ==> self@[j].0 != name@,
            decreases self@.len() - i,
        {
            if same_text(self.entries[i].0.as_str(), name) {
                return i;
            }
            i = i + 1;
        }
        i
    }

    /// The value stored under `name`, if any.
    pub fn get(&self, name: &str) -> (r: Option<&String>)
        ensures
            r matches Some(v) ==> find_header(self@, name@) == Some(v@),
            r is None ==> find_header(self@, name@) is None,
    {
        let i = self.position(name);
        proof {
            lemma_find_skips(self@, i as int, name@);
            if i < self@.len() {
                lemma_find_from(self@, i as int, name@);
            } else {
                assert(self@.subrange(i as int, self@.len() as int) =~= Seq::empty());
            }
        }
        if i < self.entries.len() {
            Some(&self.entries[i].1)
        } else {
            None
        }
    }

    /// Sets `name` to `value`, replacing an earlier value of the same name.
    pub fn insert(&mut self, name: String, value: String)
        ensures
            final(self)@ == put_header(old(self)@, name@, value@),
    {
        let i = self.position(name.as_str());
        proof {
            lemma_put_at(self@, i as int, name@, value@);
        }
        if i < self.entries.len() {
            self.entries.set(i, (name, value));
        } else {
            self.entries.push((name, value));
        }
        assert(self@ =~= put_header(old(self)@, name@, value@));
    }
}

/// Texts of the header list, one `name:value` line each.
pub open spec fn header_lines(s: HeaderSeq) -> Seq<char>
    decreases s.len(),
{
    if s.len() == 0 {
        Seq::empty()
    } else {
        header_lines(s.drop_last()) + s.last().0 + seq![':'] + s.last().1 + seq!['\n']
    }
}

/// A parsed HTTP response, with the time it took to arrive.
#[derive(Clone, Debug)]
pub struct Response {
    /// Milliseconds from the start of the write to the first body byte.
    pub time: u128,
    /// Status code; 0 when no status line could be read.
    pub code: u16,
    /// Protocol version of the status line; `HTTP/0.0` when none was read.
    pub http_version: String,
    /// Header names, lower-cased, with their raw values.
    pub headers: Headers,
    /// The decoded body.
    pub body: String,
}

/// Whether a response with this version and `connection` header value means
/// the connection must not be reused.
pub open spec fn closes(version: Seq<char>, connection: Option<Seq<char>>) -> bool {
    version != "HTTP/1.1"@ || match connection {
        Some(v) => lower_of(trimmed(v)) == "close"@,
        None => false,
    }
}

/// Whether a status line of this version, with a `connection` value that is
/// already trimmed and lower-cased, ends the connection.
pub fn closes_with(version: &str, connection: Option<&str>) -> (r: bool)
    ensures
        r == (version@ != "HTTP/1.1"@ || match connection {
            Some(v) => v@ == "close"@,
            None => false,
        }),
{
    if !same_text(version, "HTTP/1.1") {
        return true;
    }
    match connection {
        Some(v) => same_text(v, "close"),
        None => false,
    }
}

impl Response {
    /// The response that stands for a failed read: status 0, version
    /// `HTTP/0.0`, no body.
    pub fn failed(time: u128, headers: Headers) -> (r: Response)
        ensures
            r.time == time,
            r.code == 0,
            r.http_version@ == "HTTP/0.0"@,
            r.headers@ == headers@,
            r.body@.len() == 0,
    {
        Response {
            time,
            code: 0,
            http_version: String::from_str("HTTP/0.0"),
            headers,
            body: String::new(),
        }
    }

    /// The headers, one `name:value` line each, a blank line, then the body.
    pub fn print(&self) -> (r: String)
        ensures
            r@ == header_lines(self.headers@) + seq!['\n'] + self.body@,
    {
        let mut text = String::new();
        let mut i: usize = 0;
        proof {
            reveal_strlit(":");
            reveal_strlit("\n");
            assert(":"@ =~= seq![':']);
            assert("\n"@ =~= seq!['\n']);
            assert(self.headers@.subrange(0, 0) =~= Seq::<(Seq<char>, Seq<char>)>::empty());
        }
        while i < self.headers.len()
            invariant
                i <= self.headers@.len(),
                text@ == header_lines(self.headers@.subrange(0, i as int)),
            decreases self.headers@.len() - i,
        {
            proof {
                reveal_strlit(":");
                reveal_strlit("\n");
                assert(":"@ =~= seq![':']);
                assert("\n"@ =~= seq!['\n']);
            }
            text.append(self.headers.name_at(i).as_str());
            text.append(":");
            text.append(self.headers.value_at(i).as_str());
            text.append("\n");
            proof {
                let s = self.headers@.subrange(0, i + 1);
                assert(s.drop_last() =~= self.headers@.subrange(0, i as int));
                assert(s.last() == self.headers@[i as int]);
            }
            i = i + 1;
        }
        assert(self.headers@.subrange(0, i as int) =~= self.headers@);
        text.append("\n");
        text.append(self.body.as_str());
        text
    }

    /// Whether the connection this response came on must be replaced: the
    /// version is not `HTTP/1.1`, or the `connection` header says `close`.
    pub fn is_closed(&self) -> (r: bool)
        ensures
            r == closes(self.http_version@, find_header(self.headers@, "connection"@)),
    {
        match self.headers.get("connection") {
            Some(v) => {
                let t = trim_text(v.as_str());
                let l = lowercase(t.as_str());
                closes_with(self.http_version.as_str(), Some(l.as_str()))
            },
            None => closes_with(self.http_version.as_str(), None),
        }
    }
}

/// A response is closed whenever its version is not `HTTP/1.1`; with that
/// version it is closed exactly when a `connection` header is present whose
/// trimmed, lower-cased value is `close`.
pub proof fn lemma_closed_table(version: Seq<char>, connection: Option<Seq<char>>)
    ensures
        version != "HTTP/1.1"@ ==> closes(version, connection),
        version == "HTTP/1.1"@ && connection is None ==> !closes(version, connection),
        version == "HTTP/1.1"@ && connection is Some ==> (closes(version, connection) <==> lower_of(
            trimmed(connection->0),
        ) == "close"@),
{
}


/// Texts of the header list in request form, one `name: value` line each
/// ended by CR LF.
pub open spec fn header_block(s: HeaderSeq) -> Seq<char>
    decreases s.len(),
{
    if s.len() == 0 {
        Seq::empty()
    } else {
        header_block(s.drop_last()) + s.last().0 + ": "@ + s.last().1 + "\r\n"@
    }
}

/// Request line and header lines of a request, without the blank line that
/// ends the header block.
pub open spec fn request_head(method: Seq<char>, path: Seq<char>, headers: HeaderSeq) -> Seq<
    char,
> {
    method + " "@ + path + " HTTP/1.1\r\n"@ + header_block(headers)
}

fn push_head(out: &mut String, method: &str, path: &str, headers: &Headers)
    ensures
        final(out)@ == old(out)@ + request_head(method@, path@, headers@),
{
    out.append(method);
    out.append(" ");
    out.append(path);
    out.append(" HTTP/1.1\r\n");
    let ghost start = out@;
    let mut i: usize = 0;
    assert(headers@.subrange(0, 0) =~= Seq::<(Seq<char>, Seq<char>)>::empty());
    while i < headers.len()
        invariant
            i <= headers@.len(),
            out@ == start + header_block(headers@.subrange(0, i as int)),
        decreases headers@.len() - i,
    {
        out.append(headers.name_at(i).as_str());
        out.append(": ");
        out.append(headers.value_at(i).as_str());
        out.append("\r\n");
        proof {
            let s = headers@.subrange(0, i + 1);
            assert(s.drop_last() =~= headers@.subrange(0, i as int));
            assert(s.last() == headers@[i as int]);
        }
        i = i + 1;
    }
    assert(headers@.subrange(0, i as int) =~= headers@);
}

/// The classes of attack variants, by how a finding is detected.
#[derive(Clone, Copy, Debug, PartialEq, Eq, Structural)]
pub enum AttackKind {
    /// A delayed response shows the desync.
    Time,
    /// A victim request sees a changed method.
    Method,
    /// A victim request sees a changed path.
    Path,
    /// The honest framing used as a reference.
    Undefined,
}

/// The request-framing variants the scanner can send.
#[derive(Clone, Copy, Debug, PartialEq, Eq, Structural)]
pub enum AttackType {
    ClTeMethod,
    ClTePath,
    ClTeTime,
    ClTe,
    TeClMethod,
    TeClPath,
    TeClTime,
}

/// The detection strategy of each variant.
pub open spec fn kind_of(t: AttackType) -> AttackKind {
    match t {
        AttackType::ClTeTime | AttackType::TeClTime => AttackKind::Time,
        AttackType::ClTeMethod | AttackType::TeClMethod => AttackKind::Method,
        AttackType::ClTePath | AttackType::TeClPath => AttackKind::Path,
        AttackType::ClTe => AttackKind::Undefined,
    }
}

/// The printed name of each variant.
pub open spec fn name_of(t: AttackType) -> Seq<char> {
    match t {
        AttackType::ClTeMethod => "ClTeMethod"@,
        AttackType::ClTePath => "ClTePath"@,
        AttackType::ClTeTime => "ClTeTime"@,
        AttackType::ClTe => "ClTe"@,
        AttackType::TeClMethod => "TeClMethod"@,
        AttackType::TeClPath => "TeClPath"@,
        AttackType::TeClTime => "TeClTime"@,
    }
}

/// The variant a lower-case token names, if any.
pub open spec fn attack_named(s: Seq<char>) -> Option<AttackType> {
    if s == "cltemethod"@ {
        Some(AttackType::ClTeMethod)
    } else if s == "cltepath"@ || s == "cltenotfound"@ {
        Some(AttackType::ClTePath)
    } else if s == "cltetime"@ {
        Some(AttackType::ClTeTime)
    } else if s == "tecltime"@ {
        Some(AttackType::TeClTime)
    } else if s == "teclmethod"@ {
        Some(AttackType::TeClMethod)
    } else if s == "teclpath"@ || s == "teclnotfound"@ {
        Some(AttackType::TeClPath)
    } else {
        None
    }
}

impl AttackType {
    /// How a finding of this variant is detected.
    pub fn kind(&self) -> (r: AttackKind)
        ensures
            r == kind_of(*self),
    {
        match self {
            AttackType::ClTeTime | AttackType::TeClTime => AttackKind::Time,
            AttackType::ClTeMethod | AttackType::TeClMethod => AttackKind::Method,
            AttackType::ClTePath | AttackType::TeClPath => AttackKind::Path,
            AttackType::ClTe => AttackKind::Undefined,
        }
    }

    /// The variant's name.
    pub fn name(&self) -> (r: &'static str)
        ensures
            r@ == name_of(*self),
    {
        match self {
            AttackType::ClTeMethod => "ClTeMethod",
            AttackType::ClTePath => "ClTePath",
            AttackType::ClTeTime => "ClTeTime",
            AttackType::ClTe => "ClTe",
            AttackType::TeClMethod => "TeClMethod",
            AttackType::TeClPath => "TeClPath",
            AttackType::TeClTime => "TeClTime",
        }
    }

    /// The variant named by an already lower-cased token; the baseline
    /// framing has no token.
    pub fn from_lower_name(s: &str) -> (r: Option<AttackType>)
        ensures
            r == attack_named(s@),
    {
        if same_text(s, "cltemethod") {
            Some(AttackType::ClTeMethod)
        } else if same_text(s, "cltepath") || same_text(s, "cltenotfound") {
            Some(AttackType::ClTePath)
        } else if same_text(s, "cltetime") {
            Some(AttackType::ClTeTime)
        } else if same_text(s, "tecltime") {
            Some(AttackType::TeClTime)
        } else if same_text(s, "teclmethod") {
            Some(AttackType::TeClMethod)
        } else if same_text(s, "teclpath") || same_text(s, "teclnotfound") {
            Some(AttackType::TeClPath)
        } else {
            None
        }
    }

    /// The variant named by `token`, compared without regard to case.
    pub fn from_name(token: &str) -> (r: Option<AttackType>)
        ensures
            r == attack_named(lower_of(token@)),
    {
        let l = lowercase(token);
        AttackType::from_lower_name(l.as_str())
    }
}

/// What a scan is run with.
#[derive(Clone, Debug)]
pub struct Config {
    /// The target URL as given.
    pub url: String,
    /// Host name of the target.
    pub host: String,
    /// Path and query of the target.
    pub path: String,
    /// Method of the probe requests.
    pub method: String,
    /// Whether to speak TLS.
    pub https: bool,
    /// Port of the target.
    pub port: usize,
    /// Headers sent with every probe.
    pub headers: Headers,
    /// The variants to try.
    pub attack_types: Vec<AttackType>,
    /// How many times a finding is confirmed.
    pub verify: usize,
    /// Output level: 0, 1 or 2.
    pub verbose: usize,
    /// Size of the payload catalog: `low`, `medium` or `all`.
    pub amount_of_payloads: String,
    /// A file holding a raw request to send once, or empty.
    pub file: String,
}

impl Config {
    /// Request line with the configured method and path, then the headers.
    pub fn print(&self) -> (r: String)
        ensures
            r@ == request_head(self.method@, self.path@, self.headers@),
    {
        let mut req = String::new();
        push_head(&mut req, self.method.as_str(), self.path.as_str(), &self.headers);
        req
    }

    /// Request line with the given method and path, then the headers.
    pub fn custom_print(&self, method: &str, path: &str) -> (r: String)
        ensures
            r@ == request_head(method@, path@, self.headers@),
    {
        let mut req = String::new();
        push_head(&mut req, method, path, &self.headers);
        req
    }
}

} // verus!
