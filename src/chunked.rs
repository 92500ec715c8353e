//! Decoding a chunked body one byte at a time, as the bytes come off the
//! connection.
use vstd::prelude::*;

use crate::text::{is_line_end, line_end};

verus! {

/// Where the decoder stands.
#[derive(Clone, Copy, Debug, PartialEq, Eq, Structural)]
pub enum ChunkPhase {
    /// Skipping line ends before a chunk size.
    Start,
    /// Reading the digits of a chunk size.
    Size,
    /// The size line ended; one more byte (its line feed) is dropped.
    SizeEnd,
    /// This many data bytes of the current chunk are still to come.
    Data(usize),
    /// A chunk of size zero, the last one, was read.
    Done,
    /// A chunk size was not a hexadecimal number.
    Failed,
}

/// Why a chunked body could not be decoded.
#[derive(Clone, Copy, Debug, PartialEq, Eq, Structural)]
pub enum ChunkError {
    /// A chunk size was not a hexadecimal number.
    BadSize,
    /// The input ended before the last chunk.
    Truncated,
}

/// The decoder's state: phase, size digits read so far, body decoded so far.
pub type ChunkModel = (ChunkPhase, Seq<u8>, Seq<u8>);

/// Value of a hexadecimal digit byte.
pub open spec fn hex_digit(b: u8) -> Option<nat> {
    if 48 <= b <= 57 {
        Some((b - 48) as nat)
    } else if 97 <= b <= 102 {
        Some((b - 87) as nat)
    } else if 65 <= b <= 70 {
        Some((b - 55) as nat)
    } else {
        None
    }
}

/// Every byte of `d` is a hexadecimal digit.
pub open spec fn all_hex(d: Seq<u8>) -> bool {
    forall|i: int| 0 <= i < d.len() ==> #[trigger] hex_digit(d[i]) is Some
}

/// The value of a run of hexadecimal digits.
pub open spec fn hex_value(d: Seq<u8>) -> nat
    decreases d.len(),
{
    if d.len() == 0 {
        0
    } else {
        hex_value(d.drop_last()) * 16 + match hex_digit(d.last()) {
            Some(v) => v,
            None => 0,
        }
    }
}

/// The size a chunk-size token spells: an optional `+`, then one or more
/// hexadecimal digits, with a value that fits in `usize`.
pub open spec fn chunk_size_of(t: Seq<u8>) -> Option<nat> {
    let d = if t.len() > 0 && t[0] == 43 {
        t.drop_first()
    } else {
        t
    };
    if d.len() > 0 && all_hex(d) && hex_value(d) <= usize::MAX {
        Some(hex_value(d))
    } else {
        None
    }
}

/// One byte read by the decoder.
pub open spec fn chunk_step(m: ChunkModel, b: u8) -> ChunkModel {
    let (phase, token, body) = m;
    match phase {
        ChunkPhase::Start => if is_line_end(b) {
            m
        } else {
            (ChunkPhase::Size, seq![b], body)
        },
        ChunkPhase::Size => if is_line_end(b) {
            (ChunkPhase::SizeEnd, token, body)
        } else {
            (ChunkPhase::Size, token.push(b), body)
        },
        ChunkPhase::SizeEnd => match chunk_size_of(token) {
            Some(n) => if n == 0 {
                (ChunkPhase::Done, token, body)
            } else {
                (ChunkPhase::Data(n as usize), token, body)
            },
            None => (ChunkPhase::Failed, token, body),
        },
        ChunkPhase::Data(n) => if n <= 1 {
            (ChunkPhase::Start, token, body.push(b))
        } else {
            (ChunkPhase::Data((n - 1) as usize), token, body.push(b))
        },
        _ => m,
    }
}

/// Whether the decoder has stopped.
pub open spec fn finished(p: ChunkPhase) -> bool {
    p == ChunkPhase::Done || p == ChunkPhase::Failed
}

/// The decoder's state after reading `s`; it reads nothing after stopping.
pub open spec fn chunk_run(m: ChunkModel, s: Seq<u8>) -> ChunkModel
    decreases s.len(),
{
    if s.len() == 0 || finished(m.0) {
        m
    } else {
        chunk_run(chunk_step(m, s[0]), s.drop_first())
    }
}

/// The state before any byte.
pub open spec fn chunk_start() -> ChunkModel {
    (ChunkPhase::Start, Seq::empty(), Seq::empty())
}

/// What a decoder in state `m` has produced.
pub open spec fn chunk_outcome(m: ChunkModel) -> Result<Seq<u8>, ChunkError> {
    match m.0 {
        ChunkPhase::Done => Ok(m.2),
        ChunkPhase::Failed => Err(ChunkError::BadSize),
        _ => Err(ChunkError::Truncated),
    }
}

/// The body that a chunked encoding `s` holds.
pub open spec fn chunked_decode(s: Seq<u8>) -> Result<Seq<u8>, ChunkError> {
    chunk_outcome(chunk_run(chunk_start(), s))
}

/// Reading `a` then `b` is reading `a + b`.
pub proof fn lemma_run_append(m: ChunkModel, a: Seq<u8>, b: Seq<u8>)
    ensures
        chunk_run(m, a + b) == chunk_run(chunk_run(m, a), b),
    decreases a.len(),
{
    if a.len() == 0 {
        assert(a + b =~= b);
    } else if finished(m.0) {
        lemma_run_finished(m, b);
        lemma_run_finished(m, a + b);
    } else {
        assert((a + b).drop_first() =~= a.drop_first() + b);
        lemma_run_append(chunk_step(m, a[0]), a.drop_first(), b);
    }
}

proof fn lemma_run_finished(m: ChunkModel, s: Seq<u8>)
    requires
        finished(m.0),
    ensures
        chunk_run(m, s) == m,
{
}

/// A chunked-body decoder fed by the bytes of a connection.
pub struct ChunkedDecoder {
    phase: ChunkPhase,
    token: Vec<u8>,
    body: Vec<u8>,
}

impl View for ChunkedDecoder {
    type V = ChunkModel;

    closed spec fn view(&self) -> ChunkModel {
        (self.phase, self.token@, self.body@)
    }
}

fn chunk_size(t: &Vec<u8>) -> (r: Option<usize>)
    ensures
        r matches Some(n) ==> chunk_size_of(t@) == Some(n as nat),
        r is None ==> chunk_size_of(t@) is None,
{
    let n = t.len();
    let mut i: usize = 0;
    if n > 0 && t[0] == 43 {
        i = 1;
    }
    let start = i;
    let ghost d = t@.subrange(start as int, n as int);
    assert(d =~= (if t@.len() > 0 && t@[0] == 43 {
        t@.drop_first()
    } else {
        t@
    }));
    if i >= n {
        return None;
    }
    let mut v: usize = 0;
    assert(d.subrange(0, 0) =~= Seq::<u8>::empty());
    while i < n
        invariant
            n == t@.len(),
            start <= i <= n,
            d == t@.subrange(start as int, n as int),
            d == (if t@.len() > 0 && t@[0] == 43 {
                t@.drop_first()
            } else {
                t@
            }),
            forall|k: int| 0 <= k < i - start ==> #[trigger] hex_digit(d[k]) is Some,
            v == hex_value(d.subrange(0, i - start)),
        decreases n - i,
    {
        let b = t[i];
        let x: usize = if 48 <= b && b <= 57 {
            (b - 48) as usize
        } else if 97 <= b && b <= 102 {
            (b - 87) as usize
        } else if 65 <= b && b <= 70 {
            (b - 55) as usize
        } else {
            assert(hex_digit(d[i - start]) is None);
            assert(!all_hex(d));
            return None;
        };
        proof {
            let p = d.subrange(0, i + 1 - start);
            assert(p.drop_last() =~= d.subrange(0, i - start));
            assert(p.last() == b);
        }
        match v.checked_mul(16) {
            Some(w) => match w.checked_add(x) {
                Some(y) => {
                    v = y;
                },
                None => {
                    proof {
                        if all_hex(d) {
                            lemma_hex_grow(d, i + 1 - start);
                        }
                    }
                    return None;
                },
            },
            None => {
                proof {
                    if all_hex(d) {
                        lemma_hex_grow(d, i + 1 - start);
                    }
                }
                return None;
            },
        }
        i = i + 1;
    }
    assert(d.subrange(0, n - start) =~= d);
    Some(v)
}

proof fn lemma_hex_grow(d: Seq<u8>, k: int)
    requires
        0 <= k <= d.len(),
        all_hex(d),
    ensures
        hex_value(d.subrange(0, k)) <= hex_value(d),
    decreases d.len(),
{
    if k < d.len() {
        let e = d.drop_last();
        assert forall|i: int| 0 <= i < e.len() implies #[trigger] hex_digit(e[i]) is Some by {
            assert(e[i] == d[i]);
        }
        lemma_hex_grow(e, k);
        assert(e.subrange(0, k) =~= d.subrange(0, k));
    } else {
        assert(d.subrange(0, k) =~= d);
    }
}

impl ChunkedDecoder {
    /// A decoder before the first byte.
    pub fn new() -> (r: ChunkedDecoder)
        ensures
            r@ == chunk_start(),
    {
        ChunkedDecoder { phase: ChunkPhase::Start, token: Vec::new(), body: Vec::new() }
    }

    /// Where the decoder stands.
    pub fn phase(&self) -> (r: ChunkPhase)
        ensures
            r == self@.0,
    {
        self.phase
    }

    /// Reads one byte.
    pub fn push(&mut self, b: u8)
        ensures
            final(self)@ == if finished(old(self)@.0) {
                old(self)@
            } else {
                chunk_step(old(self)@, b)
            },
    {
        match self.phase {
            ChunkPhase::Start => {
                if !line_end(b) {
                    self.phase = ChunkPhase::Size;
                    self.token = Vec::new();
                    self.token.push(b);
                    assert(self.token@ =~= seq![b]);
                }
            },
            ChunkPhase::Size => {
                if line_end(b) {
                    self.phase = ChunkPhase::SizeEnd;
                } else {
                    self.token.push(b);
                }
            },
            ChunkPhase::SizeEnd => {
                match chunk_size(&self.token) {
                    Some(n) => {
                        if n == 0 {
                            self.phase = ChunkPhase::Done;
                        } else {
                            self.phase = ChunkPhase::Data(n);
                        }
                    },
                    None => {
                        self.phase = ChunkPhase::Failed;
                    },
                }
            },
            ChunkPhase::Data(n) => {
                self.body.push(b);
                if n <= 1 {
                    self.phase = ChunkPhase::Start;
                } else {
                    self.phase = ChunkPhase::Data(n - 1);
                }
            },
            _ => {},
        }
    }

    /// Reads the bytes of `s` in order.
    pub fn push_all(&mut self, s: &[u8])
        ensures
            final(self)@ == chunk_run(old(self)@, s@),
    {
        let mut i: usize = 0;
        assert(s@.subrange(0, s@.len() as int) =~= s@);
        while i < s.len()
            invariant
                i <= s@.len(),
                chunk_run(old(self)@, s@) == chunk_run(self@, s@.subrange(i as int, s@.len() as int)),
            decreases s@.len() - i,
        {
            let ghost rest = s@.subrange(i as int, s@.len() as int);
            proof {
                assert(rest.drop_first() =~= s@.subrange(i + 1, s@.len() as int));
                if finished(self@.0) {
                    lemma_run_finished(self@, rest);
                    lemma_run_finished(self@, rest.drop_first());
                }
            }
            self.push(s[i]);
            i = i + 1;
        }
        assert(s@.subrange(i as int, s@.len() as int) =~= Seq::<u8>::empty());
    }

    /// The decoded body, or why there is none.
    pub fn finish(self) -> (r: Result<Vec<u8>, ChunkError>)
        ensures
            r matches Ok(b) ==> chunk_outcome(self@) == Ok::<Seq<u8>, ChunkError>(b@),
            r matches Err(e) ==> chunk_outcome(self@) == Err::<Seq<u8>, ChunkError>(e),
    {
        match self.phase {
            ChunkPhase::Done => Ok(self.body),
            ChunkPhase::Failed => Err(ChunkError::BadSize),
            _ => Err(ChunkError::Truncated),
        }
    }
}

/// Decodes a whole chunked body held in memory.
pub fn decode_chunked(s: &[u8]) -> (r: Result<Vec<u8>, ChunkError>)
    ensures
        r matches Ok(b) ==> chunked_decode(s@) == Ok::<Seq<u8>, ChunkError>(b@),
        r matches Err(e) ==> chunked_decode(s@) == Err::<Seq<u8>, ChunkError>(e),
{
    let mut d = ChunkedDecoder::new();
    d.push_all(s);
    d.finish()
}


/// The lower-case hexadecimal digit byte for `d < 16`.
pub open spec fn hex_digit_byte(d: nat) -> u8 {
    if d < 10 {
        (48 + d) as u8
    } else {
        (87 + d) as u8
    }
}

/// The lower-case hexadecimal digits of `n`, without leading zeros.
pub open spec fn hex_bytes(n: nat) -> Seq<u8>
    decreases n,
{
    if n < 16 {
        seq![hex_digit_byte(n)]
    } else {
        hex_bytes(n / 16).push(hex_digit_byte(n % 16))
    }
}

/// One chunk holding `data`: its size in hexadecimal, CR LF, the data,
/// CR LF.
pub open spec fn encode_chunk(data: Seq<u8>) -> Seq<u8> {
    hex_bytes(data.len()) + seq![13u8, 10u8] + data + seq![13u8, 10u8]
}

/// The chunks `cs`, in order, each encoded by [`encode_chunk`].
pub open spec fn data_chunks(cs: Seq<Seq<u8>>) -> Seq<u8>
    decreases cs.len(),
{
    if cs.len() == 0 {
        Seq::empty()
    } else {
        encode_chunk(cs[0]) + data_chunks(cs.drop_first())
    }
}

/// A chunked body made of the chunks `cs`, in order, then the last chunk.
pub open spec fn encode_chunks(cs: Seq<Seq<u8>>) -> Seq<u8> {
    data_chunks(cs) + seq![48u8, 13u8, 10u8, 13u8, 10u8]
}

/// Every chunk of `cs` holds at least one byte and at most `usize::MAX`.
pub open spec fn valid_chunks(cs: Seq<Seq<u8>>) -> bool {
    forall|i: int| 0 <= i < cs.len() ==> 1 <= #[trigger] cs[i].len() <= usize::MAX
}

/// The data of the chunks `cs`, joined.
pub open spec fn joined(cs: Seq<Seq<u8>>) -> Seq<u8>
    decreases cs.len(),
{
    if cs.len() == 0 {
        Seq::empty()
    } else {
        cs[0] + joined(cs.drop_first())
    }
}

proof fn lemma_hex_bytes(n: nat)
    ensures
        all_hex(hex_bytes(n)),
        hex_value(hex_bytes(n)) == n,
        hex_bytes(n).len() > 0,
        hex_bytes(n)[0] != 43,
        forall|i: int| 0 <= i < hex_bytes(n).len() ==> !is_line_end(#[trigger] hex_bytes(n)[i]),
    decreases n,
{
    let h = hex_bytes(n);
    if n < 16 {
        assert(h.drop_last() =~= Seq::<u8>::empty());
        assert(hex_digit(h[0]) == Some(n));
        assert(hex_value(h) == hex_value(h.drop_last()) * 16 + n);
    } else {
        let m = n / 16;
        lemma_hex_bytes(m);
        assert(h.drop_last() =~= hex_bytes(m));
        assert(hex_digit(h.last()) == Some(n % 16));
        assert(m * 16 + n % 16 == n);
        assert(hex_value(h) == hex_value(h.drop_last()) * 16 + n % 16);
        assert forall|i: int| 0 <= i < h.len() implies #[trigger] hex_digit(h[i]) is Some by {
            if i < h.len() - 1 {
                assert(h[i] == hex_bytes(m)[i]);
            }
        }
        assert forall|i: int| 0 <= i < h.len() implies !is_line_end(#[trigger] h[i]) by {
            if i < h.len() - 1 {
                assert(h[i] == hex_bytes(m)[i]);
            }
        }
        assert(h[0] == hex_bytes(m)[0]);
        assert(h.len() >= 2);
    }
}

proof fn lemma_run_first(m: ChunkModel, s: Seq<u8>)
    requires
        s.len() > 0,
        !finished(m.0),
    ensures
        chunk_run(m, s) == chunk_run(chunk_step(m, s[0]), s.drop_first()),
{
}

proof fn lemma_run_one(m: ChunkModel, a: u8)
    requires
        !finished(m.0),
    ensures
        chunk_run(m, seq![a]) == chunk_step(m, a),
{
    lemma_run_first(m, seq![a]);
    assert(seq![a].drop_first() =~= Seq::<u8>::empty());
}

proof fn lemma_run_two(m: ChunkModel, a: u8, b: u8)
    requires
        !finished(m.0),
        !finished(chunk_step(m, a).0),
    ensures
        chunk_run(m, seq![a, b]) == chunk_step(chunk_step(m, a), b),
{
    lemma_run_first(m, seq![a, b]);
    assert(seq![a, b].drop_first() =~= seq![b]);
    lemma_run_one(chunk_step(m, a), b);
}

proof fn lemma_run_digits(t: Seq<u8>, acc: Seq<u8>, d: Seq<u8>)
    requires
        forall|i: int| 0 <= i < d.len() ==> !is_line_end(#[trigger] d[i]),
    ensures
        chunk_run((ChunkPhase::Size, t, acc), d) == (ChunkPhase::Size, t + d, acc),
    decreases d.len(),
{
    if d.len() == 0 {
        assert(t + d =~= t);
    } else {
        assert(!is_line_end(d[0]));
        let rest = d.drop_first();
        assert forall|i: int| 0 <= i < rest.len() implies !is_line_end(#[trigger] rest[i]) by {
            assert(rest[i] == d[i + 1]);
        }
        lemma_run_digits(t.push(d[0]), acc, rest);
        assert(t.push(d[0]) + rest =~= t + d);
    }
}

proof fn lemma_run_data(k: nat, t: Seq<u8>, acc: Seq<u8>, d: Seq<u8>)
    requires
        d.len() == k,
        1 <= k <= usize::MAX,
    ensures
        chunk_run((ChunkPhase::Data(k as usize), t, acc), d) == (ChunkPhase::Start, t, acc + d),
    decreases k,
{
    let rest = d.drop_first();
    lemma_run_first((ChunkPhase::Data(k as usize), t, acc), d);
    if k == 1 {
        assert(acc.push(d[0]) =~= acc + d);
        assert(rest.len() == 0);
    } else {
        lemma_run_data((k - 1) as nat, t, acc.push(d[0]), rest);
        assert(acc.push(d[0]) + rest =~= acc + d);
    }
}

proof fn lemma_run_chunk(t: Seq<u8>, acc: Seq<u8>, data: Seq<u8>)
    requires
        1 <= data.len() <= usize::MAX,
    ensures
        chunk_run((ChunkPhase::Start, t, acc), encode_chunk(data)) == (
            ChunkPhase::Start,
            hex_bytes(data.len()),
            acc + data,
        ),
{
    let n = data.len();
    let h = hex_bytes(n);
    lemma_hex_bytes(n);
    let crlf = seq![13u8, 10u8];
    let m0 = (ChunkPhase::Start, t, acc);
    lemma_run_append(m0, h, crlf + data + crlf);
    assert(encode_chunk(data) =~= h + (crlf + data + crlf));
    assert(h =~= seq![h[0]] + h.drop_first());
    lemma_run_append(m0, seq![h[0]], h.drop_first());
    assert(!is_line_end(h[0]));
    lemma_run_one(m0, h[0]);
    let rest = h.drop_first();
    assert forall|i: int| 0 <= i < rest.len() implies !is_line_end(#[trigger] rest[i]) by {
        assert(rest[i] == h[i + 1]);
    }
    lemma_run_digits(seq![h[0]], acc, rest);
    assert(seq![h[0]] + rest =~= h);
    let m1 = (ChunkPhase::Size, h, acc);
    assert(chunk_run(m0, h) == m1);
    lemma_run_append(m1, crlf, data + crlf);
    assert(crlf + data + crlf =~= crlf + (data + crlf));
    let d = if h.len() > 0 && h[0] == 43 {
        h.drop_first()
    } else {
        h
    };
    assert(d == h);
    assert(chunk_size_of(h) == Some(n));
    let m2 = (ChunkPhase::Data(n as usize), h, acc);
    lemma_run_two(m1, 13u8, 10u8);
    assert(chunk_run(m1, crlf) == m2);
    lemma_run_append(m2, data, crlf);
    lemma_run_data(n, h, acc, data);
    let m3 = (ChunkPhase::Start, h, acc + data);
    lemma_run_two(m3, 13u8, 10u8);
    assert(chunk_run(m3, crlf) == m3);
}

proof fn lemma_run_chunks(t: Seq<u8>, acc: Seq<u8>, cs: Seq<Seq<u8>>)
    requires
        valid_chunks(cs),
    ensures
        chunk_run((ChunkPhase::Start, t, acc), data_chunks(cs)).0 == ChunkPhase::Start,
        chunk_run((ChunkPhase::Start, t, acc), data_chunks(cs)).2 == acc + joined(cs),
    decreases cs.len(),
{
    let m0 = (ChunkPhase::Start, t, acc);
    if cs.len() == 0 {
        assert(acc + joined(cs) =~= acc);
    } else {
        let c = cs[0];
        let rest = cs.drop_first();
        assert(1 <= cs[0].len() <= usize::MAX);
        lemma_run_append(m0, encode_chunk(c), data_chunks(rest));
        lemma_run_chunk(t, acc, c);
        assert forall|i: int| 0 <= i < rest.len() implies 1 <= #[trigger] rest[i].len()
            <= usize::MAX by {
            assert(rest[i] == cs[i + 1]);
        }
        lemma_run_chunks(hex_bytes(c.len()), acc + c, rest);
        assert(acc + c + joined(rest) =~= acc + joined(cs));
    }
}

proof fn lemma_run_size_line(m: ChunkModel, size: Seq<u8>, rest: Seq<u8>)
    requires
        m.0 == ChunkPhase::Start,
        size.len() > 0,
        forall|i: int| 0 <= i < size.len() ==> !is_line_end(#[trigger] size[i]),
    ensures
        chunk_run(m, size + seq![13u8, 10u8] + rest) == chunk_run(
            chunk_step((ChunkPhase::SizeEnd, size, m.2), 10u8),
            rest,
        ),
{
    let crlf = seq![13u8, 10u8];
    assert(size + crlf + rest =~= size + (crlf + rest));
    lemma_run_append(m, size, crlf + rest);
    assert(size =~= seq![size[0]] + size.drop_first());
    lemma_run_append(m, seq![size[0]], size.drop_first());
    assert(!is_line_end(size[0]));
    lemma_run_one(m, size[0]);
    let tail = size.drop_first();
    assert forall|i: int| 0 <= i < tail.len() implies !is_line_end(#[trigger] tail[i]) by {
        assert(tail[i] == size[i + 1]);
    }
    lemma_run_digits(seq![size[0]], m.2, tail);
    assert(seq![size[0]] + tail =~= size);
    let m1 = (ChunkPhase::Size, size, m.2);
    assert(chunk_run(m, size) == m1);
    lemma_run_append(m1, crlf, rest);
    assert(crlf =~= seq![13u8] + seq![10u8]);
    lemma_run_append(m1, seq![13u8], seq![10u8]);
    lemma_run_one(m1, 13u8);
    let m2 = (ChunkPhase::SizeEnd, size, m.2);
    if !finished(chunk_step(m1, 13u8).0) {
        lemma_run_one(m2, 10u8);
    }
}

/// Valid chunks followed by a size line whose value is zero (`0`, `00`, ...)
/// decode to the data of those chunks: the zero size ends decoding, and no
/// byte after its line reaches the body.
pub proof fn lemma_zero_size_ends(cs: Seq<Seq<u8>>, size: Seq<u8>, rest: Seq<u8>)
    requires
        valid_chunks(cs),
        size.len() > 0,
        forall|i: int| 0 <= i < size.len() ==> !is_line_end(#[trigger] size[i]),
        chunk_size_of(size) == Some(0nat),
    ensures
        chunked_decode(data_chunks(cs) + size + seq![13u8, 10u8] + rest) == Ok::<
            Seq<u8>,
            ChunkError,
        >(joined(cs)),
{
    let tail = size + seq![13u8, 10u8] + rest;
    assert(data_chunks(cs) + size + seq![13u8, 10u8] + rest =~= data_chunks(cs) + tail);
    lemma_run_append(chunk_start(), data_chunks(cs), tail);
    lemma_run_chunks(Seq::empty(), Seq::empty(), cs);
    let m = chunk_run(chunk_start(), data_chunks(cs));
    lemma_run_size_line(m, size, rest);
    let done = (ChunkPhase::Done, size, m.2);
    lemma_run_finished(done, rest);
    assert(Seq::<u8>::empty() + joined(cs) =~= joined(cs));
}

/// Valid chunks followed by a size line that is not a hexadecimal number
/// stop decoding with an error, whatever follows: never a partial body.
pub proof fn lemma_bad_size_fails(cs: Seq<Seq<u8>>, size: Seq<u8>, rest: Seq<u8>)
    requires
        valid_chunks(cs),
        size.len() > 0,
        forall|i: int| 0 <= i < size.len() ==> !is_line_end(#[trigger] size[i]),
        chunk_size_of(size) is None,
    ensures
        chunked_decode(data_chunks(cs) + size + seq![13u8, 10u8] + rest) == Err::<
            Seq<u8>,
            ChunkError,
        >(ChunkError::BadSize),
{
    let tail = size + seq![13u8, 10u8] + rest;
    assert(data_chunks(cs) + size + seq![13u8, 10u8] + rest =~= data_chunks(cs) + tail);
    lemma_run_append(chunk_start(), data_chunks(cs), tail);
    lemma_run_chunks(Seq::empty(), Seq::empty(), cs);
    let m = chunk_run(chunk_start(), data_chunks(cs));
    lemma_run_size_line(m, size, rest);
    let failed = (ChunkPhase::Failed, size, m.2);
    lemma_run_finished(failed, rest);
}

/// Decoding a body encoded as non-empty chunks gives back their data, joined.
pub proof fn lemma_chunked_round_trip(cs: Seq<Seq<u8>>)
    requires
        valid_chunks(cs),
    ensures
        chunked_decode(encode_chunks(cs)) == Ok::<Seq<u8>, ChunkError>(joined(cs)),
{
    let z = seq![48u8];
    assert(z.drop_last() =~= Seq::<u8>::empty());
    assert(hex_value(z.drop_last()) == 0);
    assert(hex_digit(z.last()) == Some(0nat));
    assert(hex_value(z) == 0);
    assert(all_hex(z));
    assert(chunk_size_of(z) == Some(0nat));
    let end = seq![13u8, 10u8];
    assert(encode_chunks(cs) =~= data_chunks(cs) + z + seq![13u8, 10u8] + end);
    lemma_zero_size_ends(cs, z, end);
}

} // verus!
