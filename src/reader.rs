//! The order in which one response is read: status line, header block, then
//! a body framed as the headers say. The caller performs each read this
//! reader asks for and takes the time when it is told to.
use vstd::prelude::*;

use crate::chunked::{
    chunk_run, chunk_start, chunked_decode, finished, lemma_run_append, ChunkError, ChunkPhase,
    ChunkedDecoder,
};
use crate::raw_requests::{
    assembled, body_framing, build_response, first_read_len, framing_of, needs_resend,
    first_stop, parse_headers, parsed_headers, scan_done, Framing, LineScanner,
};
use crate::structs::{HeaderSeq, Headers, Response};

verus! {

/// What the reader needs next.
#[derive(Clone, Copy, Debug, PartialEq, Eq, Structural)]
pub enum ReadStep {
    /// One byte, for `push_byte`; a closed connection reads as a zero byte.
    Byte,
    /// Exactly this many bytes, for `push_bytes`.
    Exact(usize),
    /// A new connection with the request written to it again, then `resent`.
    Resend,
    /// Nothing more: take the response with `finish`.
    Done,
}

/// Where the reader stands.
#[derive(Clone, Copy, Debug, PartialEq, Eq, Structural)]
pub enum ReadStage {
    /// Reading the status line.
    StatusLine,
    /// The status line was empty: the request goes out again.
    Reconnect,
    /// Reading the header block.
    HeaderBlock,
    /// Reading the first part of a fixed-length body of this size.
    FixedFirst(usize),
    /// Reading the rest of a fixed-length body of this size.
    FixedRest(usize),
    /// Reading a chunked body.
    Chunked,
    /// The response was read.
    Complete,
    /// The response cannot be read: no status line after the second try,
    /// bad headers or a bad body framing.
    Broken,
}

/// The body read agrees with the framing: a fixed length is met, a chunked
/// encoding decodes to it, and no framing means no body.
pub open spec fn body_fits(f: Framing, chunk_input: Seq<u8>, body: Seq<u8>) -> bool {
    match f {
        Framing::Length(n) => body.len() == n,
        Framing::Chunked => chunked_decode(chunk_input) == Ok::<Seq<u8>, ChunkError>(body),
        Framing::Bodiless => body.len() == 0,
        Framing::Invalid => false,
    }
}

/// The stage after the status line `line`: the header block, or one
/// resend where the line is empty and the request was not yet sent again,
/// or the end.
pub open spec fn stage_after_status(line: Seq<u8>, resent: bool) -> ReadStage {
    if line.len() > 1 {
        ReadStage::HeaderBlock
    } else if !resent {
        ReadStage::Reconnect
    } else {
        ReadStage::Broken
    }
}

/// The stage after the header block `block`: the body as its framing
/// says, or the end where the block is not UTF-8 or the framing invalid.
pub open spec fn stage_after_headers(block: Seq<u8>) -> ReadStage {
    match parsed_headers(block) {
        None => ReadStage::Broken,
        Some(h) => match framing_of(h) {
            Framing::Length(n) => ReadStage::FixedFirst(n),
            Framing::Chunked => ReadStage::Chunked,
            Framing::Bodiless => ReadStage::Complete,
            Framing::Invalid => ReadStage::Broken,
        },
    }
}

/// The stage after the chunked encoding `ci` was read: complete at its last
/// chunk, broken at a bad chunk size, reading on otherwise.
pub open spec fn stage_after_chunks(ci: Seq<u8>) -> ReadStage {
    match chunk_run(chunk_start(), ci).0 {
        ChunkPhase::Done => ReadStage::Complete,
        ChunkPhase::Failed => ReadStage::Broken,
        _ => ReadStage::Chunked,
    }
}

/// How many bytes a chunked decoder in phase `p` asks for at once.
pub open spec fn chunk_want(p: ChunkPhase) -> usize {
    match p {
        ChunkPhase::Data(k) => k,
        _ => 1,
    }
}

/// `after` is `before` with the chunked-body bytes `s` taken.
pub open spec fn chunk_pushed(before: ResponseReader, after: ResponseReader, s: Seq<u8>) -> bool {
    &&& after.input() == before.input() + s
    &&& after.chunk_input() == before.chunk_input() + s
    &&& after.line() == before.line()
    &&& after.block() == before.block()
    &&& after.headers() == before.headers()
    &&& after.stage() == stage_after_chunks(after.chunk_input())
}

/// `after` is `before` with the fixed-length body bytes `s` taken.
pub open spec fn body_pushed(before: ResponseReader, after: ResponseReader, s: Seq<u8>) -> bool {
    &&& after.input() == before.input() + s
    &&& after.body() == before.body() + s
    &&& after.line() == before.line()
    &&& after.block() == before.block()
    &&& after.headers() == before.headers()
}

/// Reads one response from the bytes it is given.
pub struct ResponseReader {
    stage: ReadStage,
    resent: bool,
    timed: bool,
    status: LineScanner,
    line: Vec<u8>,
    head: LineScanner,
    block: Vec<u8>,
    headers: Headers,
    body: Vec<u8>,
    chunks: ChunkedDecoder,
    chunk_input: Ghost<Seq<u8>>,
    input: Ghost<Seq<u8>>,
}

impl ResponseReader {
    /// Where the reader stands.
    pub closed spec fn stage(&self) -> ReadStage {
        self.stage
    }

    /// The status line read.
    pub closed spec fn line(&self) -> Seq<u8> {
        self.line@
    }

    /// The header block read.
    pub closed spec fn block(&self) -> Seq<u8> {
        self.block@
    }

    /// The headers parsed from the block.
    pub closed spec fn headers(&self) -> HeaderSeq {
        self.headers@
    }

    /// The body read so far.
    pub closed spec fn body(&self) -> Seq<u8> {
        self.body@
    }

    /// The bytes of a chunked body read so far.
    pub closed spec fn chunk_input(&self) -> Seq<u8> {
        self.chunk_input@
    }

    /// The bytes taken since the status line was last started.
    pub closed spec fn input(&self) -> Seq<u8> {
        self.input@
    }

    /// The bytes of the body as they came: the chunked encoding, or the body
    /// itself.
    pub open spec fn raw_body(&self) -> Seq<u8> {
        if framing_of(self.headers()) == Framing::Chunked {
            self.chunk_input()
        } else {
            self.body()
        }
    }

    /// Whether the request was already sent again.
    pub closed spec fn was_resent(&self) -> bool {
        self.resent
    }

    /// Whether the time was already taken.
    pub closed spec fn timed(&self) -> bool {
        self.timed
    }

    /// Phase of the chunked-body decoder.
    pub closed spec fn chunk_phase(&self) -> ChunkPhase {
        self.chunks@.0
    }

    /// Internal consistency.
    pub closed spec fn wf(&self) -> bool {
        &&& self.status.wf()
        &&& self.status.counts_after() == 5
        &&& self.status.needs() == 2
        &&& self.status.limit() == 512
        &&& self.head.wf()
        &&& self.head.counts_after() == 0
        &&& self.head.needs() == 4
        &&& self.head.limit() == 32768
        &&& match self.stage {
            ReadStage::StatusLine | ReadStage::Reconnect | ReadStage::HeaderBlock => {
                &&& !self.timed
                &&& self.headers@.len() == 0
                &&& self.body@.len() == 0
                &&& self.chunks@ == chunk_start()
                &&& self.chunk_input@ == Seq::<u8>::empty()
                &&& !self.head.done()
                &&& match self.stage {
                    ReadStage::StatusLine => !self.status.done() && self.head.seen().len() == 0
                        && self.input@ == self.status.seen(),
                    ReadStage::Reconnect => !self.resent && self.head.seen().len() == 0
                        && self.input@ == self.line@ && first_stop(self.line@, 5, 2, 512),
                    _ => first_stop(self.line@, 5, 2, 512) && self.input@ == self.line@
                        + self.head.seen(),
                }
            },
            ReadStage::Broken => true,
            _ => {
                &&& first_stop(self.line@, 5, 2, 512)
                &&& first_stop(self.block@, 0, 4, 32768)
                &&& parsed_headers(self.block@) == Some(self.headers@)
                &&& self.input@ == self.line@ + self.block@ + if self.stage == ReadStage::Chunked
                    || framing_of(self.headers@) == Framing::Chunked {
                    self.chunk_input@
                } else {
                    self.body@
                }
                &&& match self.stage {
                    ReadStage::FixedFirst(n) => framing_of(self.headers@) == Framing::Length(n)
                        && self.body@.len() == 0 && !self.timed,
                    ReadStage::FixedRest(n) => framing_of(self.headers@) == Framing::Length(n)
                        && self.body@.len() == first_read_len_spec(n),
                    ReadStage::Chunked => framing_of(self.headers@) == Framing::Chunked
                        && self.chunks@ == chunk_run(chunk_start(), self.chunk_input@)
                        && !finished(self.chunks@.0),
                    _ => body_fits(framing_of(self.headers@), self.chunk_input@, self.body@),
                }
            },
        }
    }

    /// A reader before the first byte.
    pub fn new() -> (r: ResponseReader)
        ensures
            r.wf(),
            r.stage() == ReadStage::StatusLine,
            r.input() == Seq::<u8>::empty(),
            !r.was_resent(),
            !r.timed(),
    {
        let r = ResponseReader {
            stage: ReadStage::StatusLine,
            resent: false,
            timed: false,
            status: LineScanner::status_line(),
            line: Vec::new(),
            head: LineScanner::header_block(),
            block: Vec::new(),
            headers: Headers::new(),
            body: Vec::new(),
            chunks: ChunkedDecoder::new(),
            chunk_input: Ghost(Seq::empty()),
            input: Ghost(Seq::empty()),
        };
        assert(r.input@ =~= r.status.seen());
        r
    }

    /// What the reader needs next.
    pub fn next_step(&self) -> (r: ReadStep)
        requires
            self.wf(),
        ensures
            r == match self.stage() {
                ReadStage::StatusLine | ReadStage::HeaderBlock => ReadStep::Byte,
                ReadStage::Reconnect => ReadStep::Resend,
                ReadStage::FixedFirst(n) => ReadStep::Exact(first_read_len_spec(n)),
                ReadStage::FixedRest(n) => ReadStep::Exact((n - first_read_len_spec(n)) as usize),
                ReadStage::Chunked => ReadStep::Exact(chunk_want(self.chunk_phase())),
                _ => ReadStep::Done,
            },
    {
        match self.stage {
            ReadStage::StatusLine | ReadStage::HeaderBlock => ReadStep::Byte,
            ReadStage::Reconnect => ReadStep::Resend,
            ReadStage::FixedFirst(n) => ReadStep::Exact(first_read_len(n)),
            ReadStage::FixedRest(n) => ReadStep::Exact(n - first_read_len(n)),
            ReadStage::Chunked => match self.chunks.phase() {
                ChunkPhase::Data(k) => ReadStep::Exact(k),
                _ => ReadStep::Exact(1),
            },
            _ => ReadStep::Done,
        }
    }

    /// The request went out again on a new connection: the status line is
    /// read anew, and an empty one is not retried again.
    pub fn resent(&mut self)
        requires
            old(self).wf(),
            old(self).stage() == ReadStage::Reconnect,
        ensures
            final(self).wf(),
            final(self).stage() == ReadStage::StatusLine,
            final(self).input() == Seq::<u8>::empty(),
            final(self).was_resent(),
            final(self).timed() == old(self).timed(),
    {
        self.status = LineScanner::status_line();
        self.input = Ghost(Seq::empty());
        assert(self.input@ =~= self.status.seen());
        self.resent = true;
        self.stage = ReadStage::StatusLine;
    }

    /// Takes one byte. Returns whether the time must be taken now: at the
    /// end of the headers of a response without a body, or at the first
    /// chunk size of a chunked body.
    pub fn push_byte(&mut self, b: u8) -> (r: bool)
        requires
            old(self).wf(),
        ensures
            final(self).wf(),
            final(self).was_resent() == old(self).was_resent(),
            r ==> !old(self).timed() && final(self).timed(),
            old(self).timed() ==> final(self).timed(),
            old(self).stage() == ReadStage::StatusLine ==> {
                let seen = old(self).input().push(b);
                &&& !r
                &&& final(self).input() == seen
                &&& if scan_done(seen, 5, 2, 512) {
                    final(self).line() == seen && final(self).stage() == stage_after_status(
                        seen,
                        old(self).was_resent(),
                    )
                } else {
                    final(self).stage() == ReadStage::StatusLine
                }
            },
            old(self).stage() == ReadStage::HeaderBlock ==> {
                let seen = old(self).input().push(b);
                let blk = seen.subrange(old(self).line().len() as int, seen.len() as int);
                &&& final(self).input() == seen
                &&& final(self).line() == old(self).line()
                &&& if scan_done(blk, 0, 4, 32768) {
                    &&& final(self).block() == blk
                    &&& final(self).stage() == stage_after_headers(blk)
                    &&& (parsed_headers(blk) matches Some(h) ==> final(self).headers() == h)
                    &&& (r <==> final(self).stage() == ReadStage::Complete)
                } else {
                    final(self).stage() == ReadStage::HeaderBlock && !r
                }
            },
            old(self).stage() == ReadStage::Chunked ==> chunk_pushed(
                *old(self),
                *final(self),
                seq![b],
            ),
            !(old(self).stage() is StatusLine || old(self).stage() is HeaderBlock
                || old(self).stage() is Chunked) ==> *final(self) == *old(self) && !r,
    {
        match self.stage {
            ReadStage::StatusLine => {
                self.input = Ghost(self.input@.push(b));
                if self.status.push(b) {
                    let mut done = LineScanner::status_line();
                    std::mem::swap(&mut self.status, &mut done);
                    self.line = done.into_bytes();
                    assert(self.input@ =~= self.line@ + self.head.seen());
                    if !needs_resend(self.line.as_slice()) {
                        self.stage = ReadStage::HeaderBlock;
                    } else if !self.resent {
                        self.stage = ReadStage::Reconnect;
                    } else {
                        self.stage = ReadStage::Broken;
                    }
                }
                false
            },
            ReadStage::HeaderBlock => {
                let ghost seen = self.head.seen();
                self.input = Ghost(self.input@.push(b));
                if self.head.push(b) {
                    let mut done = LineScanner::header_block();
                    std::mem::swap(&mut self.head, &mut done);
                    let block = done.into_bytes();
                    assert(self.input@ =~= self.line@ + block@);
                    assert(block@ =~= self.input@.subrange(self.line@.len() as int, self.input@.len() as int));
                    match parse_headers(block.as_slice()) {
                        Some(h) => {
                            self.headers = h;
                            self.block = block;
                            match body_framing(&self.headers) {
                                Framing::Length(n) => {
                                    self.stage = ReadStage::FixedFirst(n);
                                },
                                Framing::Chunked => {
                                    self.stage = ReadStage::Chunked;
                                },
                                Framing::Bodiless => {
                                    self.stage = ReadStage::Complete;
                                },
                                Framing::Invalid => {
                                    self.stage = ReadStage::Broken;
                                },
                            }
                        },
                        None => {
                            self.block = block;
                            self.stage = ReadStage::Broken;
                        },
                    }
                    assert(self.body@ =~= Seq::<u8>::empty());
                    assert(self.chunk_input@ =~= Seq::<u8>::empty());
                    assert(self.input@ =~= self.line@ + self.block@ + Seq::<u8>::empty());
                    if self.stage == ReadStage::Complete {
                        self.timed = true;
                        true
                    } else {
                        false
                    }
                } else {
                    assert(self.input@ =~= self.line@ + self.head.seen());
                    assert(self.head.seen() =~= self.input@.subrange(self.line@.len() as int, self.input@.len() as int));
                    false
                }
            },
            ReadStage::Chunked => {
                let one = [b];
                assert(one@ =~= seq![b]);
                self.push_chunk_bytes(&one)
            },
            _ => false,
        }
    }

    fn push_chunk_bytes(&mut self, s: &[u8]) -> (r: bool)
        requires
            old(self).wf(),
            old(self).stage() == ReadStage::Chunked,
        ensures
            final(self).wf(),
            chunk_pushed(*old(self), *final(self), s@),
            final(self).was_resent() == old(self).was_resent(),
            r ==> !old(self).timed() && final(self).timed(),
            old(self).timed() ==> final(self).timed(),
    {
        self.chunks.push_all(s);
        proof {
            lemma_run_append(chunk_start(), self.chunk_input@, s@);
        }
        self.chunk_input = Ghost(self.chunk_input@ + s@);
        self.input = Ghost(self.input@ + s@);
        assert(self.input@ =~= self.line@ + self.block@ + self.chunk_input@);
        let mark = !self.timed && self.chunks.phase() != ChunkPhase::Start;
        if mark {
            self.timed = true;
        }
        match self.chunks.phase() {
            ChunkPhase::Done | ChunkPhase::Failed => {
                let mut done = ChunkedDecoder::new();
                std::mem::swap(&mut self.chunks, &mut done);
                match done.finish() {
                    Ok(body) => {
                        self.body = body;
                        self.stage = ReadStage::Complete;
                    },
                    Err(_) => {
                        self.stage = ReadStage::Broken;
                    },
                }
            },
            _ => {},
        }
        mark
    }

    /// Takes the bytes of an exact read. Returns whether the time must be
    /// taken now: after the first part of a fixed-length body. Bytes of the
    /// wrong count leave the reader broken.
    pub fn push_bytes(&mut self, s: &[u8]) -> (r: bool)
        requires
            old(self).wf(),
        ensures
            final(self).wf(),
            final(self).was_resent() == old(self).was_resent(),
            r ==> !old(self).timed() && final(self).timed(),
            old(self).timed() ==> final(self).timed(),
            match old(self).stage() {
                ReadStage::FixedFirst(n) => if s@.len() == first_read_len_spec(n) {
                    &&& body_pushed(*old(self), *final(self), s@)
                    &&& final(self).stage() == ReadStage::FixedRest(n)
                    &&& r
                } else {
                    final(self).stage() == ReadStage::Broken && !r
                },
                ReadStage::FixedRest(n) => if s@.len() == n - first_read_len_spec(n) {
                    &&& body_pushed(*old(self), *final(self), s@)
                    &&& final(self).stage() == ReadStage::Complete
                    &&& !r
                } else {
                    final(self).stage() == ReadStage::Broken && !r
                },
                ReadStage::Chunked => if s@.len() == chunk_want(old(self).chunk_phase()) {
                    chunk_pushed(*old(self), *final(self), s@)
                } else {
                    final(self).stage() == ReadStage::Broken && !r
                },
                _ => *final(self) == *old(self) && !r,
            },
    {
        match self.stage {
            ReadStage::FixedFirst(n) => {
                if s.len() != first_read_len(n) {
                    self.stage = ReadStage::Broken;
                    return false;
                }
                extend_bytes(&mut self.body, s);
                self.input = Ghost(self.input@ + s@);
                assert(self.input@ =~= self.line@ + self.block@ + self.body@);
                self.stage = ReadStage::FixedRest(n);
                self.timed = true;
                true
            },
            ReadStage::FixedRest(n) => {
                if s.len() != n - first_read_len(n) {
                    self.stage = ReadStage::Broken;
                    return false;
                }
                extend_bytes(&mut self.body, s);
                self.input = Ghost(self.input@ + s@);
                assert(self.input@ =~= self.line@ + self.block@ + self.body@);
                self.stage = ReadStage::Complete;
                false
            },
            ReadStage::Chunked => {
                let want = match self.chunks.phase() {
                    ChunkPhase::Data(k) => k,
                    _ => 1,
                };
                if s.len() != want {
                    self.stage = ReadStage::Broken;
                    return false;
                }
                self.push_chunk_bytes(s)
            },
            _ => false,
        }
    }

    /// The status line read, as it came.
    pub fn status_line(&self) -> (r: &[u8])
        ensures
            r@ == self.line(),
    {
        self.line.as_slice()
    }

    /// Whether the whole response was read.
    pub fn is_complete(&self) -> (r: bool)
        ensures
            r == (self.stage() == ReadStage::Complete),
    {
        self.stage == ReadStage::Complete
    }

    /// The response read, taking `time` as its time. Where the reader did not
    /// complete, it is the failed response, with the headers where they were
    /// parsed.
    pub fn finish(self, time: u128) -> (r: Response)
        requires
            self.wf(),
        ensures
            self.stage() == ReadStage::Complete ==> {
                &&& first_stop(self.line(), 5, 2, 512)
                &&& first_stop(self.block(), 0, 4, 32768)
                &&& self.input() == self.line() + self.block() + self.raw_body()
                &&& parsed_headers(self.block()) == Some(self.headers())
                &&& body_fits(framing_of(self.headers()), self.chunk_input(), self.body())
                &&& assembled(r, self.line(), self.headers(), self.body(), time)
            },
            self.stage() != ReadStage::Complete ==> {
                &&& r.code == 0
                &&& r.time == time
                &&& r.http_version@ == "HTTP/0.0"@
                &&& r.body@.len() == 0
                &&& r.headers@ == self.headers()
            },
    {
        match self.stage {
            ReadStage::Complete => build_response(self.line.as_slice(), self.headers, self.body.as_slice(), time),
            _ => Response::failed(time, self.headers),
        }
    }
}

fn extend_bytes(v: &mut Vec<u8>, s: &[u8])
    ensures
        final(v)@ == old(v)@ + s@,
{
    let ghost start = v@;
    let mut i: usize = 0;
    while i < s.len()
        invariant
            i <= s@.len(),
            v@ == start + s@.subrange(0, i as int),
        decreases s@.len() - i,
    {
        v.push(s[i]);
        assert(v@ =~= start + s@.subrange(0, i + 1));
        i = i + 1;
    }
    assert(s@.subrange(0, i as int) =~= s@);
}

/// How many bytes of a fixed-length body of `n` bytes come before the time
/// is taken.
pub open spec fn first_read_len_spec(n: usize) -> usize {
    if n > 3 {
        1
    } else {
        n
    }
}

} // verus!
