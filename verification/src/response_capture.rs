//! Response-body capture: head and tail byte accumulation, and the value that
//! an event carries for a response body.
//!
//! A response body streams by chunk by chunk. The accumulator keeps the first
//! `head_cap` bytes of the stream and a ring of the last `tail_cap` bytes of
//! what follows. A body that fits in both is reconstructed exactly; a larger
//! one ships as its two ends under an explicit truncation marker.

use vstd::prelude::*;
use vstd::string::*;

use crate::ai_content;
use crate::headers;
use crate::json;
use crate::json::{Json, JsonTree};
use crate::pii_rules::CompiledPiiRules;
use crate::sanitize;
use crate::text;

verus! {

// ---------------------------------------------------------------------------
// The last bytes of a stream
// ---------------------------------------------------------------------------

/// The last `n` bytes of `s`; all of `s` where it is shorter.
pub open spec fn last_bytes(s: Seq<u8>, n: nat) -> Seq<u8> {
    if s.len() <= n {
        s
    } else {
        s.skip(s.len() - n)
    }
}

/// Rolling ring of the last `cap` bytes pushed.
pub struct TailRing {
    buf: Vec<u8>,
    cap: usize,
    /// Where the next byte goes once the ring is full; the oldest byte then
    /// stands there.
    write: usize,
}

/// A full ring read from its oldest byte on.
spec fn unrolled(buf: Seq<u8>, write: int) -> Seq<u8> {
    buf.skip(write) + buf.take(write)
}

impl TailRing {
    /// The retained bytes in arrival order.
    pub closed spec fn view(&self) -> Seq<u8> {
        unrolled(self.buf@, self.write as int)
    }

    /// How many bytes the ring may retain.
    pub closed spec fn cap(&self) -> nat {
        self.cap as nat
    }

    /// How many bytes the ring holds.
    pub closed spec fn allocated(&self) -> nat {
        self.buf@.len()
    }

    /// Where the next byte goes once the ring is full.
    pub closed spec fn position(&self) -> nat {
        self.write as nat
    }

    /// The ring holds no more than its capacity, and starts at the front until
    /// it is full.
    pub open spec fn wf(&self) -> bool {
        &&& self.allocated() <= self.cap()
        &&& self.allocated() < self.cap() ==> self.position() == 0
        &&& self.cap() > 0 ==> self.position() < self.cap()
        &&& self.cap() == 0 ==> self.position() == 0
    }

    /// A ring with room for `cap` bytes.
    pub fn new(cap: usize) -> (r: TailRing)
        ensures
            r.wf(),
            r.cap() == cap,
            r.allocated() == 0,
            r.view() == Seq::<u8>::empty(),
    {
        let r = TailRing { buf: Vec::new(), cap, write: 0 };
        assert(r.view() =~= Seq::<u8>::empty());
        r
    }

    /// Appends `bytes`, forgetting the oldest bytes that no longer fit. Nothing
    /// changes where there are none, or where the ring has no room at all.
    pub fn push(&mut self, bytes: &[u8])
        requires
            old(self).wf(),
        ensures
            final(self).wf(),
            final(self).cap() == old(self).cap(),
            final(self).view() == last_bytes(old(self).view() + bytes@, old(self).cap()),
            final(self).allocated() == if old(self).allocated() + bytes@.len() < old(self).cap() {
                old(self).allocated() + bytes@.len()
            } else {
                old(self).cap()
            },
            bytes@.len() == 0 || old(self).cap() == 0 ==> *final(self) == *old(self),
    {
        let ghost before = self.view();
        let n: usize = bytes.len();
        if self.cap == 0 || n == 0 {
            assert(before + bytes@ =~= if n == 0 {
                before
            } else {
                bytes@
            });
            assert(self.view() =~= last_bytes(before + bytes@, self.cap as nat));
            return;
        }
        // Only the last `cap` bytes of the input can survive.
        let src: &[u8] = if n >= self.cap {
            &bytes[n - self.cap..n]
        } else {
            bytes
        };
        let mut taken: usize = 0;
        while self.buf.len() < self.cap && taken < src.len()
            invariant
                self.wf(),
                self.cap == old(self).cap,
                taken <= src@.len(),
                self.view() == before + src@.take(taken as int),
                self.buf@.len() == old(self).buf@.len() + taken,
            decreases src@.len() - taken,
        {
            let ghost held = self.buf@;
            self.buf.push(src[taken]);
            taken += 1;
            proof {
                assert(unrolled(held, 0) =~= held);
                assert(unrolled(self.buf@, 0) =~= self.buf@);
                assert(src@.take(taken as int) =~= src@.take(taken - 1).push(src@[taken - 1]));
                assert(self.view() =~= before + src@.take(taken as int));
            }
        }
        let m: usize = src.len();
        self.copy_wrapping(&src[taken..m]);
        proof {
            let kept = before + src@.take(taken as int);
            let rest = src@.subrange(taken as int, m as int);
            assert(kept + rest =~= before + src@);
            assert(last_bytes(before + src@, self.cap as nat) =~= last_bytes(
                before + bytes@,
                self.cap as nat,
            ));
        }
    }

    /// Overwrites from `write` on, wrapping at the end of the buffer.
    fn copy_wrapping(&mut self, src: &[u8])
        requires
            old(self).wf(),
            src@.len() == 0 || old(self).allocated() == old(self).cap(),
        ensures
            final(self).wf(),
            final(self).cap() == old(self).cap(),
            final(self).allocated() == old(self).allocated(),
            final(self).view() == last_bytes(old(self).view() + src@, old(self).cap()),
    {
        let ghost before = self.view();
        let mut k: usize = 0;
        proof {
            assert(last_bytes(before + src@.take(0), self.cap as nat) =~= before);
        }
        while k < src.len()
            invariant
                self.wf(),
                self.cap == old(self).cap,
                k <= src@.len(),
                before.len() == old(self).buf@.len(),
                self.buf@.len() == old(self).buf@.len(),
                src@.len() == 0 || self.buf@.len() == self.cap,
                self.view() == last_bytes(before + src@.take(k as int), self.cap as nat),
            decreases src@.len() - k,
        {
            let ghost prev = self.view();
            let ghost at = self.write as int;
            if self.cap > 0 {
                self.buf.set(self.write, src[k]);
                self.write = if self.write + 1 == self.cap {
                    0
                } else {
                    self.write + 1
                };
                proof {
                    assert(self.view() =~= prev.skip(1).push(src@[k as int]));
                    assert(before + src@.take(k + 1) =~= (before + src@.take(k as int)).push(
                        src@[k as int],
                    ));
                    assert(self.view() =~= last_bytes(before + src@.take(k + 1), self.cap as nat));
                }
            } else {
                proof {
                    assert(self.view() =~= last_bytes(before + src@.take(k + 1), self.cap as nat));
                }
            }
            k += 1;
        }
        proof {
            assert(src@.take(k as int) =~= src@);
        }
    }

    /// The retained bytes in arrival order.
    pub fn into_vec(self) -> (r: Vec<u8>)
        requires
            self.wf(),
        ensures
            r@ == self.view(),
            r@.len() <= self.cap(),
    {
        let n: usize = self.buf.len();
        let mut out: Vec<u8> = Vec::new();
        out.extend_from_slice(&self.buf.as_slice()[self.write..n]);
        out.extend_from_slice(&self.buf.as_slice()[0..self.write]);
        assert(out@ =~= self.view());
        out
    }
}

// ---------------------------------------------------------------------------
// Head and tail of a stream
// ---------------------------------------------------------------------------

/// Head buffer, tail ring and total byte counter. Memory is capped at
/// `head_cap + tail_cap` whatever the size of the body.
pub struct HeadTailAccumulator {
    head: Vec<u8>,
    head_cap: usize,
    tail: TailRing,
    total: u64,
    stream: Ghost<Seq<u8>>,
}

/// Outcome of accumulating a full body stream.
pub enum AccumulatedBody {
    /// No bytes arrived.
    Empty,
    /// The body fitted in head and tail; these are its bytes.
    Complete(Vec<u8>),
    /// The body exceeded the budget; its middle was discarded as it streamed.
    Truncated { total: u64, head: Vec<u8>, tail: Vec<u8> },
}

/// The model of [`AccumulatedBody`].
pub enum BodyOutcome {
    Empty,
    Complete(Seq<u8>),
    Truncated { total: nat, head: Seq<u8>, tail: Seq<u8> },
}

/// What accumulating `stream` under the two caps comes to.
pub open spec fn body_outcome(stream: Seq<u8>, head_cap: nat, tail_cap: nat) -> BodyOutcome {
    if stream.len() == 0 {
        BodyOutcome::Empty
    } else if stream.len() <= head_cap + tail_cap {
        BodyOutcome::Complete(stream)
    } else {
        BodyOutcome::Truncated {
            total: stream.len(),
            head: stream.take(head_cap as int),
            tail: last_bytes(stream, tail_cap),
        }
    }
}

impl AccumulatedBody {
    pub open spec fn view(&self) -> BodyOutcome {
        match self {
            AccumulatedBody::Empty => BodyOutcome::Empty,
            AccumulatedBody::Complete(bytes) => BodyOutcome::Complete(bytes@),
            AccumulatedBody::Truncated { total, head, tail } => BodyOutcome::Truncated {
                total: *total as nat,
                head: head@,
                tail: tail@,
            },
        }
    }
}

impl HeadTailAccumulator {
    /// Every byte pushed so far, in order.
    pub closed spec fn view(&self) -> Seq<u8> {
        self.stream@
    }

    /// How many bytes of the front are retained.
    pub closed spec fn head_cap(&self) -> nat {
        self.head_cap as nat
    }

    /// How many bytes of the end are retained.
    pub closed spec fn tail_cap(&self) -> nat {
        self.tail.cap()
    }

    /// How many bytes of the stream are in memory.
    pub closed spec fn retained(&self) -> nat {
        self.head@.len() + self.tail.allocated()
    }

    /// The head holds the front of the stream, and the ring the end of what
    /// follows it.
    pub closed spec fn wf(&self) -> bool {
        let split = if self.stream@.len() <= self.head_cap {
            self.stream@.len() as int
        } else {
            self.head_cap as int
        };
        &&& self.total == self.stream@.len()
        &&& self.head@ == self.stream@.take(split)
        &&& self.tail.wf()
        &&& self.tail.view() == last_bytes(self.stream@.skip(split), self.tail.cap())
    }

    /// An accumulator that has seen no bytes.
    pub fn new(head_cap: usize, tail_cap: usize) -> (r: HeadTailAccumulator)
        ensures
            r.wf(),
            r.view() == Seq::<u8>::empty(),
            r.head_cap() == head_cap,
            r.tail_cap() == tail_cap,
    {
        let r = HeadTailAccumulator {
            head: Vec::new(),
            head_cap,
            tail: TailRing::new(tail_cap),
            total: 0,
            stream: Ghost(Seq::empty()),
        };
        proof {
            assert(r.stream@.take(0) =~= Seq::<u8>::empty());
            assert(r.stream@.skip(0) =~= Seq::<u8>::empty());
        }
        r
    }

    /// Takes in the next bytes of the stream. Empty chunks change nothing.
    pub fn push(&mut self, chunk: &[u8])
        requires
            old(self).wf(),
            old(self).view().len() + chunk@.len() <= u64::MAX,
        ensures
            final(self).wf(),
            final(self).view() == old(self).view() + chunk@,
            final(self).head_cap() == old(self).head_cap(),
            final(self).tail_cap() == old(self).tail_cap(),
            chunk@.len() == 0 ==> *final(self) == *old(self),
    {
        let n: usize = chunk.len();
        if n == 0 {
            assert(self.view() + chunk@ =~= self.view());
            return;
        }
        self.total = self.total + n as u64;
        let room: usize = self.head_cap - self.head.len();
        let take: usize = if room < n {
            room
        } else {
            n
        };
        let ghost before = self.stream@;
        let ghost after = before + chunk@;
        let ghost old_tail = self.tail.view();
        self.head.extend_from_slice(&chunk[0..take]);
        self.tail.push(&chunk[take..n]);
        self.stream = Ghost(after);
        proof {
            let cap = self.tail.cap();
            let pushed = chunk@.subrange(take as int, n as int);
            if after.len() <= self.head_cap {
                assert(self.head@ =~= after.take(after.len() as int));
                assert(after.skip(after.len() as int) =~= Seq::<u8>::empty());
                assert(before.skip(before.len() as int) =~= Seq::<u8>::empty());
                assert(old_tail + pushed =~= Seq::<u8>::empty());
            } else {
                assert(self.head@ =~= after.take(self.head_cap as int));
                let split = if before.len() <= self.head_cap {
                    before.len() as int
                } else {
                    self.head_cap as int
                };
                let earlier = before.skip(split);
                assert(earlier + pushed =~= after.skip(self.head_cap as int));
                assert(last_bytes(last_bytes(earlier, cap) + pushed, cap) =~= last_bytes(
                    earlier + pushed,
                    cap,
                ));
            }
        }
    }

    /// What the stream came to.
    pub fn finalize(self) -> (r: AccumulatedBody)
        requires
            self.wf(),
        ensures
            r.view() == body_outcome(self.view(), self.head_cap(), self.tail_cap()),
    {
        if self.total == 0 {
            return AccumulatedBody::Empty;
        }
        let ghost stream = self.stream@;
        let ghost hc = self.head_cap as nat;
        let ghost tc = self.tail.cap();
        let mut head = self.head;
        let tail = self.tail.into_vec();
        proof {
            if stream.len() <= hc {
                assert(head@ + tail@ =~= stream);
            } else if stream.len() <= hc + tc {
                assert(head@ + tail@ =~= stream);
            } else {
                assert(tail@ =~= last_bytes(stream, tc));
            }
        }
        if self.total == head.len() as u64 + tail.len() as u64 {
            head.extend_from_slice(tail.as_slice());
            proof {
                assert(head@ =~= stream);
            }
            AccumulatedBody::Complete(head)
        } else {
            AccumulatedBody::Truncated { total: self.total, head, tail }
        }
    }
}

/// A ring never holds more bytes than its capacity, and holds exactly those
/// that it gives back.
pub proof fn law_ring_is_bounded(r: TailRing)
    requires
        r.wf(),
    ensures
        r.allocated() <= r.cap(),
        r.view().len() == r.allocated(),
{
}

/// The accumulator never holds more bytes than its two caps together.
pub proof fn law_memory_is_bounded(a: HeadTailAccumulator)
    requires
        a.wf(),
    ensures
        a.retained() <= a.head_cap() + a.tail_cap(),
{
}

/// How a body is cut into chunks does not matter: pushing `a` and then `b`
/// leaves the same outcome as pushing both at once, and an empty chunk leaves
/// none.
pub proof fn law_chunking_is_immaterial(
    stream: Seq<u8>,
    a: Seq<u8>,
    b: Seq<u8>,
    head_cap: nat,
    tail_cap: nat,
)
    ensures
        body_outcome((stream + a) + b, head_cap, tail_cap) == body_outcome(
            stream + (a + b),
            head_cap,
            tail_cap,
        ),
        body_outcome(stream + Seq::<u8>::empty(), head_cap, tail_cap) == body_outcome(
            stream,
            head_cap,
            tail_cap,
        ),
{
    assert((stream + a) + b =~= stream + (a + b));
    assert(stream + Seq::<u8>::empty() =~= stream);
}

/// Truncation is never silent and never overlaps: the two slices of a
/// truncated body are its first and its last bytes, at full budget, and fewer
/// than all of them.
pub proof fn law_truncation_is_exact(stream: Seq<u8>, head_cap: nat, tail_cap: nat)
    ensures
        match body_outcome(stream, head_cap, tail_cap) {
            BodyOutcome::Empty => stream.len() == 0,
            BodyOutcome::Complete(bytes) => bytes == stream && 0 < bytes.len() <= head_cap
                + tail_cap,
            BodyOutcome::Truncated { total, head, tail } => {
                &&& total == stream.len()
                &&& head.len() == head_cap
                &&& tail.len() == tail_cap
                &&& head.len() + tail.len() < total
                &&& head == stream.take(head_cap as int)
                &&& tail == stream.skip(stream.len() - tail_cap)
            },
        },
{
}

// ---------------------------------------------------------------------------
// Server-sent events
// ---------------------------------------------------------------------------

/// Response content types that are observed.
#[derive(Debug, Clone, Copy, PartialEq, Eq, Structural)]
pub enum ResponseContentKind {
    Json,
    Sse,
}

/// The kind of a response content type.
pub open spec fn content_kind(content_type: Option<Seq<char>>) -> Option<ResponseContentKind> {
    match content_type {
        Some(ct) => if headers::json_type(ct) {
            Some(ResponseContentKind::Json)
        } else if headers::sse_type(ct) {
            Some(ResponseContentKind::Sse)
        } else {
            None
        },
        None => None,
    }
}

/// Classifies a response Content-Type header.
pub fn classify_content_type(content_type: Option<&str>) -> (r: Option<ResponseContentKind>)
    ensures
        r == content_kind(text::str_of(content_type)),
{
    if headers::content_type_is_json(content_type) {
        Some(ResponseContentKind::Json)
    } else if headers::content_type_is_sse(content_type) {
        Some(ResponseContentKind::Sse)
    } else {
        None
    }
}

/// `s` without the spaces in front.
pub open spec fn past_blanks(s: Seq<char>) -> Seq<char>
    decreases s.len(),
{
    if s.len() > 0 && s[0] == ' ' {
        past_blanks(s.drop_first())
    } else {
        s
    }
}

/// The first line of a text with what ends it.
pub open spec fn first_line(s: Seq<char>) -> Seq<char> {
    match s.index_of_first('\n') {
        Some(i) => s.take(i + 1),
        None => s,
    }
}

/// What ends a line: a line feed, possibly behind a carriage return.
pub open spec fn terminator(line: Seq<char>) -> Seq<char> {
    if line.len() == 0 || line.last() != '\n' {
        Seq::empty()
    } else if line.len() >= 2 && line[line.len() - 2] == '\r' {
        seq!['\r', '\n']
    } else {
        seq!['\n']
    }
}

/// A line without what ends it.
pub open spec fn line_content(line: Seq<char>) -> Seq<char> {
    line.take(line.len() - terminator(line).len())
}

/// What ends each of the complete lines of a text, in order.
pub open spec fn terminators(s: Seq<char>) -> Seq<Seq<char>>
    decreases s.len(),
{
    if !s.contains('\n') {
        Seq::empty()
    } else {
        let line = first_line(s);
        if 0 < line.len() <= s.len() {
            seq![terminator(line)] + terminators(s.skip(line.len() as int))
        } else {
            Seq::empty()
        }
    }
}

/// What a `data:` line carries, where the text is one and it carries an object
/// or array.
pub open spec fn data_payload(line: Seq<char>) -> Option<JsonTree> {
    if text::starts_with(line, "data:"@) {
        match json::parsed(vstd::utf8::encode_utf8(past_blanks(line.skip(5)))) {
            Some(t) => if json::is_container(t) {
                Some(t)
            } else {
                None
            },
            None => None,
        }
    } else {
        None
    }
}

/// A line after sanitizing: a JSON payload like any JSON body, any other line
/// by the rules on values.
pub open spec fn sse_line(
    line: Seq<char>,
    rules: CompiledPiiRules,
    secret: Option<Seq<char>>,
) -> Seq<char> {
    match data_payload(line) {
        Some(t) => "data: "@ + json::printed(sanitize::sanitized(t, 0, rules, secret)),
        None => sanitize::scrubbed(line, rules.patterns@, secret),
    }
}

/// A text after sanitizing it line by line.
pub open spec fn sse_text(
    s: Seq<char>,
    rules: CompiledPiiRules,
    secret: Option<Seq<char>>,
) -> Seq<char>
    decreases s.len(),
{
    let line = first_line(s);
    if 0 < line.len() <= s.len() {
        sse_line(line_content(line), rules, secret) + terminator(line) + sse_text(
            s.skip(line.len() as int),
            rules,
            secret,
        )
    } else {
        Seq::empty()
    }
}

/// Sanitizes one line.
fn sanitize_sse_line(line: &[char], rules: &CompiledPiiRules, secret: Option<&str>) -> (r: String)
    ensures
        r@ == sse_line(line@, *rules, text::str_of(secret)),
        sanitize::keeps_line(line@, r@),
{
    let prefix = text::chars_of("data:");
    proof {
        reveal_strlit("data:");
        reveal_strlit("data: ");
    }
    if text::match_at(line, prefix.as_slice(), 0) {
        let n: usize = line.len();
        let mut i: usize = 5;
        while i < n && line[i] == ' '
            invariant
                n == line@.len(),
                5 <= i <= n,
                past_blanks(line@.skip(5)) == past_blanks(line@.skip(i as int)),
            decreases n - i,
        {
            proof {
                assert(line@.skip(i as int).drop_first() =~= line@.skip(i + 1));
            }
            i += 1;
        }
        let payload = text::string_of(text::slice_from(line, i));
        match Json::parse(payload.as_str().as_bytes()) {
            Some(parsed) => {
                if parsed.is_container() {
                    let clean = sanitize::sanitize_value_with(parsed, rules, secret);
                    let body = clean.to_text();
                    let mut out = "data: ".to_string();
                    out.append(body.as_str());
                    proof {
                        assert forall|k: int| 0 <= k < out@.len() implies #[trigger] out@[k]
                            as u32 >= 0x20 by {
                            if k >= 6 {
                                assert(out@[k] == body@[k - 6]);
                            }
                        }
                        if out@.contains('\n') {
                            let k = choose|k: int| 0 <= k < out@.len() && out@[k] == '\n';
                            assert(out@[k] as u32 >= 0x20);
                        }
                        assert(out@.last() as u32 >= 0x20);
                    }
                    return out;
                }
            },
            None => {},
        }
    }
    sanitize::scrub_text(text::string_of(line), rules, secret)
}

/// Sanitizes the text of an event stream line by line. What ends a line, and
/// so the framing of events, stays as it is.
#[verifier::rlimit(50)]
pub fn sanitize_sse_text(s: &str, rules: &CompiledPiiRules, secret: Option<&str>) -> (r: String)
    ensures
        r@ == sse_text(s@, *rules, text::str_of(secret)),
        terminators(r@) == terminators(s@),
{
    let v = text::chars_of(s);
    let n: usize = v.len();
    let ghost sec = text::str_of(secret);
    let mut out = String::new();
    let mut from: usize = 0;
    let ghost mut done: Seq<Seq<char>> = Seq::empty();
    proof {
        assert(v@.skip(0) =~= v@);
        assert(out@ + sse_text(v@, *rules, sec) =~= sse_text(v@, *rules, sec));
        assert(done + terminators(v@) =~= terminators(v@));
        assert(terminators(out@) =~= done);
    }
    while from < n
        invariant
            n == v@.len(),
            from <= n,
            sec == text::str_of(secret),
            sse_text(v@, *rules, sec) == out@ + sse_text(v@.skip(from as int), *rules, sec),
            terminators(v@) == done + terminators(v@.skip(from as int)),
            terminators(out@) == done,
            from < n ==> out@.len() == 0 || out@.last() == '\n',
        decreases n - from,
    {
        let ghost rest = v@.skip(from as int);
        let ghost line = first_line(rest);
        let view = text::slice_from(v.as_slice(), from);
        let at = text::find_char(view, '\n');
        let len: usize = if at < view.len() {
            at + 1
        } else {
            at
        };
        proof {
            if at < rest.len() {
                assert(line =~= rest.take(len as int));
            } else {
                assert(line =~= rest.take(len as int));
            }
        }
        let end: usize = if at < view.len() {
            if at > 0 && view[at - 1] == '\r' {
                at - 1
            } else {
                at
            }
        } else {
            at
        };
        let content = text::copy_range(view, 0, end);
        proof {
            assert(terminator(line).len() == len - end);
            assert(content@ =~= line_content(line));
            assert(!content@.contains('\n'));
            assert(rest.subrange(end as int, len as int) =~= terminator(line));
        }
        let clean = sanitize_sse_line(content.as_slice(), rules, secret);
        let term = text::string_of(text::copy_range(view, end, len).as_slice());
        let ghost before = out@;
        out.append(clean.as_str());
        out.append(term.as_str());
        proof {
            let tail = v@.skip(from + len);
            assert(rest.skip(len as int) =~= tail);
            let fresh = clean@ + term@;
            assert(before + (clean@ + term@ + sse_text(tail, *rules, sec)) =~= before + fresh
                + sse_text(tail, *rules, sec));
            assert(out@ =~= before + fresh);
            lemma_line_terminators(clean@, terminator(line));
            lemma_terminators_append(before, fresh);
            if at < rest.len() {
                assert(rest[at as int] == '\n');
                assert(rest.contains('\n'));
                assert(done + (seq![terminator(line)] + terminators(tail)) =~= done.push(
                    terminator(line),
                ) + terminators(tail));
                done = done.push(terminator(line));
                assert(terminators(out@) =~= done);
            } else {
                assert(!rest.contains('\n'));
                assert(tail =~= Seq::<char>::empty());
                assert(terminators(out@) =~= done);
            }
        }
        from = from + len;
    }
    proof {
        assert(v@.skip(from as int) =~= Seq::<char>::empty());
        assert(out@ + Seq::<char>::empty() =~= out@);
        assert(done + Seq::<Seq<char>>::empty() =~= done);
    }
    out
}

/// The ends of one line.
proof fn lemma_line_terminators(content: Seq<char>, end: Seq<char>)
    requires
        !content.contains('\n'),
        end == Seq::<char>::empty() || end == seq!['\r', '\n'] || end == seq!['\n'] && (content.len()
            == 0 || content.last() != '\r'),
    ensures
        terminators(content + end) == (if end.len() == 0 {
            Seq::<Seq<char>>::empty()
        } else {
            seq![end]
        }),
{
    let s = content + end;
    if end.len() == 0 {
        assert(s =~= content);
    } else {
        assert(s.last() == '\n');
        assert(s.contains('\n'));
        s.index_of_first_ensures('\n');
        let i = s.index_of_first('\n')->0;
        assert(i == s.len() - 1) by {
            if i < content.len() {
                assert(content[i] == '\n');
            }
        }
        assert(first_line(s) =~= s);
        assert(terminator(s) =~= end);
        assert(s.skip(s.len() as int) =~= Seq::<char>::empty());
        assert(terminators(Seq::<char>::empty()) =~= Seq::<Seq<char>>::empty());
        assert(terminators(s) =~= seq![end]);
    }
}

/// The ends of complete lines and of what follows them.
proof fn lemma_terminators_append(a: Seq<char>, b: Seq<char>)
    requires
        a.len() == 0 || a.last() == '\n',
    ensures
        terminators(a + b) == terminators(a) + terminators(b),
    decreases a.len(),
{
    let s = a + b;
    if a.len() == 0 {
        assert(s =~= b);
        assert(terminators(a) =~= Seq::<Seq<char>>::empty());
        assert(terminators(s) =~= terminators(a) + terminators(b));
    } else {
        a.index_of_first_ensures('\n');
        assert(a[a.len() - 1] == '\n');
        assert(a.contains('\n'));
        let i = a.index_of_first('\n')->0;
        s.index_of_first_ensures('\n');
        assert(s[i] == '\n');
        assert(s.contains('\n'));
        let j = s.index_of_first('\n')->0;
        assert(i == j) by {
            if j < i {
                assert(a[j] == '\n');
            } else if i < j {
                assert(s[i] == a[i]);
            }
        }
        let line = first_line(a);
        assert(first_line(s) =~= line);
        let rest = a.skip(line.len() as int);
        assert(s.skip(line.len() as int) =~= rest + b);
        assert(rest.len() == 0 || rest.last() == '\n');
        lemma_terminators_append(rest, b);
        assert(terminators(s) =~= terminators(a) + terminators(b));
    }
}

// ---------------------------------------------------------------------------
// The captured body
// ---------------------------------------------------------------------------

/// Marker key: the encoding of a body that was not captured.
pub const KEY_SKIPPED_ENCODING: &'static str = "body_skipped_encoding";

/// Marker key: the body was cut.
pub const KEY_TRUNCATED: &'static str = "body_truncated";

/// Marker key: how many bytes the body had.
pub const KEY_BYTES_TOTAL: &'static str = "body_bytes_total";

/// Marker key: how many bytes of the body are not shipped.
pub const KEY_BYTES_DROPPED: &'static str = "body_bytes_dropped";

/// Marker key: the front of the body.
pub const KEY_HEAD: &'static str = "head";

/// Marker key: the end of the body.
pub const KEY_TAIL: &'static str = "tail";

/// The marker for a body in a compressed encoding.
pub open spec fn encoding_marker(encoding: Seq<char>) -> JsonTree {
    JsonTree::Object(seq![(KEY_SKIPPED_ENCODING@, JsonTree::Text(encoding))])
}

/// The marker for a body that was cut.
pub open spec fn truncation_marker(
    total: nat,
    dropped: nat,
    head: Seq<char>,
    tail: Seq<char>,
) -> JsonTree {
    JsonTree::Object(
        seq![
            (KEY_BYTES_DROPPED@, JsonTree::Number(text::decimal(dropped))),
            (KEY_BYTES_TOTAL@, JsonTree::Number(text::decimal(total))),
            (KEY_TRUNCATED@, JsonTree::Bool(true)),
            (KEY_HEAD@, JsonTree::Text(head)),
            (KEY_TAIL@, JsonTree::Text(tail)),
        ],
    )
}

/// The text of a slice after sanitizing.
pub open spec fn slice_text(
    s: Seq<char>,
    kind: ResponseContentKind,
    rules: CompiledPiiRules,
    secret: Option<Seq<char>>,
) -> Seq<char> {
    match kind {
        ResponseContentKind::Sse => sse_text(s, rules, secret),
        ResponseContentKind::Json => sanitize::scrubbed(s, rules.patterns@, secret),
    }
}

/// What an event carries for a complete body.
pub open spec fn complete_body(
    bytes: Seq<u8>,
    kind: ResponseContentKind,
    endpoint: Seq<char>,
    capture_ai_content: bool,
    rules: CompiledPiiRules,
    secret: Option<Seq<char>>,
) -> Option<JsonTree> {
    let s = text::lossy_text(bytes);
    match json::parsed(bytes) {
        Some(t) if json::is_container(t) => if !capture_ai_content
            && ai_content::suppressed_response(endpoint, t) {
            None
        } else {
            Some(sanitize::sanitized(t, 0, rules, secret))
        },
        _ => match kind {
            ResponseContentKind::Sse => if !capture_ai_content && ai_content::suppressed_text(
                endpoint,
                s,
            ) {
                None
            } else {
                Some(JsonTree::Text(sse_text(s, rules, secret)))
            },
            ResponseContentKind::Json => None,
        },
    }
}

/// What an event carries for a body that was cut.
pub open spec fn truncated_body(
    total: nat,
    head: Seq<u8>,
    tail: Seq<u8>,
    kind: ResponseContentKind,
    endpoint: Seq<char>,
    capture_ai_content: bool,
    rules: CompiledPiiRules,
    secret: Option<Seq<char>>,
) -> Option<JsonTree> {
    let (h, t) = (text::lossy_text(head), text::lossy_text(tail));
    if !capture_ai_content && ai_content::suppressed_slices(endpoint, h, t) {
        None
    } else {
        Some(
            truncation_marker(
                total,
                (total - head.len() - tail.len()) as nat,
                slice_text(h, kind, rules, secret),
                slice_text(t, kind, rules, secret),
            ),
        )
    }
}

/// What an event carries for an accumulated body.
pub open spec fn captured_body(
    outcome: BodyOutcome,
    kind: ResponseContentKind,
    endpoint: Seq<char>,
    capture_ai_content: bool,
    rules: CompiledPiiRules,
    secret: Option<Seq<char>>,
) -> Option<JsonTree> {
    match outcome {
        BodyOutcome::Empty => None,
        BodyOutcome::Complete(bytes) => complete_body(
            bytes,
            kind,
            endpoint,
            capture_ai_content,
            rules,
            secret,
        ),
        BodyOutcome::Truncated { total, head, tail } => truncated_body(
            total,
            head,
            tail,
            kind,
            endpoint,
            capture_ai_content,
            rules,
            secret,
        ),
    }
}

/// The marker for a body in a compressed encoding. A slice of a compressed
/// stream cannot be decoded, so such a body is not captured.
pub fn skipped_encoding_marker(encoding_lower: &str) -> (r: Json)
    ensures
        r.tree() == encoding_marker(encoding_lower@),
        json::ordered(r.tree()),
{
    let mut members: Vec<(String, Json)> = Vec::new();
    members.push((KEY_SKIPPED_ENCODING.to_string(), Json::Text(encoding_lower.to_string())));
    let r = Json::Object(members);
    proof {
        reveal_with_fuel(Json::tree, 2);
        reveal_with_fuel(json::ordered, 2);
        assert(r.tree()->Object_0 =~= encoding_marker(encoding_lower@)->Object_0);
    }
    r
}

/// The keys of the truncation marker stand in order.
proof fn lemma_marker_keys_in_order()
    ensures
        text::precedes(KEY_BYTES_DROPPED@, KEY_BYTES_TOTAL@),
        text::precedes(KEY_BYTES_TOTAL@, KEY_TRUNCATED@),
        text::precedes(KEY_TRUNCATED@, KEY_HEAD@),
        text::precedes(KEY_HEAD@, KEY_TAIL@),
{
    reveal_strlit("body_bytes_dropped");
    reveal_strlit("body_bytes_total");
    reveal_strlit("body_truncated");
    reveal_strlit("head");
    reveal_strlit("tail");
    text::precedes_by_difference(KEY_BYTES_DROPPED@, KEY_BYTES_TOTAL@, 11);
    text::precedes_by_difference(KEY_BYTES_TOTAL@, KEY_TRUNCATED@, 5);
    text::precedes_by_difference(KEY_TRUNCATED@, KEY_HEAD@, 0);
    text::precedes_by_difference(KEY_HEAD@, KEY_TAIL@, 0);
}

/// The marker for a body that was cut.
fn make_truncation_marker(total: u64, dropped: u64, head: String, tail: String) -> (r: Json)
    ensures
        r.tree() == truncation_marker(total as nat, dropped as nat, head@, tail@),
        json::ordered(r.tree()),
{
    let mut members: Vec<(String, Json)> = Vec::new();
    let ghost expected = truncation_marker(total as nat, dropped as nat, head@, tail@);
    members.push((KEY_BYTES_DROPPED.to_string(), Json::Number(json::number_from(dropped))));
    members.push((KEY_BYTES_TOTAL.to_string(), Json::Number(json::number_from(total))));
    members.push((KEY_TRUNCATED.to_string(), Json::Bool(true)));
    members.push((KEY_HEAD.to_string(), Json::Text(head)));
    members.push((KEY_TAIL.to_string(), Json::Text(tail)));
    let r = Json::Object(members);
    proof {
        reveal_with_fuel(Json::tree, 2);
        reveal_with_fuel(json::ordered, 2);
        assert(r.tree()->Object_0 =~= expected->Object_0);
        lemma_marker_keys_in_order();
        let m = r.tree()->Object_0;
        text::precedes_transitive(m[0].0, m[1].0, m[2].0);
        text::precedes_transitive(m[0].0, m[2].0, m[3].0);
        text::precedes_transitive(m[0].0, m[3].0, m[4].0);
        text::precedes_transitive(m[1].0, m[2].0, m[3].0);
        text::precedes_transitive(m[1].0, m[3].0, m[4].0);
        text::precedes_transitive(m[2].0, m[3].0, m[4].0);
        assert(json::keys_in_order(m));
    }
    r
}

/// Sanitizes the text of a slice.
fn sanitize_slice(
    s: String,
    kind: ResponseContentKind,
    rules: &CompiledPiiRules,
    secret: Option<&str>,
) -> (r: String)
    ensures
        r@ == slice_text(s@, kind, *rules, text::str_of(secret)),
{
    match kind {
        ResponseContentKind::Sse => sanitize_sse_text(s.as_str(), rules, secret),
        ResponseContentKind::Json => sanitize::scrub_text(s, rules, secret),
    }
}

/// The value that an event carries for an accumulated body.
///
/// A complete body that parses as an object or array ships sanitized. One that
/// does not ships as text where it is an event stream, and not at all where it
/// should have been JSON. A body that was cut ships as a marker with its two
/// ends. Where AI content is not captured, model output is withheld in each
/// case.
pub fn finalize_response_body(
    outcome: AccumulatedBody,
    kind: ResponseContentKind,
    endpoint: &str,
    capture_ai_content: bool,
    rules: &CompiledPiiRules,
    secret: Option<&str>,
) -> (r: Option<Json>)
    requires
        outcome matches AccumulatedBody::Truncated { total, head, tail } ==> head@.len()
            + tail@.len() <= total,
    ensures
        r is Some <==> captured_body(
            outcome.view(),
            kind,
            endpoint@,
            capture_ai_content,
            *rules,
            text::str_of(secret),
        ) is Some,
        r matches Some(j) ==> Some(j.tree()) == captured_body(
            outcome.view(),
            kind,
            endpoint@,
            capture_ai_content,
            *rules,
            text::str_of(secret),
        ) && json::ordered(j.tree()),
{
    match outcome {
        AccumulatedBody::Empty => None,
        AccumulatedBody::Complete(bytes) => {
            match Json::parse(bytes.as_slice()) {
                Some(parsed) => {
                    if parsed.is_container() {
                        if !capture_ai_content && ai_content::should_suppress_response(
                            endpoint,
                            &parsed,
                        ) {
                            return None;
                        }
                        return Some(sanitize::sanitize_value_with(parsed, rules, secret));
                    }
                },
                None => {},
            }
            match kind {
                ResponseContentKind::Sse => {
                    let s = text::decode_lossy(bytes.as_slice());
                    if !capture_ai_content && ai_content::should_suppress_response_text(
                        endpoint,
                        s.as_str(),
                    ) {
                        return None;
                    }
                    Some(Json::Text(sanitize_sse_text(s.as_str(), rules, secret)))
                },
                ResponseContentKind::Json => None,
            }
        },
        AccumulatedBody::Truncated { total, head, tail } => {
            let dropped: u64 = total - head.len() as u64 - tail.len() as u64;
            let h = text::decode_lossy(head.as_slice());
            let t = text::decode_lossy(tail.as_slice());
            if !capture_ai_content && ai_content::should_suppress_truncated_response(
                endpoint,
                h.as_str(),
                t.as_str(),
            ) {
                return None;
            }
            let h = sanitize_slice(h, kind, rules, secret);
            let t = sanitize_slice(t, kind, rules, secret);
            Some(make_truncation_marker(total, dropped, h, t))
        },
    }
}

// ---------------------------------------------------------------------------
// Laws
// ---------------------------------------------------------------------------

/// A response is JSON where its type says so in whatever case, else an event
/// stream where it says that, and else it is not observed.
pub proof fn law_kinds_of_content(content_type: Seq<char>)
    ensures
        content_kind(None) is None,
        text::contains(text::lower(content_type), "application/json"@) ==> content_kind(
            Some(content_type),
        ) == Some(ResponseContentKind::Json),
        !text::contains(text::lower(content_type), "application/json"@) ==> (content_kind(
            Some(content_type),
        ) == if text::contains(text::lower(content_type), "text/event-stream"@) {
            Some(ResponseContentKind::Sse)
        } else {
            None
        }),
{
}

/// A body that was cut ships as a marker, unless it is withheld as model output:
/// it says that the body was cut, how many bytes it had and how many of them are
/// missing, and carries both ends. The ends of a JSON body ship with every rule
/// on values applied to them, those of an event stream line by line.
pub proof fn law_a_cut_body_ships_its_ends(
    total: nat,
    head: Seq<u8>,
    tail: Seq<u8>,
    kind: ResponseContentKind,
    endpoint: Seq<char>,
    capture_ai_content: bool,
    rules: CompiledPiiRules,
    secret: Option<Seq<char>>,
)
    requires
        head.len() + tail.len() <= total,
        capture_ai_content || !ai_content::suppressed_slices(
            endpoint,
            text::lossy_text(head),
            text::lossy_text(tail),
        ),
    ensures
        captured_body(
            BodyOutcome::Truncated { total, head, tail },
            kind,
            endpoint,
            capture_ai_content,
            rules,
            secret,
        ) matches Some(t) && {
            &&& t matches JsonTree::Object(members) && members.len() == 5
            &&& json::member(t, "body_truncated"@) == Some(JsonTree::Bool(true))
            &&& json::member(t, "body_bytes_total"@) == Some(JsonTree::Number(text::decimal(total)))
            &&& json::member(t, "body_bytes_dropped"@) == Some(
                JsonTree::Number(text::decimal((total - head.len() - tail.len()) as nat)),
            )
            &&& kind == ResponseContentKind::Json ==> json::member(t, "head"@) == Some(
                JsonTree::Text(
                    sanitize::scrubbed(text::lossy_text(head), rules.patterns@, secret),
                ),
            ) && json::member(t, "tail"@) == Some(
                JsonTree::Text(
                    sanitize::scrubbed(text::lossy_text(tail), rules.patterns@, secret),
                ),
            )
            &&& kind == ResponseContentKind::Sse ==> json::member(t, "head"@) == Some(
                JsonTree::Text(sse_text(text::lossy_text(head), rules, secret)),
            ) && json::member(t, "tail"@) == Some(
                JsonTree::Text(sse_text(text::lossy_text(tail), rules, secret)),
            )
        },
{
    reveal_strlit("body_bytes_dropped");
    reveal_strlit("body_bytes_total");
    reveal_strlit("body_truncated");
    reveal_strlit("head");
    reveal_strlit("tail");
    assert("body_bytes_dropped"@.len() == 18 && "body_bytes_total"@.len() == 16
        && "body_truncated"@.len() == 14);
    assert("head"@[0] == 'h' && "tail"@[0] == 't');
    reveal_with_fuel(json::lookup, 6);
    let t = captured_body(
        BodyOutcome::Truncated { total, head, tail },
        kind,
        endpoint,
        capture_ai_content,
        rules,
        secret,
    )->0;
    let m = t->Object_0;
    assert(m.drop_first()[0] == m[1]);
    assert(m.drop_first().drop_first()[0] == m[2]);
    assert(m.drop_first().drop_first().drop_first()[0] == m[3]);
    assert(m.drop_first().drop_first().drop_first().drop_first()[0] == m[4]);
}

/// No match of a rule ships raw from the end of a cut JSON body: where the only
/// rule redacts and matches once in the front of it, what ships of that front has
/// the marker in place of the match.
pub proof fn law_no_match_ships_from_a_cut_body(
    total: nat,
    head: Seq<u8>,
    tail: Seq<u8>,
    endpoint: Seq<char>,
    rules: CompiledPiiRules,
    secret: Option<Seq<char>>,
    a: int,
    b: int,
)
    requires
        head.len() + tail.len() <= total,
        rules.patterns@.len() == 1,
        rules.patterns@[0].match_values,
        rules.patterns@[0].action == crate::pii_rules::PiiAction::Redact,
        crate::pattern::spans(rules.patterns@[0].regex, text::lossy_text(head)) == seq![(a, b)],
        0 <= a <= b <= text::lossy_text(head).len(),
    ensures
        captured_body(
            BodyOutcome::Truncated { total, head, tail },
            ResponseContentKind::Json,
            endpoint,
            true,
            rules,
            secret,
        ) matches Some(t) && json::member(t, "head"@) == Some(
            JsonTree::Text(
                text::lossy_text(head).take(a) + "[REDACTED]"@ + text::lossy_text(head).skip(b),
            ),
        ),
{
    law_a_cut_body_ships_its_ends(
        total,
        head,
        tail,
        ResponseContentKind::Json,
        endpoint,
        true,
        rules,
        secret,
    );
    let rule = rules.patterns@[0];
    let s = text::lossy_text(head);
    assert(rules.patterns@ =~= Seq::<crate::pii_rules::CompiledPattern>::empty().push(rule));
    sanitize::law_rules_on_values_run_in_order(s, Seq::empty(), rule, secret);
    crate::pattern::law_what_replaces_a_match(rule.regex, s, "[REDACTED]"@, Seq::empty());
}

/// A complete body that reads as an object or array ships sanitized, whatever its
/// type; any other ships as text where it is an event stream, and not at all
/// where it should have been JSON. Nothing ships where nothing came.
pub proof fn law_a_complete_body_ships_sanitized(
    bytes: Seq<u8>,
    kind: ResponseContentKind,
    endpoint: Seq<char>,
    rules: CompiledPiiRules,
    secret: Option<Seq<char>>,
)
    ensures
        captured_body(BodyOutcome::Empty, kind, endpoint, true, rules, secret) is None,
        json::parsed(bytes) matches Some(t) && (t is Object || t is Array) ==> captured_body(
            BodyOutcome::Complete(bytes),
            kind,
            endpoint,
            true,
            rules,
            secret,
        ) == Some(sanitize::sanitized(json::parsed(bytes)->0, 0, rules, secret)),
        !(json::parsed(bytes) matches Some(t) && (t is Object || t is Array)) ==> captured_body(
            BodyOutcome::Complete(bytes),
            kind,
            endpoint,
            true,
            rules,
            secret,
        ) == match kind {
            ResponseContentKind::Sse => Some(
                JsonTree::Text(sse_text(text::lossy_text(bytes), rules, secret)),
            ),
            ResponseContentKind::Json => None,
        },
{
}

/// Withholding model output takes bodies away and changes none: with the capture
/// of AI content off a body ships as with it on, or does not ship; and it does
/// not where it parses and looks like model output, where it does not parse and
/// its text does, or where it was cut and its ends do.
pub proof fn law_withholding_only_takes_away(
    outcome: BodyOutcome,
    kind: ResponseContentKind,
    endpoint: Seq<char>,
    rules: CompiledPiiRules,
    secret: Option<Seq<char>>,
)
    ensures
        ({
            let on = captured_body(outcome, kind, endpoint, true, rules, secret);
            let off = captured_body(outcome, kind, endpoint, false, rules, secret);
            let model_output = match outcome {
                BodyOutcome::Empty => false,
                BodyOutcome::Complete(bytes) => match json::parsed(bytes) {
                    Some(t) => if t is Object || t is Array {
                        ai_content::suppressed_response(endpoint, t)
                    } else {
                        ai_content::suppressed_text(endpoint, text::lossy_text(bytes))
                    },
                    None => ai_content::suppressed_text(endpoint, text::lossy_text(bytes)),
                },
                BodyOutcome::Truncated { total, head, tail } => ai_content::suppressed_slices(
                    endpoint,
                    text::lossy_text(head),
                    text::lossy_text(tail),
                ),
            };
            off == if model_output {
                None
            } else {
                on
            }
        }),
{
}

/// The marker for a compressed body names its encoding and nothing else.
pub proof fn law_the_marker_names_the_encoding(encoding: Seq<char>)
    ensures
        encoding_marker(encoding) == JsonTree::Object(
            seq![("body_skipped_encoding"@, JsonTree::Text(encoding))],
        ),
{
}

/// The text holds no line feed.
pub open spec fn is_one_line(s: Seq<char>) -> bool {
    !s.contains('\n')
}

/// An event stream is sanitized line by line: what stands behind a line has no
/// bearing on it, nor it on that, and what ends it stays.
pub proof fn law_lines_are_sanitized_one_by_one(
    line: Seq<char>,
    rest: Seq<char>,
    rules: CompiledPiiRules,
    secret: Option<Seq<char>>,
)
    requires
        is_one_line(line),
        line.len() == 0 || line.last() != '\r',
    ensures
        sse_text(line + seq!['\n'] + rest, rules, secret) == sse_line(line, rules, secret) + seq![
            '\n',
        ] + sse_text(rest, rules, secret),
        sse_text(line + seq!['\r', '\n'] + rest, rules, secret) == sse_line(line, rules, secret)
            + seq!['\r', '\n'] + sse_text(rest, rules, secret),
        line.len() > 0 ==> sse_text(line, rules, secret) == sse_line(line, rules, secret),
        sse_text(Seq::empty(), rules, secret) == Seq::<char>::empty(),
{
    let empty = Seq::<char>::empty();
    assert(first_line(empty) == empty) by {
        empty.index_of_first_ensures('\n');
    }
    lemma_first_line(line, empty, rest);
    lemma_first_line(line, seq!['\r'], rest);
    assert(line + empty + seq!['\n'] + rest =~= line + seq!['\n'] + rest);
    assert(line + seq!['\r'] + seq!['\n'] + rest =~= line + seq!['\r', '\n'] + rest);
    let a = line + empty + seq!['\n'];
    let b = line + seq!['\r'] + seq!['\n'];
    assert(terminator(a) == seq!['\n']);
    assert(line_content(a) =~= line);
    assert(b[b.len() - 2] == '\r');
    assert(line_content(b) =~= line);
    assert((line + seq!['\n'] + rest).skip(a.len() as int) =~= rest);
    assert((line + seq!['\r', '\n'] + rest).skip(b.len() as int) =~= rest);
    assert(seq!['\r'] + seq!['\n'] =~= seq!['\r', '\n']);
    if line.len() > 0 {
        line.index_of_first_ensures('\n');
        assert(first_line(line) == line);
        assert(line.last() != '\n') by {
            if line.last() == '\n' {
                assert(line.contains('\n'));
            }
        }
        assert(line_content(line) =~= line);
        assert(line.skip(line.len() as int) =~= empty);
        assert(sse_text(empty, rules, secret) =~= empty);
        assert(sse_line(line, rules, secret) + empty + empty =~= sse_line(line, rules, secret));
    }
}

/// The first line ends at the first line feed.
proof fn lemma_first_line(line: Seq<char>, cr: Seq<char>, rest: Seq<char>)
    requires
        is_one_line(line),
        !cr.contains('\n'),
    ensures
        first_line(line + cr + seq!['\n'] + rest) == line + cr + seq!['\n'],
{
    let s = line + cr + seq!['\n'] + rest;
    let n = (line.len() + cr.len()) as int;
    assert(s[n] == '\n');
    assert(s.contains('\n'));
    s.index_of_first_ensures('\n');
    let i = s.index_of_first('\n')->0;
    if i < n {
        if i < line.len() {
            assert(line[i] == '\n');
        } else {
            assert(cr[i - line.len()] == '\n');
        }
    }
    assert(s.take(n + 1) =~= line + cr + seq!['\n']);
}

/// A data line that carries an object or array ships it sanitized like any JSON
/// body, behind one blank; every other line ships with the rules on values
/// applied to it.
pub proof fn law_data_lines_carry_sanitized_json(
    blanks: Seq<char>,
    payload: Seq<char>,
    other: Seq<char>,
    t: JsonTree,
    rules: CompiledPiiRules,
    secret: Option<Seq<char>>,
)
    requires
        forall|k: int| 0 <= k < blanks.len() ==> #[trigger] blanks[k] == ' ',
        payload.len() == 0 || payload[0] != ' ',
    ensures
        json::parsed(vstd::utf8::encode_utf8(payload)) == Some(t) && (t is Object || t is Array)
            ==> sse_line("data:"@ + blanks + payload, rules, secret) == "data: "@ + json::printed(
            sanitize::sanitized(t, 0, rules, secret),
        ),
        !(json::parsed(vstd::utf8::encode_utf8(payload)) matches Some(p) && (p is Object
            || p is Array)) ==> sse_line("data:"@ + blanks + payload, rules, secret)
            == sanitize::scrubbed("data:"@ + blanks + payload, rules.patterns@, secret),
        !text::occurs_at(other, "data:"@, 0) ==> sse_line(other, rules, secret)
            == sanitize::scrubbed(other, rules.patterns@, secret),
{
    reveal_strlit("data:");
    let line = "data:"@ + blanks + payload;
    assert(line.subrange(0, 5) =~= "data:"@);
    assert(line.skip(5) =~= blanks + payload);
    lemma_past_blanks(blanks, payload);
}

/// Blanks in front are passed over.
proof fn lemma_past_blanks(blanks: Seq<char>, payload: Seq<char>)
    requires
        forall|k: int| 0 <= k < blanks.len() ==> #[trigger] blanks[k] == ' ',
        payload.len() == 0 || payload[0] != ' ',
    ensures
        past_blanks(blanks + payload) == payload,
    decreases blanks.len(),
{
    if blanks.len() > 0 {
        assert(blanks[0] == ' ');
        assert((blanks + payload).drop_first() =~= blanks.drop_first() + payload);
        lemma_past_blanks(blanks.drop_first(), payload);
    } else {
        assert(blanks + payload =~= payload);
    }
}

} // verus!
