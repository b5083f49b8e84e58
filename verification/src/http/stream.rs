//! SSE parsing: `data:` framing, `[DONE]` handling, and mid-stream error
//! detection.
//!
//! The API may return 200 OK, start streaming, then inject
//! `{"error": {"code": 429, ...}}` *inside* the stream. That ends the stream
//! with `AiError::StreamInterrupted(...)`, after the key was marked
//! `Cooldown`/`Banned` accordingly.

use std::collections::VecDeque;

use vstd::prelude::*;
use vstd::utf8::{decode_utf8, valid_utf8};

use super::dispatcher::{
    clock_kept, consulted, cooling, drawn_jitter, health_reported, jitter, Dispatcher,
};
use super::models::{ApiErrorBody, ChatChunk, ErrorView};
use crate::clock::{Duration, Instant, Moment};
use crate::crypto::primitives::{lossy_text, text_lossy};
use crate::error::{AiError, StreamInterruption};
use crate::order::texts;
use crate::storage::manager::KeyManager;
use crate::storage::store::KeyStore;
use crate::storage::HealthView;
use crate::text::{
    chars_of, same_text, string_of, strip_prefix, trim, trim_end, trimmed, without_trailing,
};

verus! {

/// What one line of the stream carries.
pub enum Line {
    /// Nothing: a comment, another field, or a keep-alive.
    Ignore,
    /// The end of the stream.
    Done,
    /// A payload to be parsed.
    Data(String),
}

/// What a [`Line`] stands for.
pub enum LineView {
    /// Nothing.
    Ignore,
    /// The end of the stream.
    Done,
    /// A payload to be parsed.
    Data(Seq<char>),
}

impl View for Line {
    type V = LineView;

    open spec fn view(&self) -> LineView {
        match *self {
            Line::Ignore => LineView::Ignore,
            Line::Done => LineView::Done,
            Line::Data(data) => LineView::Data(data@),
        }
    }
}

impl LineView {
    /// What a line carries. Only `data:` lines carry payloads; comments (`:`),
    /// `event:` lines, and blank keep-alives are ignored.
    pub open spec fn of(line: Seq<char>) -> LineView {
        let prefix = "data:"@;
        if !crate::text::starts_with(line, prefix) {
            LineView::Ignore
        } else {
            let data = trimmed(line.skip(prefix.len() as int));
            if data.len() == 0 {
                LineView::Ignore
            } else if data == "[DONE]"@ {
                LineView::Done
            } else {
                LineView::Data(data)
            }
        }
    }
}

/// What one line carries.
pub fn handle_line(line: &str) -> (r: Line)
    ensures
        r@ == LineView::of(line@),
{
    match strip_prefix(line, "data:") {
        Some(rest) => {
            let data: String = trim(rest.as_str());
            if data.as_str().is_empty() {
                Line::Ignore
            } else if same_text(data.as_str(), "[DONE]") {
                Line::Done
            } else {
                Line::Data(data)
            }
        },
        None => Line::Ignore,
    }
}

/// The complete lines of a text, each without its line end and without trailing
/// white space.
pub open spec fn lines_of(text: Seq<char>) -> Seq<Seq<char>>
    decreases text.len(),
{
    if text.len() == 0 {
        Seq::empty()
    } else if text.last() == '\n' {
        lines_of(text.drop_last()).push(without_trailing(tail_of(text.drop_last())))
    } else {
        lines_of(text.drop_last())
    }
}

/// What follows the last line end of a text.
pub open spec fn tail_of(text: Seq<char>) -> Seq<char>
    decreases text.len(),
{
    if text.len() == 0 || text.last() == '\n' {
        Seq::empty()
    } else {
        tail_of(text.drop_last()).push(text.last())
    }
}

/// Turns the bytes of a response into lines, however the bytes arrive.
pub struct LineBuffer {
    /// The incomplete line so far.
    pub pending: String,
}

impl LineBuffer {
    /// A buffer that has seen nothing yet.
    pub fn new() -> (r: LineBuffer)
        ensures
            r.pending@ == Seq::<char>::empty(),
    {
        let pending: String = String::new();
        assert(pending@ =~= Seq::<char>::empty());
        LineBuffer { pending }
    }

    /// Takes in text: gives every line that is complete now, and keeps the
    /// partial tail.
    pub fn feed_text(&mut self, text: &str) -> (r: Vec<String>)
        ensures
            texts(r@) == lines_of(old(self).pending@ + text@),
            final(self).pending@ == tail_of(old(self).pending@ + text@),
    {
        let all: String = self.pending.clone().concat(text);
        let ghost whole = self.pending@ + text@;
        let chars: Vec<char> = chars_of(all.as_str());
        let mut lines: Vec<String> = Vec::new();
        let mut start: usize = 0;
        let mut i: usize = 0;
        assert(whole.take(0) =~= Seq::<char>::empty());
        assert(texts(lines@) =~= Seq::<Seq<char>>::empty());
        assert(whole.subrange(0, 0) =~= Seq::<char>::empty());
        while i < chars.len()
            invariant
                chars@ == whole,
                start <= i <= chars.len(),
                texts(lines@) == lines_of(whole.take(i as int)),
                whole.subrange(start as int, i as int) == tail_of(whole.take(i as int)),
            decreases chars.len() - i,
        {
            let ghost next = whole.take(i + 1);
            assert(next.drop_last() =~= whole.take(i as int));
            assert(next.last() == chars[i as int]);
            if chars[i] == '\n' {
                let line: String = trim_end(string_of(&chars, start, i).as_str());
                proof {
                    assert(texts(lines@.push(line)) =~= texts(
                        lines@,
                    ).push(line@));
                    assert(whole.subrange(i + 1, i + 1) =~= Seq::<char>::empty());
                }
                lines.push(line);
                start = i + 1;
            } else {
                assert(whole.subrange(start as int, i + 1) =~= whole.subrange(
                    start as int,
                    i as int,
                ).push(chars[i as int]));
            }
            i = i + 1;
        }
        assert(whole.take(chars.len() as int) =~= whole);
        self.pending = string_of(&chars, start, chars.len());
        lines
    }

    /// Takes in a piece of the response. UTF-8 is kept as it is; bytes that are
    /// not UTF-8 are replaced.
    pub fn feed(&mut self, bytes: &[u8]) -> (r: Vec<String>)
        ensures
            texts(r@) == lines_of(old(self).pending@ + lossy_text(bytes@)),
            final(self).pending@ == tail_of(old(self).pending@ + lossy_text(bytes@)),
            valid_utf8(bytes@) ==> lossy_text(bytes@) == decode_utf8(bytes@),
    {
        let text: String = text_lossy(bytes);
        self.feed_text(text.as_str())
    }
}

/// Lines do not depend on where the text was cut into pieces.
pub proof fn law_lines_do_not_depend_on_the_cut(first: Seq<char>, second: Seq<char>)
    ensures
        lines_of(first + second) == lines_of(first) + lines_of(tail_of(first) + second),
        tail_of(first + second) == tail_of(tail_of(first) + second),
    decreases second.len(),
{
    if second.len() == 0 {
        assert(first + second =~= first);
        assert(tail_of(first) + second =~= tail_of(first));
        lemma_tail(first);
        assert(lines_of(first) + Seq::<Seq<char>>::empty() =~= lines_of(first));
    } else {
        let rest = second.drop_last();
        law_lines_do_not_depend_on_the_cut(first, rest);
        assert((first + second).drop_last() =~= first + rest);
        assert((tail_of(first) + second).drop_last() =~= tail_of(first) + rest);
        assert((first + second).last() == second.last());
        assert((tail_of(first) + second).last() == second.last());
        assert(lines_of(first + second) =~= lines_of(first) + lines_of(tail_of(first) + second));
    }
}

proof fn lemma_tail(text: Seq<char>)
    ensures
        lines_of(tail_of(text)) == Seq::<Seq<char>>::empty(),
        tail_of(tail_of(text)) == tail_of(text),
    decreases text.len(),
{
    if text.len() > 0 && text.last() != '\n' {
        lemma_tail(text.drop_last());
        let tail = tail_of(text);
        assert(tail.drop_last() =~= tail_of(text.drop_last()));
    }
}

/// A payload, parsed.
pub enum Payload {
    /// An error object, injected into the stream.
    Error(ApiErrorBody),
    /// A piece of the completion.
    Chunk(ChatChunk),
    /// Neither; the parser says why.
    Malformed(String),
}

/// The payload that a text is, given what it parses to: an error object goes
/// before a piece of the completion.
pub fn payload_of(error: Option<ApiErrorBody>, chunk: Result<ChatChunk, String>) -> (r: Payload)
    ensures
        r == (match (error, chunk) {
            (Some(body), _) => Payload::Error(body),
            (None, Ok(piece)) => Payload::Chunk(piece),
            (None, Err(why)) => Payload::Malformed(why),
        }),
{
    match (error, chunk) {
        (Some(body), _) => Payload::Error(body),
        (None, Ok(piece)) => Payload::Chunk(piece),
        (None, Err(why)) => Payload::Malformed(why),
    }
}

/// What a payload comes to.
pub enum Outcome {
    /// Hand the chunk out and go on.
    Chunk(ChatChunk),
    /// End the stream with this error.
    Fatal(AiError),
}

/// What an error object in the stream comes to at `at`, with the jitter `extra`:
/// a rate limit cools the key, an authorization error bans it, and the stream
/// ends either way.
pub open spec fn interrupted<S: KeyStore>(
    before: KeyManager<S>,
    after: KeyManager<S>,
    id: Seq<char>,
    wait: Duration,
    error: ErrorView,
    at: Instant,
    extra: Duration,
    outcome: Outcome,
) -> bool {
    let code = error.numeric();
    if code == Some(429u16) {
        &&& health_reported(before, after, id, cooling(at, wait, extra))
        &&& outcome matches Outcome::Fatal(
            AiError::StreamInterrupted(StreamInterruption::RateLimited),
        )
    } else if code == Some(401u16) || code == Some(403u16) {
        &&& health_reported(
            before,
            after,
            id,
            HealthView::Banned { reason: "mid-stream: "@ + error.message },
        )
        &&& outcome matches Outcome::Fatal(
            AiError::StreamInterrupted(StreamInterruption::Unauthorized),
        )
    } else {
        &&& after == before
        &&& outcome matches Outcome::Fatal(
            AiError::StreamInterrupted(StreamInterruption::Api(why)),
        ) && why@ == error.message
    }
}

/// What a payload of the stream comes to at `at`, with the jitter `extra`.
pub open spec fn handled<S: KeyStore>(
    before: KeyManager<S>,
    after: KeyManager<S>,
    id: Seq<char>,
    wait: Duration,
    payload: Payload,
    at: Instant,
    extra: Duration,
    outcome: Outcome,
) -> bool {
    match payload {
        Payload::Error(error) => interrupted(
            before,
            after,
            id,
            wait,
            error@,
            at,
            extra,
            outcome,
        ),
        Payload::Chunk(chunk) => after == before && outcome == Outcome::Chunk(chunk),
        Payload::Malformed(why) => after == before && (outcome matches Outcome::Fatal(
            AiError::InvalidResponse(text),
        ) && text@ == "bad SSE chunk: "@ + why@),
    }
}

/// Acts on a payload of the stream that the key `id` serves; `wait` is the
/// cooldown for rate limits, counted from `at` and lengthened by `extra`.
pub fn handle_payload_at<S: KeyStore>(
    manager: &mut KeyManager<S>,
    id: &str,
    wait: Duration,
    payload: Payload,
    at: Instant,
    extra: Duration,
) -> (r: Outcome)
    requires
        old(manager).wf(),
    ensures
        final(manager).wf(),
        clock_kept(old(manager).pool, final(manager).pool),
        handled(*old(manager), *final(manager), id@, wait, payload, at, extra, r),
{
    match payload {
        Payload::Error(error) => {
            let code: Option<u16> = error.numeric_code();
            match code {
                Some(429) => {
                    Dispatcher::cooldown_key_at(manager, id, wait, at, extra);
                    Outcome::Fatal(AiError::StreamInterrupted(StreamInterruption::RateLimited))
                },
                Some(401) | Some(403) => {
                    let reason: String = "mid-stream: ".to_string().concat(error.message.as_str());
                    Dispatcher::ban_key(manager, id, reason.as_str());
                    Outcome::Fatal(AiError::StreamInterrupted(StreamInterruption::Unauthorized))
                },
                _ => Outcome::Fatal(
                    AiError::StreamInterrupted(StreamInterruption::Api(error.message)),
                ),
            }
        },
        Payload::Chunk(chunk) => Outcome::Chunk(chunk),
        Payload::Malformed(why) => Outcome::Fatal(
            AiError::InvalidResponse("bad SSE chunk: ".to_string().concat(why.as_str())),
        ),
    }
}

/// The first line that carries anything, and the lines after it; a line that
/// is ignored where no line carries anything.
pub open spec fn upcoming(lines: Seq<Seq<char>>) -> (LineView, Seq<Seq<char>>)
    decreases lines.len(),
{
    if lines.len() == 0 {
        (LineView::Ignore, lines)
    } else {
        match LineView::of(lines[0]) {
            LineView::Ignore => upcoming(lines.drop_first()),
            found => (found, lines.drop_first()),
        }
    }
}

/// What a stream needs next.
pub enum StreamStep {
    /// More of the response.
    Read,
    /// This payload, parsed.
    Parse(String),
    /// Nothing: it has ended.
    Ended,
}

/// One stream of parsed completion chunks on its way. It ends after `[DONE]` or
/// the first fatal error.
pub struct SseParser {
    buffer: LineBuffer,
    lines: VecDeque<String>,
    ended: bool,
    key_id: String,
    default_cooldown: Duration,
}

/// What an [`SseParser`] stands for.
pub struct ParserView {
    /// The incomplete line so far.
    pub pending: Seq<char>,
    /// The lines that were not looked at yet.
    pub lines: Seq<Seq<char>>,
    /// Whether the stream has ended.
    pub ended: bool,
    /// The key that serves the stream.
    pub key_id: Seq<char>,
    /// The cooldown for rate limits.
    pub default_cooldown: Duration,
}

impl View for SseParser {
    type V = ParserView;

    closed spec fn view(&self) -> ParserView {
        ParserView {
            pending: self.buffer.pending@,
            lines: texts(self.lines@),
            ended: self.ended,
            key_id: self.key_id@,
            default_cooldown: self.default_cooldown,
        }
    }
}

impl SseParser {
    /// A parser for the stream that the key `key_id` serves.
    pub fn new(key_id: &str, default_cooldown: Duration) -> (r: SseParser)
        ensures
            r@ == (ParserView {
                pending: Seq::empty(),
                lines: Seq::empty(),
                ended: false,
                key_id: key_id@,
                default_cooldown,
            }),
    {
        let r: SseParser = SseParser {
            buffer: LineBuffer::new(),
            lines: VecDeque::new(),
            ended: false,
            key_id: key_id.to_string(),
            default_cooldown,
        };
        assert(r@.lines =~= Seq::empty());
        r
    }

    /// Takes in a piece of the response. UTF-8 is kept as it is.
    pub fn receive(&mut self, bytes: &[u8])
        ensures
            ({
                let text = old(self)@.pending + lossy_text(bytes@);
                final(self)@ == (ParserView {
                    pending: tail_of(text),
                    lines: old(self)@.lines + lines_of(text),
                    ..old(self)@
                })
            }),
            valid_utf8(bytes@) ==> lossy_text(bytes@) == decode_utf8(bytes@),
    {
        let fresh: Vec<String> = self.buffer.feed(bytes);
        let ghost start = texts(self.lines@);
        let ghost added = texts(fresh@);
        let mut i: usize = 0;
        assert(start + added.take(0) =~= start);
        while i < fresh.len()
            invariant
                i <= fresh.len(),
                added == texts(fresh@),
                texts(self.lines@) == start + added.take(i as int),
                self.buffer.pending@ == tail_of(old(self)@.pending + lossy_text(bytes@)),
                self.ended == old(self).ended,
                self.key_id == old(self).key_id,
                self.default_cooldown == old(self).default_cooldown,
                valid_utf8(bytes@) ==> lossy_text(bytes@) == decode_utf8(bytes@),
            decreases fresh.len() - i,
        {
            let ghost before = self.lines@;
            self.lines.push_back(fresh[i].clone());
            proof {
                assert(texts(self.lines@) =~= texts(before).push(fresh[i as int]@));
                assert(start + added.take(i + 1) =~= (start + added.take(i as int)).push(
                    added[i as int],
                ));
            }
            i = i + 1;
        }
        assert(added.take(fresh.len() as int) =~= added);
    }

    /// What the stream needs next. Lines that were looked at are dropped.
    pub fn poll(&mut self) -> (r: StreamStep)
        ensures
            old(self)@.ended ==> r is Ended && final(self)@ == old(self)@,
            !old(self)@.ended ==> ({
                let (found, rest) = upcoming(old(self)@.lines);
                &&& final(self)@ == (ParserView {
                    lines: rest,
                    ended: found is Done,
                    ..old(self)@
                })
                &&& match found {
                    LineView::Ignore => r is Read,
                    LineView::Done => r is Ended,
                    LineView::Data(data) => r matches StreamStep::Parse(text) && text@ == data,
                }
            }),
    {
        if self.ended {
            return StreamStep::Ended;
        }
        let ghost start = self@.lines;
        loop
            invariant
                !self.ended,
                !old(self).ended,
                self.buffer == old(self).buffer,
                self.key_id == old(self).key_id,
                self.default_cooldown == old(self).default_cooldown,
                upcoming(texts(self.lines@)) == upcoming(start),
                start == old(self)@.lines,
            decreases self.lines.len(),
        {
            let ghost here = texts(self.lines@);
            let text: String = match self.lines.pop_front() {
                Some(text) => text,
                None => {
                    return StreamStep::Read;
                },
            };
            assert(here[0] == text@);
            assert(here.drop_first() =~= texts(self.lines@));
            let line: Line = handle_line(text.as_str());
            match line {
                Line::Ignore => {},
                Line::Done => {
                    self.ended = true;
                    return StreamStep::Ended;
                },
                Line::Data(data) => {
                    return StreamStep::Parse(data);
                },
            }
        }
    }

    /// Acts on a payload of the stream at `at`, with the jitter `extra`; a fatal
    /// error ends it.
    pub fn settle_at<S: KeyStore>(
        &mut self,
        manager: &mut KeyManager<S>,
        payload: Payload,
        at: Instant,
        extra: Duration,
    ) -> (r: Outcome)
        requires
            old(manager).wf(),
        ensures
            final(manager).wf(),
            clock_kept(old(manager).pool, final(manager).pool),
            handled(
                *old(manager),
                *final(manager),
                old(self)@.key_id,
                old(self)@.default_cooldown,
                payload,
                at,
                extra,
                r,
            ),
            final(self)@ == (ParserView { ended: old(self)@.ended || r is Fatal, ..old(self)@ }),
    {
        let outcome: Outcome = handle_payload_at(
            manager,
            self.key_id.as_str(),
            self.default_cooldown,
            payload,
            at,
            extra,
        );
        if let Outcome::Fatal(_) = &outcome {
            self.ended = true;
        }
        outcome
    }

    /// Acts on a payload of the stream now; a fatal error ends it.
    pub fn settle<S: KeyStore>(&mut self, manager: &mut KeyManager<S>, payload: Payload) -> (r:
        Outcome)
        requires
            old(manager).wf(),
        ensures
            final(manager).wf(),
            clock_kept(old(manager).pool, final(manager).pool),
            exists|m: Moment, extra: Duration|
                drawn_jitter(extra) && consulted(old(manager).pool, m) && #[trigger] handled(
                    *old(manager),
                    *final(manager),
                    old(self)@.key_id,
                    old(self)@.default_cooldown,
                    payload,
                    m.at,
                    extra,
                    r,
                ),
            final(self)@ == (ParserView { ended: old(self)@.ended || r is Fatal, ..old(self)@ }),
    {
        let m: Moment = manager.pool.peek().moment();
        self.settle_at(manager, payload, m.at, jitter())
    }

    /// Ends a stream whose transfer failed, as described; a timeout is told
    /// apart.
    pub fn fail(&mut self, timed_out: bool, why: &str) -> (r: AiError)
        ensures
            final(self)@ == (ParserView { ended: true, ..old(self)@ }),
            timed_out ==> r is Timeout,
            !timed_out ==> (r matches AiError::Network(told) && told@ == why@),
    {
        self.ended = true;
        if timed_out {
            AiError::Timeout
        } else {
            AiError::Network(why.to_string())
        }
    }
}

/// Lines are taken in their order: what comes next does not depend on any line
/// behind it, and those lines are kept for later.
pub proof fn law_lines_are_taken_in_order(lines: Seq<Seq<char>>, later: Seq<Seq<char>>)
    requires
        upcoming(lines).0 !is Ignore,
    ensures
        upcoming(lines + later) == (upcoming(lines).0, upcoming(lines).1 + later),
    decreases lines.len(),
{
    if lines.len() > 0 {
        assert((lines + later)[0] == lines[0]);
        assert((lines + later).drop_first() =~= lines.drop_first() + later);
        if LineView::of(lines[0]) is Ignore {
            law_lines_are_taken_in_order(lines.drop_first(), later);
        }
    }
}

} // verus!
