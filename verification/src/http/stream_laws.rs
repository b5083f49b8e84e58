//! What holds of a stream, whatever the server sends.

use vstd::prelude::*;

use super::dispatcher::cooling;
use super::stream::{
    handled, law_lines_do_not_depend_on_the_cut, lines_of, tail_of, upcoming, LineView, Outcome,
    Payload,
};
use crate::clock::{Duration, Instant};
use crate::error::{AiError, StreamInterruption};
use crate::storage::manager::KeyManager;
use crate::storage::store::{KeyStore, StoreEvent};
use crate::storage::HealthView;
use crate::text::{is_white, starts_with, without_trailing};
use crate::text_laws::{law_trimming_finds_the_text, law_white_space_is_trimmed_away};

verus! {

/// A `data:` line carries what is between its white space, and `[DONE]` there
/// ends the stream.
pub proof fn law_data_line(before: Seq<char>, data: Seq<char>, after: Seq<char>)
    requires
        forall|i: int| 0 <= i < before.len() ==> is_white(#[trigger] before[i]),
        forall|i: int| 0 <= i < after.len() ==> is_white(#[trigger] after[i]),
        data.len() > 0,
        !is_white(data[0]),
        !is_white(data.last()),
    ensures
        data != "[DONE]"@ ==> LineView::of("data:"@ + before + data + after) == LineView::Data(
            data,
        ),
        data == "[DONE]"@ ==> LineView::of("data:"@ + before + data + after) == LineView::Done,
{
    let line = "data:"@ + before + data + after;
    let n = "data:"@.len() as int;
    assert(line.take(n) =~= "data:"@);
    assert(line.skip(n) =~= before + data + after);
    law_trimming_finds_the_text(before, data, after);
}

/// A line that does not start with `data:`, or has nothing but white space after
/// it, carries nothing.
pub proof fn law_other_lines_carry_nothing(line: Seq<char>, blank: Seq<char>)
    requires
        forall|i: int| 0 <= i < blank.len() ==> is_white(#[trigger] blank[i]),
    ensures
        !starts_with(line, "data:"@) ==> LineView::of(line) == LineView::Ignore,
        LineView::of("data:"@ + blank) == LineView::Ignore,
{
    let n = "data:"@.len() as int;
    let empty = "data:"@ + blank;
    assert(empty.take(n) =~= "data:"@);
    assert(empty.skip(n) =~= blank);
    law_white_space_is_trimmed_away(blank);
}

proof fn lemma_no_line(text: Seq<char>)
    requires
        !text.contains('\n'),
    ensures
        lines_of(text) == Seq::<Seq<char>>::empty(),
        tail_of(text) == text,
    decreases text.len(),
{
    if text.len() > 0 {
        let rest = text.drop_last();
        assert(text.contains(text[text.len() - 1]));
        assert forall|c: char| rest.contains(c) implies text.contains(c) by {
            let i = choose|i: int| 0 <= i < rest.len() && rest[i] == c;
            assert(text[i] == c);
        }
        lemma_no_line(rest);
        assert(rest.push(text.last()) =~= text);
    }
}

/// A text is taken apart at its line ends: the first line is what comes before
/// the first of them, without trailing white space, and the rest is taken apart
/// in the same way. Without a line end there is no line, and the text is kept.
pub proof fn law_lines_end_at_line_ends(line: Seq<char>, rest: Seq<char>)
    requires
        !line.contains('\n'),
    ensures
        lines_of(line) == Seq::<Seq<char>>::empty(),
        tail_of(line) == line,
        lines_of(line + seq!['\n'] + rest) == seq![without_trailing(line)] + lines_of(rest),
        tail_of(line + seq!['\n'] + rest) == tail_of(rest),
{
    let first = line + seq!['\n'];
    lemma_no_line(line);
    assert(first.drop_last() =~= line);
    assert(first.last() == '\n');
    assert(lines_of(first) =~= seq![without_trailing(line)]);
    assert(tail_of(first) =~= Seq::<char>::empty());
    law_lines_do_not_depend_on_the_cut(first, rest);
    assert(tail_of(first) + rest =~= rest);
    assert(first + rest =~= line + seq!['\n'] + rest);
}

/// The next thing in a stream is the first line that carries anything: every
/// line ahead of it carries nothing, and the lines after it are kept as they
/// are. Where no line carries anything none is kept.
pub proof fn law_next_line_is_the_first_that_carries(lines: Seq<Seq<char>>)
    ensures
        ({
            let (found, rest) = upcoming(lines);
            &&& found is Ignore <==> forall|i: int|
                0 <= i < lines.len() ==> LineView::of(#[trigger] lines[i]) is Ignore
            &&& found is Ignore ==> rest.len() == 0
            &&& !(found is Ignore) ==> exists|k: int|
                0 <= k < lines.len() && found == LineView::of(#[trigger] lines[k]) && rest
                    == lines.skip(k + 1) && forall|i: int|
                    0 <= i < k ==> LineView::of(#[trigger] lines[i]) is Ignore
        }),
    decreases lines.len(),
{
    if lines.len() > 0 {
        let (found, rest) = upcoming(lines);
        let others = lines.drop_first();
        if LineView::of(lines[0]) is Ignore {
            law_next_line_is_the_first_that_carries(others);
            if !(found is Ignore) {
                let k = choose|k: int|
                    0 <= k < others.len() && found == LineView::of(#[trigger] others[k]) && rest
                        == others.skip(k + 1) && forall|i: int|
                        0 <= i < k ==> LineView::of(#[trigger] others[i]) is Ignore;
                assert(lines[k + 1] == others[k]);
                assert(others.skip(k + 1) =~= lines.skip(k + 2));
                assert forall|i: int| 0 <= i < k + 1 implies LineView::of(
                    #[trigger] lines[i],
                ) is Ignore by {
                    if i > 0 {
                        assert(others[i - 1] == lines[i]);
                    }
                }
                assert(found == LineView::of(lines[k + 1]));
            } else {
                assert forall|i: int| 0 <= i < lines.len() implies LineView::of(
                    #[trigger] lines[i],
                ) is Ignore by {
                    if i > 0 {
                        assert(others[i - 1] == lines[i]);
                    }
                }
            }
        } else {
            assert(lines.drop_first() =~= lines.skip(1));
            assert(found == LineView::of(lines[0]));
        }
    }
}

/// A rate limit in the middle of a stream cools the key that serves it for the
/// configured time and the jitter, and ends the stream as such.
pub proof fn law_rate_limit_in_a_stream_cools_the_key<S: KeyStore>(
    before: KeyManager<S>,
    after: KeyManager<S>,
    id: Seq<char>,
    wait: Duration,
    payload: Payload,
    at: Instant,
    extra: Duration,
    outcome: Outcome,
)
    requires
        handled(before, after, id, wait, payload, at, extra, outcome),
        payload matches Payload::Error(error) && error@.numeric() == Some(429u16),
        at.nanos + wait.nanos + extra.nanos <= u128::MAX,
    ensures
        outcome matches Outcome::Fatal(
            AiError::StreamInterrupted(StreamInterruption::RateLimited),
        ),
        ({
            let until = Instant { nanos: (at.nanos + wait.nanos + extra.nanos) as u128 };
            &&& before.pool@.keys.contains_key(id) ==> after.pool@.keys.contains_key(id)
                && after.pool@.keys[id].health == (HealthView::Cooldown { retry_after: until })
            &&& forall|other: Seq<char>|
                other != id && before.pool@.keys.contains_key(other)
                    ==> #[trigger] after.pool@.keys[other] == before.pool@.keys[other]
            &&& after.history().len() == before.history().len() + 1
            &&& after.history().last() matches StoreEvent::UpdateHealth { id: told, health, .. }
                && told == id && health == (HealthView::Cooldown { retry_after: until })
        }),
{
    assert(cooling(at, wait, extra) == HealthView::Cooldown {
        retry_after: Instant { nanos: (at.nanos + wait.nanos + extra.nanos) as u128 },
    });
}

/// A refused key in the middle of a stream is banned, with what the server said,
/// and the stream ends as such.
pub proof fn law_refusal_in_a_stream_bans_the_key<S: KeyStore>(
    before: KeyManager<S>,
    after: KeyManager<S>,
    id: Seq<char>,
    wait: Duration,
    payload: Payload,
    at: Instant,
    extra: Duration,
    outcome: Outcome,
)
    requires
        handled(before, after, id, wait, payload, at, extra, outcome),
        payload matches Payload::Error(error) && (error@.numeric() == Some(401u16)
            || error@.numeric() == Some(403u16)),
    ensures
        outcome matches Outcome::Fatal(
            AiError::StreamInterrupted(StreamInterruption::Unauthorized),
        ),
        ({
            let banned = HealthView::Banned {
                reason: "mid-stream: "@ + payload->Error_0.message@,
            };
            &&& before.pool@.keys.contains_key(id) ==> after.pool@.keys.contains_key(id)
                && after.pool@.keys[id].health == banned
            &&& forall|other: Seq<char>|
                other != id && before.pool@.keys.contains_key(other)
                    ==> #[trigger] after.pool@.keys[other] == before.pool@.keys[other]
            &&& after.history().len() == before.history().len() + 1
            &&& after.history().last() matches StoreEvent::UpdateHealth { id: told, health, .. }
                && told == id && health == banned
        }),
{
}

/// Any other error ends the stream with what the server said, a payload that
/// cannot be read ends it with what was wrong, and a piece of the completion is
/// handed out; none of them touches a key.
pub proof fn law_other_payloads_spare_the_key<S: KeyStore>(
    before: KeyManager<S>,
    after: KeyManager<S>,
    id: Seq<char>,
    wait: Duration,
    payload: Payload,
    at: Instant,
    extra: Duration,
    outcome: Outcome,
)
    requires
        handled(before, after, id, wait, payload, at, extra, outcome),
        payload matches Payload::Error(error) ==> error@.numeric() != Some(429u16)
            && error@.numeric() != Some(401u16) && error@.numeric() != Some(403u16),
    ensures
        after == before,
        payload matches Payload::Error(error) ==> (outcome matches Outcome::Fatal(
            AiError::StreamInterrupted(StreamInterruption::Api(why)),
        ) && why@ == error.message@),
        payload matches Payload::Chunk(chunk) ==> outcome == Outcome::Chunk(chunk),
        payload matches Payload::Malformed(why) ==> (outcome matches Outcome::Fatal(
            AiError::InvalidResponse(text),
        ) && text@ == "bad SSE chunk: "@ + why@),
{
}

} // verus!
