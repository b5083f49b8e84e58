//! What is made of a reply: its text, and the JSON inside it.

use vstd::prelude::*;

use crate::error::AiError;
use crate::http::models::ChatResponse;
use crate::text::{
    chars_of, ends_with, is_white, shortened, starts_with, string_of, strip_prefix,
    strip_suffix, trim, trimmed, truncate, without_leading, without_trailing,
};

verus! {

/// What follows the first line end, if there is one.
pub open spec fn after_first_line(s: Seq<char>) -> Option<Seq<char>>
    decreases s.len(),
{
    if s.len() == 0 {
        None
    } else if s[0] == '\n' {
        Some(s.drop_first())
    } else {
        after_first_line(s.drop_first())
    }
}

/// A text without the markdown code fences around it: the opening fence goes
/// with its language tag line, the closing one is optional.
pub open spec fn unfenced(text: Seq<char>) -> Seq<char> {
    let fence = "```"@;
    let inner = trimmed(text);
    if !starts_with(inner, fence) {
        inner
    } else {
        let opened = inner.skip(fence.len() as int);
        let body = match after_first_line(opened) {
            Some(rest) => rest,
            None => opened,
        };
        if ends_with(body, fence) {
            trimmed(body.take(body.len() - fence.len()))
        } else {
            trimmed(body)
        }
    }
}

fn rest_after_first_line(s: &str) -> (r: Option<String>)
    ensures
        crate::text::text_of(r) == after_first_line(s@),
{
    let chars: Vec<char> = chars_of(s);
    let mut i: usize = 0;
    assert(s@.skip(0) =~= s@);
    while i < chars.len()
        invariant
            chars@ == s@,
            i <= chars.len(),
            after_first_line(s@.skip(i as int)) == after_first_line(s@),
        decreases chars.len() - i,
    {
        let ghost rest = s@.skip(i as int);
        assert(rest[0] == chars[i as int]);
        assert(rest.drop_first() =~= s@.skip(i + 1));
        if chars[i] == '\n' {
            let after: String = string_of(&chars, i + 1, chars.len());
            assert(after@ =~= rest.drop_first());
            return Some(after);
        }
        i = i + 1;
    }
    None
}

/// Strips ```` ```json ... ``` ```` fences some models wrap JSON in.
pub fn strip_code_fences(text: &str) -> (r: String)
    ensures
        r@ == unfenced(text@),
{
    let inner: String = trim(text);
    let opened: String = match strip_prefix(inner.as_str(), "```") {
        Some(rest) => rest,
        None => {
            return inner;
        },
    };
    let body: String = match rest_after_first_line(opened.as_str()) {
        Some(rest) => rest,
        None => opened,
    };
    match strip_suffix(body.as_str(), "```") {
        Some(rest) => trim(rest.as_str()),
        None => trim(body.as_str()),
    }
}

/// The first choice's text content.
pub fn first_text(response: ChatResponse) -> (r: Result<String, AiError>)
    ensures
        match r {
            Ok(text) => response.choices.len() > 0 && text@ == response.choices[0].message.content@,
            Err(e) => response.choices.len() == 0 && (e matches AiError::InvalidResponse(why)
                && why@ == "response contained no choices"@),
        },
{
    if response.choices.len() > 0 {
        Ok(response.choices[0].message.content.clone())
    } else {
        Err(AiError::InvalidResponse("response contained no choices".to_string()))
    }
}

/// The error for a reply that is not the structured output asked for; `why` is
/// what the parser said of the unfenced content.
pub fn unstructured_reply(why: &str, content: &str) -> (r: AiError)
    ensures
        r matches AiError::InvalidResponse(text) && text@ == "failed to parse structured output: "@
            + why@ + "; content: "@ + shortened(content@, 300),
{
    let shown: String = truncate(content, 300);
    AiError::InvalidResponse(
        "failed to parse structured output: ".to_string().concat(why).concat("; content: ").concat(
            shown.as_str(),
        ),
    )
}

proof fn lemma_after_first_line(tag: Seq<char>, rest: Seq<char>)
    requires
        !tag.contains('\n'),
    ensures
        after_first_line(tag + seq!['\n'] + rest) == Some(rest),
    decreases tag.len(),
{
    let all = tag + seq!['\n'] + rest;
    if tag.len() == 0 {
        assert(all.drop_first() =~= rest);
    } else {
        assert(tag.contains(tag[0]));
        assert forall|c: char| tag.drop_first().contains(c) implies tag.contains(c) by {
            let i = choose|i: int| 0 <= i < tag.len() - 1 && tag.drop_first()[i] == c;
            assert(tag[i + 1] == c);
        }
        lemma_after_first_line(tag.drop_first(), rest);
        assert(all.drop_first() =~= tag.drop_first() + seq!['\n'] + rest);
    }
}

/// Whether a text is made of white space alone.
pub open spec fn blank(s: Seq<char>) -> bool {
    forall|i: int| 0 <= i < s.len() ==> is_white(#[trigger] s[i])
}

proof fn lemma_blank_before(left: Seq<char>, text: Seq<char>)
    requires
        blank(left),
    ensures
        without_leading(left + text) == without_leading(text),
    decreases left.len(),
{
    if left.len() == 0 {
        assert(left + text =~= text);
    } else {
        let rest = left.drop_first();
        assert forall|i: int| 0 <= i < rest.len() implies is_white(#[trigger] rest[i]) by {
            assert(rest[i] == left[i + 1]);
        }
        lemma_blank_before(rest, text);
        assert(is_white(left[0]));
        assert((left + text)[0] == left[0]);
        assert((left + text).drop_first() =~= rest + text);
    }
}

proof fn lemma_blank_after(text: Seq<char>, right: Seq<char>)
    requires
        blank(right),
    ensures
        without_trailing(text + right) == without_trailing(text),
    decreases right.len(),
{
    if right.len() == 0 {
        assert(text + right =~= text);
    } else {
        let rest = right.drop_last();
        assert forall|i: int| 0 <= i < rest.len() implies is_white(#[trigger] rest[i]) by {
            assert(rest[i] == right[i]);
        }
        lemma_blank_after(text, rest);
        assert(is_white(right[right.len() - 1]));
        assert((text + right).last() == right.last());
        assert((text + right).drop_last() =~= text + rest);
    }
}

proof fn lemma_leading(s: Seq<char>, c: char)
    requires
        is_white(c),
    ensures
        without_leading(s.push(c)) == (if without_leading(s).len() == 0 {
            Seq::empty()
        } else {
            without_leading(s).push(c)
        }),
    decreases s.len(),
{
    let more = s.push(c);
    if s.len() == 0 {
        assert(more[0] == c);
        assert(more.drop_first() =~= Seq::<char>::empty());
        reveal_with_fuel(without_leading, 2);
    } else {
        assert(more[0] == s[0]);
        if is_white(s[0]) {
            lemma_leading(s.drop_first(), c);
            assert(more.drop_first() =~= s.drop_first().push(c));
        }
    }
}

proof fn lemma_trimmed_line(s: Seq<char>)
    ensures
        trimmed(s.push('\n')) == trimmed(s),
{
    lemma_leading(s, '\n');
    let inner = without_leading(s);
    if inner.len() == 0 {
        assert(inner =~= Seq::<char>::empty());
    } else {
        assert(inner.push('\n').drop_last() =~= inner);
    }
}

/// A reply wrapped in code fences, with or without a language tag and with any
/// white space around it, reads as what is between the fences.
pub proof fn law_fences_are_stripped(
    left: Seq<char>,
    tag: Seq<char>,
    content: Seq<char>,
    right: Seq<char>,
)
    requires
        !tag.contains('\n'),
        blank(left),
        blank(right),
    ensures
        unfenced(
            left + ("```"@ + tag + seq!['\n'] + content + seq!['\n'] + "```"@) + right,
        ) == trimmed(content),
{
    reveal_strlit("```");
    let fence = "```"@;
    let text = fence + tag + seq!['\n'] + content + seq!['\n'] + fence;
    assert(text[0] == '`' && text.last() == '`');
    assert((text + right)[0] == '`');
    assert(left + text + right =~= left + (text + right));
    lemma_blank_before(left, text + right);
    assert(without_leading(text + right) == text + right);
    lemma_blank_after(text, right);
    assert(without_trailing(text) == text);
    assert(starts_with(text, fence)) by {
        assert(text.take(3) =~= fence);
    }
    let body = content + seq!['\n'] + fence;
    let opened = text.skip(3);
    assert(opened =~= tag + seq!['\n'] + body);
    lemma_after_first_line(tag, body);
    assert(ends_with(body, fence)) by {
        assert(body.skip(body.len() - 3) =~= fence);
    }
    assert(body.take(body.len() - 3) =~= content.push('\n'));
    lemma_trimmed_line(content);
}

/// A text without fences is only trimmed, so that a reply is read the same
/// whether or not white space surrounds it.
pub proof fn law_unfenced_text_is_trimmed(text: Seq<char>)
    requires
        !starts_with(trimmed(text), "```"@),
    ensures
        unfenced(text) == trimmed(text),
{
}

proof fn lemma_no_line(s: Seq<char>)
    requires
        !s.contains('\n'),
    ensures
        after_first_line(s) is None,
    decreases s.len(),
{
    if s.len() > 0 {
        assert(s.contains(s[0]));
        assert forall|c: char| s.drop_first().contains(c) implies s.contains(c) by {
            let i = choose|i: int| 0 <= i < s.len() - 1 && s.drop_first()[i] == c;
            assert(s[i + 1] == c);
        }
        lemma_no_line(s.drop_first());
    }
}

/// A fence that is opened and closed on one line gives what is between.
pub proof fn law_fence_on_one_line(content: Seq<char>)
    requires
        !content.contains('\n'),
    ensures
        unfenced("```"@ + content + "```"@) == trimmed(content),
{
    reveal_strlit("```");
    let fence = "```"@;
    let text = fence + content + fence;
    assert(text[0] == '`' && text.last() == '`');
    assert(text.take(3) =~= fence);
    let opened = text.skip(3);
    assert(opened =~= content + fence);
    assert forall|c: char| opened.contains(c) implies c == '`' || content.contains(c) by {
        let i = choose|i: int| 0 <= i < opened.len() && opened[i] == c;
        if i < content.len() {
            assert(content[i] == c);
        }
    }
    lemma_no_line(opened);
    assert(opened.skip(opened.len() - 3) =~= fence);
    assert(opened.take(opened.len() - 3) =~= content);
}

/// A fence that is never closed gives all that comes after its first line.
pub proof fn law_open_fence(tag: Seq<char>, content: Seq<char>)
    requires
        !tag.contains('\n'),
        content.len() > 0,
        !is_white(content.last()),
        !ends_with(content, "```"@),
    ensures
        unfenced("```"@ + tag + seq!['\n'] + content) == trimmed(content),
{
    reveal_strlit("```");
    let fence = "```"@;
    let text = fence + tag + seq!['\n'] + content;
    assert(text[0] == '`' && text.last() == content.last());
    assert(text.take(3) =~= fence);
    assert(text.skip(3) =~= tag + seq!['\n'] + content);
    lemma_after_first_line(tag, content);
}

} // verus!
