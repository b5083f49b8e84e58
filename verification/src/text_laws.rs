//! What holds of the text helpers, whatever the text.

use vstd::prelude::*;
use vstd::utf8::encode_utf8;

use crate::text::{
    all_digits, bytes_precede, decimal_text, digit_char, digit_value, digits_value, ends_with,
    is_digit, is_white, occurs_at, occurs_in, starts_with, text_of, text_precedes, trimmed,
    unsigned_value, without_leading, without_trailing,
};

verus! {

/// White space is what Unicode lists as such: the controls from tab to carriage
/// return, the next line, and the spaces and separators.
pub proof fn law_white_space(c: char)
    ensures
        ({
            let n = c as u32;
            is_white(c) <==> (n == 9 || n == 10 || n == 11 || n == 12 || n == 13 || n == 32 || n
                == 0x85 || n == 0xa0 || n == 0x1680 || 0x2000 <= n <= 0x200a || n == 0x2028 || n
                == 0x2029 || n == 0x202f || n == 0x205f || n == 0x3000)
        }),
{
}

/// Cutting off leading white space cuts off white space only, and all of it.
pub proof fn law_leading_white_space(s: Seq<char>)
    ensures
        ({
            let kept = without_leading(s);
            let cut = s.len() - kept.len();
            &&& 0 <= cut <= s.len()
            &&& kept == s.skip(cut)
            &&& forall|i: int| 0 <= i < cut ==> is_white(#[trigger] s[i])
            &&& kept.len() > 0 ==> !is_white(kept[0])
        }),
    decreases s.len(),
{
    if s.len() > 0 && is_white(s[0]) {
        let rest = s.drop_first();
        law_leading_white_space(rest);
        let cut = s.len() - without_leading(s).len();
        assert(rest.skip(cut - 1) =~= s.skip(cut));
        assert forall|i: int| 0 <= i < cut implies is_white(#[trigger] s[i]) by {
            if i > 0 {
                assert(rest[i - 1] == s[i]);
            }
        }
    } else {
        assert(s.skip(0) =~= s);
    }
}

/// Cutting off trailing white space cuts off white space only, and all of it.
pub proof fn law_trailing_white_space(s: Seq<char>)
    ensures
        ({
            let kept = without_trailing(s);
            &&& kept.len() <= s.len()
            &&& kept == s.take(kept.len() as int)
            &&& forall|i: int| kept.len() <= i < s.len() ==> is_white(#[trigger] s[i])
            &&& kept.len() > 0 ==> !is_white(kept.last())
        }),
    decreases s.len(),
{
    if s.len() > 0 && is_white(s.last()) {
        let rest = s.drop_last();
        law_trailing_white_space(rest);
        let kept = without_trailing(s);
        assert(rest.take(kept.len() as int) =~= s.take(kept.len() as int));
        assert forall|i: int| kept.len() <= i < s.len() implies is_white(#[trigger] s[i]) by {
            if i < rest.len() {
                assert(rest[i] == s[i]);
            }
        }
    } else {
        assert(s.take(s.len() as int) =~= s);
    }
}

/// Text between white space is what trimming leaves, where it neither starts nor
/// ends with any.
pub proof fn law_trimming_finds_the_text(before: Seq<char>, text: Seq<char>, after: Seq<char>)
    requires
        forall|i: int| 0 <= i < before.len() ==> is_white(#[trigger] before[i]),
        forall|i: int| 0 <= i < after.len() ==> is_white(#[trigger] after[i]),
        text.len() > 0,
        !is_white(text[0]),
        !is_white(text.last()),
    ensures
        trimmed(before + text + after) == text,
{
    let s = before + text + after;
    law_leading_white_space(s);
    let kept = without_leading(s);
    let cut = s.len() - kept.len();
    assert(s[before.len() as int] == text[0]);
    if cut < before.len() {
        assert(kept[0] == s[cut]);
        assert(s[cut] == before[cut]);
    }
    assert(cut == before.len());
    assert(kept =~= text + after);
    law_trailing_white_space(kept);
    let left = without_trailing(kept);
    assert(kept[text.len() - 1] == text.last());
    if left.len() > text.len() {
        assert(left.last() == kept[left.len() - 1]);
        assert(kept[left.len() - 1] == after[left.len() - 1 - text.len()]);
    }
    assert(left.len() == text.len());
    assert(left =~= text);
}

/// Nothing but white space is trimmed to nothing.
pub proof fn law_white_space_is_trimmed_away(s: Seq<char>)
    ensures
        trimmed(s).len() == 0 <==> forall|i: int| 0 <= i < s.len() ==> is_white(#[trigger] s[i]),
{
    law_leading_white_space(s);
    let kept = without_leading(s);
    let cut = s.len() - kept.len();
    law_trailing_white_space(kept);
    if trimmed(s).len() == 0 {
        assert forall|i: int| 0 <= i < s.len() implies is_white(#[trigger] s[i]) by {
            if i >= cut {
                assert(kept[i - cut] == s[i]);
            }
        }
    } else {
        assert(kept[0] == s[cut]);
    }
}

/// A text starts with another exactly where the other is followed by some rest;
/// in the same way it ends with one, and holds one.
pub proof fn law_parts_of_a_text(a: Seq<char>, part: Seq<char>, b: Seq<char>)
    ensures
        starts_with(part + b, part),
        ends_with(a + part, part),
        occurs_in(a + part + b, part),
{
    assert((part + b).take(part.len() as int) =~= part);
    assert((a + part).skip(a.len() as int) =~= part);
    let s = a + part + b;
    assert(s.subrange(a.len() as int, a.len() as int + part.len()) =~= part);
    assert(occurs_at(s, part, a.len() as int));
}

/// A text that starts with, ends with or holds a part is that part with a rest
/// after it, before it or around it.
pub proof fn law_text_with_a_part(s: Seq<char>, part: Seq<char>)
    ensures
        starts_with(s, part) ==> exists|b: Seq<char>| s == #[trigger] (part + b),
        ends_with(s, part) ==> exists|a: Seq<char>| s == #[trigger] (a + part),
        occurs_in(s, part) ==> exists|a: Seq<char>, b: Seq<char>| s == #[trigger] (a + part + b),
{
    if starts_with(s, part) {
        assert(s =~= part + s.skip(part.len() as int));
    }
    if ends_with(s, part) {
        assert(s =~= s.take(s.len() - part.len()) + part);
    }
    if occurs_in(s, part) {
        let at = choose|at: int| occurs_at(s, part, at);
        assert(s =~= s.take(at) + part + s.skip(at + part.len()));
    }
}

/// The ten digits are the ASCII ones, each with its value.
pub proof fn law_digits(c: char, n: nat)
    ensures
        is_digit(c) <==> 48 <= c as u32 <= 57,
        is_digit(c) ==> digit_value(c) == c as u32 - 48 && digit_char(digit_value(c)) == c,
        n < 10 ==> is_digit(digit_char(n)) && digit_value(digit_char(n)) == n,
{
}

/// Digits are read from the left, each ten times what the next is worth; a
/// number is made of digits only, and starts with zero only where it is zero.
pub proof fn law_decimal_places(s: Seq<char>, c: char, n: nat)
    ensures
        digits_value(Seq::empty()) == 0,
        digits_value(s.push(c)) == 10 * digits_value(s) + digit_value(c),
        all_digits(decimal_text(n)),
        digits_value(decimal_text(n)) == n,
        n > 0 ==> decimal_text(n)[0] != '0',
        n < 10 ==> decimal_text(n) == seq![digit_char(n)],
        n >= 10 ==> decimal_text(n).len() == decimal_text(n / 10).len() + 1,
    decreases n,
{
    assert(s.push(c).drop_last() =~= s);
    let t = decimal_text(n);
    if n >= 10 {
        law_decimal_places(s, c, n / 10);
        assert(t.drop_last() =~= decimal_text(n / 10));
        assert forall|i: int| 0 <= i < t.len() implies is_digit(#[trigger] t[i]) by {
            if i < t.len() - 1 {
                assert(decimal_text(n / 10)[i] == t[i]);
            }
        }
        assert(t[0] == decimal_text(n / 10)[0]);
    } else {
        assert(t.drop_last() =~= Seq::<char>::empty());
    }
}

/// A text reads as a number exactly where it is made of digits, after a plus
/// sign or none, and the number is not too large.
pub proof fn law_reading_a_number(digits: Seq<char>, max: u64)
    requires
        digits.len() > 0 ==> digits[0] != '+',
    ensures
        unsigned_value(digits, max) is Some <==> digits.len() > 0 && (forall|i: int|
            0 <= i < digits.len() ==> is_digit(#[trigger] digits[i])) && digits_value(digits)
            <= max,
        unsigned_value(digits, max) matches Some(n) ==> n == digits_value(digits),
        unsigned_value(seq!['+'] + digits, max) == unsigned_value(digits, max),
{
    assert((seq!['+'] + digits).drop_first() =~= digits);
}

/// Byte strings are ordered by the first byte in which they differ, and a string
/// comes after its own beginning.
pub proof fn law_byte_order(front: Seq<u8>, x: u8, a: Seq<u8>, y: u8, b: Seq<u8>)
    ensures
        x < y ==> bytes_precede(front + seq![x] + a, front + seq![y] + b),
        bytes_precede(front, front + seq![x] + a),
        !bytes_precede(front + seq![x] + a, front),
    decreases front.len(),
{
    let p = front + seq![x] + a;
    let q = front + seq![y] + b;
    if front.len() > 0 {
        let rest = front.drop_first();
        law_byte_order(rest, x, a, y, b);
        assert(p.drop_first() =~= rest + seq![x] + a);
        assert(q.drop_first() =~= rest + seq![y] + b);
    }
}

/// Texts are ordered as their UTF-8 bytes, and an optional text is the text.
pub proof fn law_text_order(a: Seq<char>, b: Seq<char>, text: String)
    ensures
        text_precedes(a, b) <==> bytes_precede(encode_utf8(a), encode_utf8(b)),
        text_of(Some(text)) == Some(text@),
        text_of(None) is None,
{
}

/// A part without a separator occurs in two texts that are set apart by it
/// exactly where it occurs in one of them.
pub proof fn law_part_of_two_texts(a: Seq<char>, separator: char, b: Seq<char>, part: Seq<char>)
    requires
        !part.contains(separator),
        part.len() > 0,
    ensures
        occurs_in(a + seq![separator] + b, part) <==> occurs_in(a, part) || occurs_in(b, part),
{
    let s = a + seq![separator] + b;
    if occurs_in(a, part) {
        let at = choose|at: int| occurs_at(a, part, at);
        assert(s.subrange(at, at + part.len()) =~= a.subrange(at, at + part.len()));
        assert(occurs_at(s, part, at));
    }
    if occurs_in(b, part) {
        let at = choose|at: int| occurs_at(b, part, at);
        let there = a.len() + 1 + at;
        assert(s.subrange(there, there + part.len()) =~= b.subrange(at, at + part.len()));
        assert(occurs_at(s, part, there));
    }
    if occurs_in(s, part) {
        let at = choose|at: int| occurs_at(s, part, at);
        let n = a.len() as int;
        if at <= n && n < at + part.len() {
            assert(s[n] == separator);
            assert(s.subrange(at, at + part.len())[n - at] == separator);
            assert(part[n - at] == separator);
            assert(false);
        } else if at + part.len() <= n {
            assert(s.subrange(at, at + part.len()) =~= a.subrange(at, at + part.len()));
            assert(occurs_at(a, part, at));
        } else {
            let there = at - n - 1;
            assert(s.subrange(at, at + part.len()) =~= b.subrange(there, there + part.len()));
            assert(occurs_at(b, part, there));
        }
    }
}

} // verus!
