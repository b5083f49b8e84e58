//! Text as sequences of characters: trimming, searching, decimal numbers and
//! the byte order of strings.

use vstd::prelude::*;
use vstd::utf8::{char_is_scalar, encode_scalar, encode_utf8};

verus! {

/// `String::push` appends the character.
pub assume_specification[ String::push ](s: &mut String, c: char)
    ensures
        final(s)@ == old(s)@.push(c),
;

/// The characters of an optional string.
pub open spec fn text_of(s: Option<String>) -> Option<Seq<char>> {
    match s {
        Some(text) => Some(text@),
        None => None,
    }
}

// ---------------------------------------------------------------------------
// Whitespace
// ---------------------------------------------------------------------------
/// The characters with the Unicode property `White_Space`.
pub open spec fn is_white(c: char) -> bool {
    ||| '\u{9}' <= c <= '\u{d}'
    ||| c == ' '
    ||| c == '\u{85}'
    ||| c == '\u{a0}'
    ||| c == '\u{1680}'
    ||| '\u{2000}' <= c <= '\u{200a}'
    ||| c == '\u{2028}'
    ||| c == '\u{2029}'
    ||| c == '\u{202f}'
    ||| c == '\u{205f}'
    ||| c == '\u{3000}'
}

/// Whether `c` is white space.
pub fn white(c: char) -> (r: bool)
    ensures
        r == is_white(c),
{
    ('\u{9}' <= c && c <= '\u{d}') || c == ' ' || c == '\u{85}' || c == '\u{a0}' || c == '\u{1680}'
        || ('\u{2000}' <= c && c <= '\u{200a}') || c == '\u{2028}' || c == '\u{2029}' || c
        == '\u{202f}' || c == '\u{205f}' || c == '\u{3000}'
}

/// The text without its leading white space.
pub open spec fn without_leading(s: Seq<char>) -> Seq<char>
    decreases s.len(),
{
    if s.len() > 0 && is_white(s[0]) {
        without_leading(s.drop_first())
    } else {
        s
    }
}

/// The text without its trailing white space.
pub open spec fn without_trailing(s: Seq<char>) -> Seq<char>
    decreases s.len(),
{
    if s.len() > 0 && is_white(s.last()) {
        without_trailing(s.drop_last())
    } else {
        s
    }
}

/// The text without white space at either end.
pub open spec fn trimmed(s: Seq<char>) -> Seq<char> {
    without_trailing(without_leading(s))
}

/// The characters of a string.
pub fn chars_of(s: &str) -> (r: Vec<char>)
    ensures
        r@ == s@,
{
    let mut out: Vec<char> = Vec::new();
    for c in it: s.chars()
        invariant
            it.seq() == s@,
            out@ == s@.take(it.index() as int),
    {
        assert(s@.take(it.index() as int).push(c) =~= s@.take(it.index() + 1));
        out.push(c);
    }
    assert(s@.take(s@.len() as int) =~= s@);
    out
}

/// The string made of `chars[from..to]`.
pub fn string_of(chars: &Vec<char>, from: usize, to: usize) -> (r: String)
    requires
        from <= to <= chars.len(),
    ensures
        r@ == chars@.subrange(from as int, to as int),
{
    let mut out: String = String::new();
    let mut i: usize = from;
    while i < to
        invariant
            from <= i <= to <= chars.len(),
            out@ == chars@.subrange(from as int, i as int),
        decreases to - i,
    {
        assert(chars@.subrange(from as int, i as int).push(chars@[i as int]) =~= chars@.subrange(
            from as int,
            i + 1,
        ));
        out.push(chars[i]);
        i = i + 1;
    }
    out
}

fn leading_white(chars: &Vec<char>) -> (r: usize)
    ensures
        r <= chars.len(),
        without_leading(chars@) == chars@.skip(r as int),
{
    let mut i: usize = 0;
    assert(chars@.skip(0) =~= chars@);
    while i < chars.len() && white(chars[i])
        invariant
            i <= chars.len(),
            without_leading(chars@) == without_leading(chars@.skip(i as int)),
        decreases chars.len() - i,
    {
        assert(chars@.skip(i as int).drop_first() =~= chars@.skip(i + 1));
        assert(chars@.skip(i as int)[0] == chars@[i as int]);
        i = i + 1;
    }
    if i < chars.len() {
        assert(chars@.skip(i as int)[0] == chars@[i as int]);
    }
    i
}

fn trailing_text(chars: &Vec<char>, from: usize) -> (r: usize)
    requires
        from <= chars.len(),
    ensures
        from <= r <= chars.len(),
        without_trailing(chars@.skip(from as int)) == chars@.subrange(from as int, r as int),
{
    let mut end: usize = chars.len();
    assert(chars@.skip(from as int) =~= chars@.subrange(from as int, end as int));
    while end > from && white(chars[end - 1])
        invariant
            from <= end <= chars.len(),
            without_trailing(chars@.skip(from as int)) == without_trailing(
                chars@.subrange(from as int, end as int),
            ),
        decreases end,
    {
        assert(chars@.subrange(from as int, end as int).drop_last() =~= chars@.subrange(
            from as int,
            end - 1,
        ));
        assert(chars@.subrange(from as int, end as int).last() == chars@[end - 1]);
        end = end - 1;
    }
    if end > from {
        assert(chars@.subrange(from as int, end as int).last() == chars@[end - 1]);
    }
    end
}

/// Removes white space at both ends.
pub fn trim(s: &str) -> (r: String)
    ensures
        r@ == trimmed(s@),
{
    let chars: Vec<char> = chars_of(s);
    let from: usize = leading_white(&chars);
    let to: usize = trailing_text(&chars, from);
    string_of(&chars, from, to)
}

/// Removes white space at the end.
pub fn trim_end(s: &str) -> (r: String)
    ensures
        r@ == without_trailing(s@),
{
    let chars: Vec<char> = chars_of(s);
    let to: usize = trailing_text(&chars, 0);
    assert(chars@.skip(0) =~= chars@);
    string_of(&chars, 0, to)
}

/// Trimming leaves no white space at either end, and trimming again changes
/// nothing.
pub proof fn law_trimming_is_thorough(s: Seq<char>)
    ensures
        trimmed(s).len() > 0 ==> !is_white(trimmed(s)[0]) && !is_white(trimmed(s).last()),
        trimmed(trimmed(s)) == trimmed(s),
{
    lemma_without_leading(s);
    lemma_without_trailing(without_leading(s));
    let t = trimmed(s);
    if t.len() > 0 {
        assert(t[0] == without_leading(s)[0]);
        assert(without_leading(t) == t);
    }
}

proof fn lemma_without_leading(s: Seq<char>)
    ensures
        without_leading(s).len() > 0 ==> !is_white(without_leading(s)[0]),
    decreases s.len(),
{
    if s.len() > 0 && is_white(s[0]) {
        lemma_without_leading(s.drop_first());
    }
}

proof fn lemma_without_trailing(s: Seq<char>)
    ensures
        without_trailing(s).len() <= s.len(),
        without_trailing(s) == s.take(without_trailing(s).len() as int),
        without_trailing(s).len() > 0 ==> !is_white(without_trailing(s).last()),
    decreases s.len(),
{
    if s.len() > 0 && is_white(s.last()) {
        lemma_without_trailing(s.drop_last());
        let n = without_trailing(s).len() as int;
        assert(s.drop_last().take(n) =~= s.take(n));
    } else {
        assert(s.take(s.len() as int) =~= s);
    }
}

// ---------------------------------------------------------------------------
// Prefixes, suffixes and occurrences
// ---------------------------------------------------------------------------
/// Whether `s` starts with `prefix`.
pub open spec fn starts_with(s: Seq<char>, prefix: Seq<char>) -> bool {
    s.len() >= prefix.len() && s.take(prefix.len() as int) == prefix
}

/// Whether `s` ends with `suffix`.
pub open spec fn ends_with(s: Seq<char>, suffix: Seq<char>) -> bool {
    s.len() >= suffix.len() && s.skip(s.len() - suffix.len()) == suffix
}

/// Whether `part` occurs in `s` at position `at`.
pub open spec fn occurs_at(s: Seq<char>, part: Seq<char>, at: int) -> bool {
    &&& 0 <= at
    &&& at + part.len() <= s.len()
    &&& s.subrange(at, at + part.len()) == part
}

/// Whether `part` occurs somewhere in `s`.
pub open spec fn occurs_in(s: Seq<char>, part: Seq<char>) -> bool {
    exists|at: int| occurs_at(s, part, at)
}

fn matches_at(s: &Vec<char>, part: &Vec<char>, at: usize) -> (r: bool)
    requires
        at + part.len() <= s.len(),
    ensures
        r == occurs_at(s@, part@, at as int),
{
    let mut i: usize = 0;
    while i < part.len()
        invariant
            i <= part.len(),
            at + part.len() <= s.len(),
            forall|j: int| 0 <= j < i ==> s@[at + j] == part@[j],
        decreases part.len() - i,
    {
        if s[at + i] != part[i] {
            assert(s@.subrange(at as int, at + part.len())[i as int] == s@[at + i]);
            return false;
        }
        i = i + 1;
    }
    assert(s@.subrange(at as int, at + part.len()) =~= part@);
    true
}

/// Whether `part` occurs in `s`.
pub fn contains(s: &str, part: &str) -> (r: bool)
    ensures
        r == occurs_in(s@, part@),
{
    let text: Vec<char> = chars_of(s);
    let wanted: Vec<char> = chars_of(part);
    if wanted.len() > text.len() {
        return false;
    }
    let last: usize = text.len() - wanted.len();
    let mut at: usize = 0;
    loop
        invariant
            at <= last,
            last == text.len() - wanted.len(),
            text@ == s@,
            wanted@ == part@,
            forall|k: int| 0 <= k < at ==> !occurs_at(s@, part@, k),
        decreases last - at,
    {
        if matches_at(&text, &wanted, at) {
            return true;
        }
        if at == last {
            return false;
        }
        at = at + 1;
    }
}

/// What follows `prefix` in `s`, where `s` starts with it.
pub fn strip_prefix(s: &str, prefix: &str) -> (r: Option<String>)
    ensures
        match r {
            Some(rest) => starts_with(s@, prefix@) && rest@ == s@.skip(prefix@.len() as int),
            None => !starts_with(s@, prefix@),
        },
{
    let text: Vec<char> = chars_of(s);
    let wanted: Vec<char> = chars_of(prefix);
    if wanted.len() > text.len() {
        return None;
    }
    assert(text@.subrange(0, wanted.len() as int) =~= text@.take(wanted.len() as int));
    if matches_at(&text, &wanted, 0) {
        assert(text@.subrange(wanted.len() as int, text.len() as int) =~= text@.skip(
            wanted.len() as int,
        ));
        Some(string_of(&text, wanted.len(), text.len()))
    } else {
        None
    }
}

/// What precedes `suffix` in `s`, where `s` ends with it.
pub fn strip_suffix(s: &str, suffix: &str) -> (r: Option<String>)
    ensures
        match r {
            Some(rest) => ends_with(s@, suffix@) && rest@ == s@.take(s@.len() - suffix@.len()),
            None => !ends_with(s@, suffix@),
        },
{
    let text: Vec<char> = chars_of(s);
    let wanted: Vec<char> = chars_of(suffix);
    if wanted.len() > text.len() {
        return None;
    }
    let at: usize = text.len() - wanted.len();
    assert(text@.subrange(at as int, at + wanted.len()) =~= text@.skip(at as int));
    if matches_at(&text, &wanted, at) {
        assert(text@.subrange(0, at as int) =~= text@.take(at as int));
        Some(string_of(&text, 0, at))
    } else {
        None
    }
}

/// Whether two strings hold the same characters.
pub fn same_text(a: &str, b: &str) -> (r: bool)
    ensures
        r == (a@ == b@),
{
    let left: Vec<char> = chars_of(a);
    let right: Vec<char> = chars_of(b);
    if left.len() != right.len() {
        return false;
    }
    assert(left@.subrange(0, right.len() as int) =~= left@);
    matches_at(&left, &right, 0)
}

// ---------------------------------------------------------------------------
// Decimal numbers
// ---------------------------------------------------------------------------
/// The decimal digit of `n < 10`.
pub open spec fn digit_char(n: nat) -> char {
    (('0' as u32) + n) as char
}

/// Whether `c` is one of the ten ASCII digits.
pub open spec fn is_digit(c: char) -> bool {
    '0' <= c <= '9'
}

/// The value of an ASCII digit.
pub open spec fn digit_value(c: char) -> nat {
    (c as u32 - '0' as u32) as nat
}

/// `n` in decimal, without leading zeros.
pub open spec fn decimal_text(n: nat) -> Seq<char>
    decreases n,
{
    if n < 10 {
        seq![digit_char(n)]
    } else {
        decimal_text(n / 10).push(digit_char(n % 10))
    }
}

/// The value of a sequence of digits.
pub open spec fn digits_value(s: Seq<char>) -> nat
    decreases s.len(),
{
    if s.len() == 0 {
        0
    } else {
        digits_value(s.drop_last()) * 10 + digit_value(s.last())
    }
}

/// Whether `s` is made of digits only, and of at least one.
pub open spec fn all_digits(s: Seq<char>) -> bool {
    s.len() > 0 && forall|i: int| 0 <= i < s.len() ==> is_digit(#[trigger] s[i])
}

/// The digits of an unsigned number, after its optional plus sign.
pub open spec fn unsigned_digits(s: Seq<char>) -> Seq<char> {
    if s.len() > 0 && s[0] == '+' {
        s.drop_first()
    } else {
        s
    }
}

/// The number that `s` denotes as an optional plus sign followed by digits,
/// where it is at most `max`.
pub open spec fn unsigned_value(s: Seq<char>, max: u64) -> Option<u64> {
    let digits = unsigned_digits(s);
    if all_digits(digits) && digits_value(digits) <= max {
        Some(digits_value(digits) as u64)
    } else {
        None
    }
}

/// `n` in decimal.
pub fn decimal(n: u64) -> (r: String)
    ensures
        r@ == decimal_text(n as nat),
    decreases n,
{
    let ten: u64 = 10;
    let digit: char = digit(n % ten);
    if n < 10 {
        let mut out: String = String::new();
        out.push(digit);
        assert(out@ =~= decimal_text(n as nat));
        out
    } else {
        let mut out: String = decimal(n / ten);
        out.push(digit);
        out
    }
}

fn digit(n: u64) -> (r: char)
    requires
        n < 10,
    ensures
        r == digit_char(n as nat),
{
    match n {
        0 => '0',
        1 => '1',
        2 => '2',
        3 => '3',
        4 => '4',
        5 => '5',
        6 => '6',
        7 => '7',
        8 => '8',
        _ => '9',
    }
}

proof fn lemma_digits_value_grows(s: Seq<char>, n: int)
    requires
        0 <= n <= s.len(),
    ensures
        digits_value(s.take(n)) <= digits_value(s),
    decreases s.len() - n,
{
    if n < s.len() {
        assert(s.take(n + 1).drop_last() =~= s.take(n));
        lemma_digits_value_grows(s, n + 1);
    } else {
        assert(s.take(n) =~= s);
    }
}

/// Reads an optional plus sign followed by digits as a number of at most
/// `max`.
pub fn parse_unsigned(s: &str, max: u64) -> (r: Option<u64>)
    ensures
        r == unsigned_value(s@, max),
{
    let chars: Vec<char> = chars_of(s);
    let start: usize = if chars.len() > 0 && chars[0] == '+' {
        1
    } else {
        0
    };
    let ghost digits = unsigned_digits(s@);
    assert(digits =~= chars@.skip(start as int));
    if start == chars.len() {
        return None;
    }
    let mut value: u64 = 0;
    let mut i: usize = start;
    assert(digits.take(0) =~= Seq::<char>::empty());
    while i < chars.len()
        invariant
            start <= i <= chars.len(),
            start < chars.len(),
            chars@ == s@,
            digits == unsigned_digits(s@),
            digits == chars@.skip(start as int),
            digits.len() == chars.len() - start,
            value == digits_value(digits.take(i - start)),
            value <= max,
            forall|j: int| 0 <= j < i - start ==> is_digit(#[trigger] digits[j]),
        decreases chars.len() - i,
    {
        let c: char = chars[i];
        assert(digits[i - start] == c);
        if !('0' <= c && c <= '9') {
            assert(!is_digit(digits[i - start]));
            return None;
        }
        let d: u64 = c as u64 - '0' as u64;
        proof {
            let n = i - start;
            assert(digits.take(n + 1).drop_last() =~= digits.take(n));
            assert(digits.take(n + 1).last() == c);
            assert(digits_value(digits.take(n + 1)) == value * 10 + d);
            lemma_digits_value_grows(digits, n + 1);
        }
        match value.checked_mul(10) {
            Some(scaled) => match scaled.checked_add(d) {
                Some(next) => {
                    if next > max {
                        return None;
                    }
                    value = next;
                },
                None => {
                    return None;
                },
            },
            None => {
                return None;
            },
        }
        i = i + 1;
    }
    assert(digits.take(digits.len() as int) =~= digits);
    Some(value)
}

proof fn lemma_decimal_text(n: nat)
    ensures
        all_digits(decimal_text(n)),
        digits_value(decimal_text(n)) == n,
    decreases n,
{
    let s = decimal_text(n);
    if n < 10 {
        assert(s.drop_last() =~= Seq::<char>::empty());
        assert(s.last() == digit_char(n));
        reveal_with_fuel(digits_value, 2);
    } else {
        lemma_decimal_text(n / 10);
        assert(s.drop_last() =~= decimal_text(n / 10));
        assert forall|i: int| 0 <= i < s.len() implies is_digit(#[trigger] s[i]) by {
            if i < s.len() - 1 {
                assert(s[i] == decimal_text(n / 10)[i]);
            }
        }
    }
}

/// A number reads back from its decimal text.
pub proof fn law_decimal_round_trip(n: u64, max: u64)
    requires
        n <= max,
    ensures
        unsigned_value(decimal_text(n as nat), max) == Some(n),
{
    lemma_decimal_text(n as nat);
    let s = decimal_text(n as nat);
    assert(is_digit(s[0]));
}

// ---------------------------------------------------------------------------
// The byte order of strings
// ---------------------------------------------------------------------------
/// Lexicographic order of byte strings.
pub open spec fn bytes_precede(a: Seq<u8>, b: Seq<u8>) -> bool
    decreases a.len(),
{
    if b.len() == 0 {
        false
    } else if a.len() == 0 {
        true
    } else {
        a[0] < b[0] || (a[0] == b[0] && bytes_precede(a.drop_first(), b.drop_first()))
    }
}

/// The order of strings: that of their UTF-8 bytes.
pub open spec fn text_precedes(a: Seq<char>, b: Seq<char>) -> bool {
    bytes_precede(encode_utf8(a), encode_utf8(b))
}

/// Whether `a` comes before `b` in the order of their UTF-8 bytes.
pub fn precedes(a: &str, b: &str) -> (r: bool)
    ensures
        r == text_precedes(a@, b@),
{
    let left: &[u8] = a.as_bytes();
    let right: &[u8] = b.as_bytes();
    let mut i: usize = 0;
    assert(left@.skip(0) =~= left@);
    assert(right@.skip(0) =~= right@);
    while i < left.len() && i < right.len()
        invariant
            i <= left.len(),
            i <= right.len(),
            left@ == encode_utf8(a@),
            right@ == encode_utf8(b@),
            bytes_precede(left@, right@) == bytes_precede(
                left@.skip(i as int),
                right@.skip(i as int),
            ),
        decreases left.len() - i,
    {
        assert(left@.skip(i as int)[0] == left@[i as int]);
        assert(right@.skip(i as int)[0] == right@[i as int]);
        assert(left@.skip(i as int).drop_first() =~= left@.skip(i + 1));
        assert(right@.skip(i as int).drop_first() =~= right@.skip(i + 1));
        if left[i] != right[i] {
            return left[i] < right[i];
        }
        i = i + 1;
    }
    i < right.len()
}

proof fn lemma_bytes_irreflexive(a: Seq<u8>)
    ensures
        !bytes_precede(a, a),
    decreases a.len(),
{
    if a.len() > 0 {
        lemma_bytes_irreflexive(a.drop_first());
    }
}

proof fn lemma_bytes_transitive(a: Seq<u8>, b: Seq<u8>, c: Seq<u8>)
    requires
        bytes_precede(a, b),
        bytes_precede(b, c),
    ensures
        bytes_precede(a, c),
    decreases a.len(),
{
    if a.len() > 0 && a[0] == b[0] && b[0] == c[0] {
        lemma_bytes_transitive(a.drop_first(), b.drop_first(), c.drop_first());
    }
}

proof fn lemma_bytes_total(a: Seq<u8>, b: Seq<u8>)
    ensures
        a == b || bytes_precede(a, b) || bytes_precede(b, a),
    decreases a.len(),
{
    if a.len() > 0 && b.len() > 0 {
        if a[0] == b[0] {
            lemma_bytes_total(a.drop_first(), b.drop_first());
            if a.drop_first() == b.drop_first() {
                assert(a =~= seq![a[0]] + a.drop_first());
                assert(b =~= seq![b[0]] + b.drop_first());
            }
        }
    } else {
        assert(a.len() == 0 && b.len() == 0 ==> a =~= b);
    }
}

/// The byte order of strings is a strict total order.
pub proof fn law_text_order_is_total(a: Seq<char>, b: Seq<char>, c: Seq<char>)
    ensures
        !text_precedes(a, a),
        text_precedes(a, b) && text_precedes(b, c) ==> text_precedes(a, c),
        a == b || text_precedes(a, b) || text_precedes(b, a),
        !(text_precedes(a, b) && text_precedes(b, a)),
{
    let (x, y, z) = (encode_utf8(a), encode_utf8(b), encode_utf8(c));
    lemma_bytes_irreflexive(x);
    if bytes_precede(x, y) && bytes_precede(y, z) {
        lemma_bytes_transitive(x, y, z);
    }
    if bytes_precede(x, y) && bytes_precede(y, x) {
        lemma_bytes_transitive(x, y, x);
    }
    lemma_bytes_total(x, y);
    vstd::utf8::encode_utf8_decode_utf8(a);
    vstd::utf8::encode_utf8_decode_utf8(b);
}

// ---------------------------------------------------------------------------
// Shortening
// ---------------------------------------------------------------------------
/// How many bytes a character takes in UTF-8.
pub open spec fn width(c: char) -> nat {
    encode_scalar(c as u32).len()
}

/// How many characters from the front fit into `max` bytes of UTF-8.
pub open spec fn room(s: Seq<char>, max: int) -> nat
    decreases s.len(),
{
    if s.len() == 0 || width(s[0]) > max {
        0
    } else {
        1 + room(s.drop_first(), max - width(s[0]))
    }
}

/// `s`, or as much of its front as fits into `max` bytes and an ellipsis.
pub open spec fn shortened(s: Seq<char>, max: usize) -> Seq<char> {
    if encode_utf8(s).len() <= max {
        s
    } else {
        s.take(room(s, max as int) as int).push('…')
    }
}

fn width_of(c: char) -> (r: usize)
    ensures
        r == width(c),
        1 <= r <= 4,
{
    let n: u32 = c as u32;
    proof {
        char_is_scalar(c);
    }
    if n <= 0x7F {
        1
    } else if n <= 0x7FF {
        2
    } else if n <= 0xFFFF {
        3
    } else {
        4
    }
}

proof fn lemma_room(s: Seq<char>, max: int)
    requires
        max >= 0,
    ensures
        room(s, max) <= s.len(),
        room(s, max) == s.len() <==> encode_utf8(s).len() <= max,
        encode_utf8(s.take(room(s, max) as int)).len() <= max,
    decreases s.len(),
{
    if s.len() > 0 {
        if width(s[0]) <= max {
            let rest = s.drop_first();
            let left = max - width(s[0]);
            lemma_room(rest, left);
            let head = s.take(room(s, max) as int);
            assert(head.drop_first() =~= rest.take(room(rest, left) as int));
        } else {
            assert(s.take(0) =~= Seq::<char>::empty());
        }
    } else {
        assert(s.take(0) =~= Seq::<char>::empty());
    }
}

/// The text, shortened to at most `max` bytes at a character boundary; an
/// ellipsis marks that something was left out.
pub fn truncate(s: &str, max: usize) -> (r: String)
    ensures
        r@ == shortened(s@, max),
{
    let chars: Vec<char> = chars_of(s);
    let mut i: usize = 0;
    let mut left: usize = max;
    assert(s@.skip(0) =~= s@);
    while i < chars.len() && width_of(chars[i]) <= left
        invariant
            chars@ == s@,
            i <= chars.len(),
            left <= max,
            room(s@, max as int) == i + room(s@.skip(i as int), left as int),
        decreases chars.len() - i,
    {
        assert(s@.skip(i as int)[0] == chars[i as int]);
        assert(s@.skip(i as int).drop_first() =~= s@.skip(i + 1));
        left = left - width_of(chars[i]);
        i = i + 1;
    }
    proof {
        lemma_room(s@, max as int);
        if i < chars.len() {
            assert(s@.skip(i as int)[0] == chars[i as int]);
        }
        assert(room(s@, max as int) == i);
        assert(s@.take(chars.len() as int) =~= s@);
    }
    let mut out: String = string_of(&chars, 0, i);
    assert(out@ =~= s@.take(i as int));
    if i < chars.len() {
        out.push('…');
    }
    out
}

/// A shortened text fits: it takes at most `max` bytes, not counting the
/// ellipsis, and it is the front of the text.
pub proof fn law_shortened_fits(s: Seq<char>, max: usize)
    ensures
        encode_utf8(s).len() <= max ==> shortened(s, max) == s,
        encode_utf8(s).len() > max ==> {
            let n = room(s, max as int) as int;
            &&& n < s.len()
            &&& shortened(s, max) == s.take(n).push('…')
            &&& encode_utf8(s.take(n)).len() <= max
            &&& encode_utf8(s.take(n + 1)).len() > max
        },
{
    lemma_room(s, max as int);
    if encode_utf8(s).len() > max {
        lemma_no_room(s, max as int);
    }
}

proof fn lemma_no_room(s: Seq<char>, max: int)
    requires
        max >= 0,
        room(s, max) < s.len(),
    ensures
        encode_utf8(s.take(room(s, max) as int + 1)).len() > max,
    decreases s.len(),
{
    let more = s.take(room(s, max) as int + 1);
    if width(s[0]) <= max {
        let rest = s.drop_first();
        lemma_no_room(rest, max - width(s[0]));
        assert(more.drop_first() =~= rest.take(room(rest, max - width(s[0])) as int + 1));
    } else {
        assert(more =~= seq![s[0]]);
    }
}

} // verus!
