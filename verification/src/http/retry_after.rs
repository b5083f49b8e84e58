//! The `Retry-After` header: a number of seconds, or an absolute date.

use vstd::prelude::*;

use crate::clock::{Duration, NANOS_PER_SEC};
use crate::text::{
    chars_of, decimal_text, digit_char, digit_value, is_digit, is_white, law_decimal_round_trip,
    parse_unsigned, trim, trimmed, unsigned_value,
};
use crate::text_laws::{law_decimal_places, law_trimming_finds_the_text};

verus! {

/// The longest cooldown that a header can ask for: one hour.
pub const CEILING_NANOS: u128 = 3_600_000_000_000;

/// Days from the first of January of the year 0 to the unix epoch.
pub const EPOCH_DAYS: u64 = 719_528;

/// A date and time of day as HTTP writes them.
#[derive(Debug, Clone, Copy, PartialEq, Eq, Structural)]
pub struct HttpDate {
    /// Day of the week, from 0 (Monday) to 6.
    pub weekday: u8,
    /// Day of the month, from 1.
    pub day: u8,
    /// Month, from 1 (January) to 12.
    pub month: u8,
    /// Year, of four digits.
    pub year: u16,
    /// Hour, from 0 to 23.
    pub hour: u8,
    /// Minute, from 0 to 59.
    pub minute: u8,
    /// Second, from 0 to 59, or 60 for a leap second.
    pub second: u8,
}

/// The short name of a day of the week.
#[verifier::opaque]
pub open spec fn weekday_name(weekday: u8) -> Seq<char> {
    if weekday == 0 {
        seq!['M', 'o', 'n']
    } else if weekday == 1 {
        seq!['T', 'u', 'e']
    } else if weekday == 2 {
        seq!['W', 'e', 'd']
    } else if weekday == 3 {
        seq!['T', 'h', 'u']
    } else if weekday == 4 {
        seq!['F', 'r', 'i']
    } else if weekday == 5 {
        seq!['S', 'a', 't']
    } else {
        seq!['S', 'u', 'n']
    }
}

/// The short name of a month.
#[verifier::opaque]
pub open spec fn month_name(month: u8) -> Seq<char> {
    if month == 1 {
        seq!['J', 'a', 'n']
    } else if month == 2 {
        seq!['F', 'e', 'b']
    } else if month == 3 {
        seq!['M', 'a', 'r']
    } else if month == 4 {
        seq!['A', 'p', 'r']
    } else if month == 5 {
        seq!['M', 'a', 'y']
    } else if month == 6 {
        seq!['J', 'u', 'n']
    } else if month == 7 {
        seq!['J', 'u', 'l']
    } else if month == 8 {
        seq!['A', 'u', 'g']
    } else if month == 9 {
        seq!['S', 'e', 'p']
    } else if month == 10 {
        seq!['O', 'c', 't']
    } else if month == 11 {
        seq!['N', 'o', 'v']
    } else {
        seq!['D', 'e', 'c']
    }
}

/// A number in two digits.
pub open spec fn two_digits(n: nat) -> Seq<char> {
    seq![digit_char(n / 10 % 10), digit_char(n % 10)]
}

/// Whether a year has a 29th of February.
pub open spec fn is_leap(year: int) -> bool {
    year % 4 == 0 && (year % 100 != 0 || year % 400 == 0)
}

/// How many days a month has.
pub open spec fn days_in_month(year: int, month: int) -> int {
    if month == 2 {
        if is_leap(year) {
            29
        } else {
            28
        }
    } else if month == 4 || month == 6 || month == 9 || month == 11 {
        30
    } else {
        31
    }
}

/// Days from the first of January of the year 0 to that of `year`.
pub open spec fn days_before_year(year: int) -> int
    decreases year,
{
    if year <= 0 {
        0
    } else {
        days_before_year(year - 1) + if is_leap(year - 1) {
            366
        } else {
            365int
        }
    }
}

/// Days from the first of January to the first of `month`.
pub open spec fn days_before_month(year: int, month: int) -> int
    decreases month,
{
    if month <= 1 {
        0
    } else {
        days_before_month(year, month - 1) + days_in_month(year, month - 1)
    }
}

impl HttpDate {
    /// Whether there is such a date and time of day. The day of the week is
    /// not held against the date.
    pub open spec fn valid(self) -> bool {
        &&& self.weekday <= 6
        &&& 1 <= self.month <= 12
        &&& 1 <= self.day <= days_in_month(self.year as int, self.month as int)
        &&& self.year <= 9999
        &&& self.hour <= 23
        &&& self.minute <= 59
        &&& self.second <= 60
    }

    /// The date in the fixed form, as in `Wed, 21 Oct 2015 07:28:00 GMT`.
    #[verifier::opaque]
    pub open spec fn text(self) -> Seq<char> {
        weekday_name(self.weekday) + seq![',', ' '] + two_digits(self.day as nat) + seq![' ']
            + month_name(self.month) + seq![' '] + two_digits(self.year as nat / 100) + two_digits(
            self.year as nat,
        ) + seq![' '] + two_digits(self.hour as nat) + seq![':'] + two_digits(self.minute as nat)
            + seq![':'] + two_digits(self.second as nat) + seq![' ', 'G', 'M', 'T']
    }

    /// Seconds since the unix epoch, negative before it.
    pub open spec fn unix_seconds(self) -> int {
        (days_before_year(self.year as int) + days_before_month(
            self.year as int,
            self.month as int,
        ) + self.day - 1 - EPOCH_DAYS) * 86_400 + self.hour * 3_600 + self.minute * 60
            + self.second
    }
}

/// Three characters at a given place.
#[verifier::opaque]
spec fn three_at(s: Seq<char>, at: int, name: Seq<char>) -> bool {
    name.len() == 3 && s[at] == name[0] && s[at + 1] == name[1] && s[at + 2] == name[2]
}

fn is_three(chars: &Vec<char>, at: usize, a: char, b: char, c: char) -> (r: bool)
    requires
        at + 2 < chars.len(),
    ensures
        r == three_at(chars@, at as int, seq![a, b, c]),
{
    reveal(three_at);
    chars[at] == a && chars[at + 1] == b && chars[at + 2] == c
}

fn weekday_at(chars: &Vec<char>, at: usize) -> (r: Option<u8>)
    requires
        at + 2 < chars.len(),
    ensures
        match r {
            Some(n) => n <= 6 && three_at(chars@, at as int, weekday_name(n)),
            None => forall|n: u8| !three_at(chars@, at as int, #[trigger] weekday_name(n)),
        },
{
    reveal(three_at);
    reveal(weekday_name);
    if is_three(chars, at, 'M', 'o', 'n') {
        Some(0)
    } else if is_three(chars, at, 'T', 'u', 'e') {
        Some(1)
    } else if is_three(chars, at, 'W', 'e', 'd') {
        Some(2)
    } else if is_three(chars, at, 'T', 'h', 'u') {
        Some(3)
    } else if is_three(chars, at, 'F', 'r', 'i') {
        Some(4)
    } else if is_three(chars, at, 'S', 'a', 't') {
        Some(5)
    } else if is_three(chars, at, 'S', 'u', 'n') {
        Some(6)
    } else {
        None
    }
}

fn month_at(chars: &Vec<char>, at: usize) -> (r: Option<u8>)
    requires
        at + 2 < chars.len(),
    ensures
        match r {
            Some(n) => 1 <= n <= 12 && three_at(chars@, at as int, month_name(n)),
            None => forall|n: u8| !three_at(chars@, at as int, #[trigger] month_name(n)),
        },
{
    reveal(three_at);
    reveal(month_name);
    if is_three(chars, at, 'J', 'a', 'n') {
        Some(1)
    } else if is_three(chars, at, 'F', 'e', 'b') {
        Some(2)
    } else if is_three(chars, at, 'M', 'a', 'r') {
        Some(3)
    } else if is_three(chars, at, 'A', 'p', 'r') {
        Some(4)
    } else if is_three(chars, at, 'M', 'a', 'y') {
        Some(5)
    } else if is_three(chars, at, 'J', 'u', 'n') {
        Some(6)
    } else if is_three(chars, at, 'J', 'u', 'l') {
        Some(7)
    } else if is_three(chars, at, 'A', 'u', 'g') {
        Some(8)
    } else if is_three(chars, at, 'S', 'e', 'p') {
        Some(9)
    } else if is_three(chars, at, 'O', 'c', 't') {
        Some(10)
    } else if is_three(chars, at, 'N', 'o', 'v') {
        Some(11)
    } else if is_three(chars, at, 'D', 'e', 'c') {
        Some(12)
    } else {
        None
    }
}

#[verifier::opaque]
spec fn two_at(s: Seq<char>, at: int, n: nat) -> bool {
    s[at] == two_digits(n)[0] && s[at + 1] == two_digits(n)[1]
}

fn number_at(chars: &Vec<char>, at: usize) -> (r: Option<u8>)
    requires
        at + 1 < chars.len(),
    ensures
        match r {
            Some(n) => n <= 99 && two_at(chars@, at as int, n as nat),
            None => forall|k: nat| !#[trigger] two_at(chars@, at as int, k),
        },
{
    reveal(two_at);
    let (a, b): (char, char) = (chars[at], chars[at + 1]);
    if '0' <= a && a <= '9' && '0' <= b && b <= '9' {
        let n: u8 = (a as u8 - 48) * 10 + (b as u8 - 48);
        Some(n)
    } else {
        None
    }
}

spec fn laid_out(s: Seq<char>, d: HttpDate) -> bool {
    &&& s.len() == 29
    &&& three_at(s, 0, weekday_name(d.weekday))
    &&& s[3] == ',' && s[4] == ' '
    &&& two_at(s, 5, d.day as nat)
    &&& s[7] == ' '
    &&& three_at(s, 8, month_name(d.month))
    &&& s[11] == ' '
    &&& two_at(s, 12, d.year as nat / 100)
    &&& two_at(s, 14, d.year as nat)
    &&& s[16] == ' '
    &&& two_at(s, 17, d.hour as nat)
    &&& s[19] == ':'
    &&& two_at(s, 20, d.minute as nat)
    &&& s[22] == ':'
    &&& two_at(s, 23, d.second as nat)
    &&& s[25] == ' ' && s[26] == 'G' && s[27] == 'M' && s[28] == 'T'
}

proof fn lemma_laid_out(s: Seq<char>, d: HttpDate)
    ensures
        laid_out(s, d) <==> s == d.text(),
{
    reveal(HttpDate::text);
    reveal(weekday_name);
    reveal(month_name);
    reveal(three_at);
    reveal(two_at);
    let t = d.text();
    assert(weekday_name(d.weekday).len() == 3);
    assert(month_name(d.month).len() == 3);
    assert(t.len() == 29);
    assert(laid_out(t, d));
    if laid_out(s, d) {
        assert(s =~= t);
    }
}

proof fn lemma_two_digits(s: Seq<char>, at: int, a: nat, b: nat)
    requires
        two_at(s, at, a),
        two_at(s, at, b),
    ensures
        a % 100 == b % 100,
{
    reveal(two_at);
    assert(digit_value(digit_char(a / 10 % 10)) == a / 10 % 10);
    assert(digit_value(digit_char(b / 10 % 10)) == b / 10 % 10);
    assert(digit_value(digit_char(a % 10)) == a % 10);
    assert(digit_value(digit_char(b % 10)) == b % 10);
}

proof fn lemma_weekday(s: Seq<char>, at: int, a: u8, b: u8)
    requires
        three_at(s, at, weekday_name(a)),
        three_at(s, at, weekday_name(b)),
        a <= 6,
        b <= 6,
    ensures
        a == b,
{
    reveal(three_at);
    reveal(weekday_name);
}

proof fn lemma_month(s: Seq<char>, at: int, a: u8, b: u8)
    requires
        three_at(s, at, month_name(a)),
        three_at(s, at, month_name(b)),
        1 <= a <= 12,
        1 <= b <= 12,
    ensures
        a == b,
{
    reveal(three_at);
    reveal(month_name);
}

proof fn lemma_same_date(s: Seq<char>, a: HttpDate, b: HttpDate)
    requires
        laid_out(s, a),
        laid_out(s, b),
        a.weekday <= 6,
        b.weekday <= 6,
        1 <= a.month <= 12,
        1 <= b.month <= 12,
        a.day <= 99,
        b.day <= 99,
        a.year <= 9999,
        b.year <= 9999,
        a.hour <= 99,
        b.hour <= 99,
        a.minute <= 99,
        b.minute <= 99,
        a.second <= 99,
        b.second <= 99,
    ensures
        a == b,
{
    lemma_weekday(s, 0, a.weekday, b.weekday);
    lemma_month(s, 8, a.month, b.month);
    lemma_two_digits(s, 5, a.day as nat, b.day as nat);
    lemma_two_digits(s, 12, a.year as nat / 100, b.year as nat / 100);
    lemma_two_digits(s, 14, a.year as nat, b.year as nat);
    lemma_two_digits(s, 17, a.hour as nat, b.hour as nat);
    lemma_two_digits(s, 20, a.minute as nat, b.minute as nat);
    lemma_two_digits(s, 23, a.second as nat, b.second as nat);
}

/// A text is the fixed form of at most one date.
pub proof fn law_date_text_is_unique(a: HttpDate, b: HttpDate)
    requires
        a.valid(),
        b.valid(),
        a.text() == b.text(),
    ensures
        a == b,
{
    let s = a.text();
    lemma_laid_out(s, a);
    lemma_laid_out(s, b);
    lemma_same_date(s, a, b);
}

/// How many days a month has.
fn month_length(year: u16, month: u8) -> (r: u8)
    ensures
        r == days_in_month(year as int, month as int),
{
    if month == 2 {
        if year % 4 == 0 && (year % 100 != 0 || year % 400 == 0) {
            29
        } else {
            28
        }
    } else if month == 4 || month == 6 || month == 9 || month == 11 {
        30
    } else {
        31
    }
}

proof fn lemma_year(s: Seq<char>, century: nat, rest: nat)
    requires
        century <= 99,
        rest <= 99,
        two_at(s, 14, rest),
    ensures
        two_at(s, 14, century * 100 + rest),
        (century * 100 + rest) / 100 == century,
{
    reveal(two_at);
    assert((century * 100 + rest) / 10 % 10 == rest / 10 % 10);
    assert((century * 100 + rest) % 10 == rest % 10);
}

/// Reads the parts of a date in the fixed form, whether or not there is such a
/// date.
fn date_parts(chars: &Vec<char>) -> (r: Option<HttpDate>)
    ensures
        match r {
            Some(d) => {
                &&& laid_out(chars@, d)
                &&& d.weekday <= 6
                &&& 1 <= d.month <= 12
                &&& d.day <= 99
                &&& d.year <= 9999
                &&& d.hour <= 99
                &&& d.minute <= 99
                &&& d.second <= 99
            },
            None => forall|d: HttpDate| !#[trigger] laid_out(chars@, d),
        },
{
    if chars.len() != 29 {
        return None;
    }
    let punctuated: bool = chars[3] == ',' && chars[4] == ' ' && chars[7] == ' ' && chars[11] == ' '
        && chars[16] == ' ' && chars[19] == ':' && chars[22] == ':' && chars[25] == ' ' && chars[26]
        == 'G' && chars[27] == 'M' && chars[28] == 'T';
    if !punctuated {
        return None;
    }
    let weekday: u8 = match weekday_at(chars, 0) {
        Some(n) => n,
        None => {
            return None;
        },
    };
    let day: u8 = match number_at(chars, 5) {
        Some(n) => n,
        None => {
            return None;
        },
    };
    let month: u8 = match month_at(chars, 8) {
        Some(n) => n,
        None => {
            return None;
        },
    };
    let century: u8 = match number_at(chars, 12) {
        Some(n) => n,
        None => {
            return None;
        },
    };
    let rest: u8 = match number_at(chars, 14) {
        Some(n) => n,
        None => {
            return None;
        },
    };
    let hour: u8 = match number_at(chars, 17) {
        Some(n) => n,
        None => {
            return None;
        },
    };
    let minute: u8 = match number_at(chars, 20) {
        Some(n) => n,
        None => {
            return None;
        },
    };
    let second: u8 = match number_at(chars, 23) {
        Some(n) => n,
        None => {
            return None;
        },
    };
    let year: u16 = century as u16 * 100 + rest as u16;
    proof {
        lemma_year(chars@, century as nat, rest as nat);
    }
    Some(HttpDate { weekday, day, month, year, hour, minute, second })
}

/// Reads a date in the fixed form.
pub fn parse_http_date(s: &str) -> (r: Option<HttpDate>)
    ensures
        match r {
            Some(d) => d.valid() && d.text() == s@,
            None => forall|d: HttpDate| d.valid() ==> #[trigger] d.text() != s@,
        },
{
    let chars: Vec<char> = chars_of(s);
    let parts: Option<HttpDate> = date_parts(&chars);
    proof {
        assert forall|d: HttpDate| d.valid() && #[trigger] d.text() == s@ implies parts
            == Some(d) by {
            lemma_laid_out(s@, d);
            if let Some(date) = parts {
                lemma_same_date(s@, d, date);
            }
        }
    }
    match parts {
        Some(date) => {
            proof {
                lemma_laid_out(s@, date);
            }
            if date.day >= 1 && date.day <= month_length(date.year, date.month) && date.hour <= 23
                && date.minute <= 59 && date.second <= 60 {
                Some(date)
            } else {
                None
            }
        },
        None => None,
    }
}

/// Leap years before `year`.
#[verifier::opaque]
spec fn leaps_before(year: int) -> int {
    (year + 3) / 4 - (year + 99) / 100 + (year + 399) / 400
}

proof fn lemma_multiples(year: int, n: int)
    requires
        year > 0,
        n == 4 || n == 100 || n == 400,
    ensures
        (year + n - 1) / n - (year + n - 2) / n == (if (year - 1) % n == 0 {
            1
        } else {
            0int
        }),
{
}

proof fn lemma_nested(x: int)
    ensures
        x % 100 == 0 ==> x % 4 == 0,
        x % 400 == 0 ==> x % 100 == 0,
{
}

proof fn lemma_leaps(year: int)
    requires
        year > 0,
    ensures
        leaps_before(year) - leaps_before(year - 1) == (if is_leap(year - 1) {
            1
        } else {
            0int
        }),
{
    reveal(leaps_before);
    let x = year - 1;
    lemma_multiples(year, 4);
    lemma_multiples(year, 100);
    lemma_multiples(year, 400);
    lemma_nested(x);
    assert((year + 2) / 4 == (x + 3) / 4 && (year + 98) / 100 == (x + 99) / 100 && (year + 398) / 400
        == (x + 399) / 400);
}

proof fn lemma_days_before_year(year: int)
    requires
        year >= 0,
    ensures
        days_before_year(year) == 365 * year + leaps_before(year),
    decreases year,
{
    if year == 0 {
        reveal(leaps_before);
    } else {
        lemma_days_before_year(year - 1);
        lemma_leaps(year);
    }
}

impl HttpDate {
    /// Seconds since the unix epoch, negative before it.
    pub fn to_unix_seconds(&self) -> (r: i64)
        requires
            self.valid(),
        ensures
            r == self.unix_seconds(),
    {
        let year: i64 = self.year as i64;
        let years: i64 = 365 * year + (year + 3) / 4 - (year + 99) / 100 + (year + 399) / 400;
        proof {
            lemma_days_before_year(year as int);
            reveal(leaps_before);
        }
        let mut months: i64 = 0;
        let mut month: u8 = 1;
        while month < self.month
            invariant
                1 <= month <= self.month <= 12,
                months == days_before_month(self.year as int, month as int),
                0 <= months <= 31 * (month - 1),
            decreases self.month - month,
        {
            months = months + month_length(self.year, month) as i64;
            month = month + 1;
        }
        let days: i64 = years + months + self.day as i64 - 1 - EPOCH_DAYS as i64;
        days * 86_400 + self.hour as i64 * 3_600 + self.minute as i64 * 60 + self.second as i64
    }
}

/// The days are counted from the right day: the unix epoch is the first of
/// January 1970.
pub proof fn law_epoch_is_in_1970()
    ensures
        days_before_year(1970) == EPOCH_DAYS,
{
    lemma_days_before_year(1970);
    reveal(leaps_before);
}

/// A cooldown, held at the ceiling.
pub open spec fn clamped(span: Duration) -> Duration {
    if span.nanos <= CEILING_NANOS {
        span
    } else {
        Duration { nanos: CEILING_NANOS }
    }
}

/// The time from `unix` to a date, zero where the date has passed.
pub open spec fn time_to(date: HttpDate, unix: Duration) -> Duration {
    let target = date.unix_seconds() * 1_000_000_000;
    Duration {
        nanos: if target > unix.nanos {
            (target - unix.nanos) as u128
        } else {
            0
        },
    }
}

/// Whether a text is a date in the fixed form.
pub open spec fn is_date(s: Seq<char>) -> bool {
    exists|d: HttpDate| d.valid() && #[trigger] d.text() == s
}

/// The date that a text is.
pub open spec fn date_of(s: Seq<char>) -> HttpDate {
    choose|d: HttpDate| d.valid() && #[trigger] d.text() == s
}

/// The cooldown that a `Retry-After` header asks for at the unix time `unix`:
/// a number of seconds, or the time until a date, and never more than an hour.
/// Without the header, or with anything else in it, `fallback`.
pub open spec fn asked_cooldown(
    header: Option<Seq<char>>,
    unix: Duration,
    fallback: Duration,
) -> Duration {
    match header {
        None => fallback,
        Some(value) => match unsigned_value(trimmed(value), u64::MAX) {
            Some(secs) => clamped(Duration::of_secs(secs)),
            None => if is_date(trimmed(value)) {
                clamped(time_to(date_of(trimmed(value)), unix))
            } else {
                fallback
            },
        },
    }
}

fn clamp_span(span: Duration) -> (r: Duration)
    ensures
        r == clamped(span),
{
    if span.nanos <= CEILING_NANOS {
        span
    } else {
        Duration { nanos: CEILING_NANOS }
    }
}

/// Parses `Retry-After` (seconds or an HTTP date) with a fallback; `unix` is
/// the current time since the unix epoch.
pub fn retry_after(header: &Option<String>, unix: Duration, fallback: Duration) -> (r: Duration)
    ensures
        r == asked_cooldown(crate::text::text_of(*header), unix, fallback),
{
    let value: String = match header {
        Some(value) => trim(value.as_str()),
        None => {
            return fallback;
        },
    };
    if let Some(secs) = parse_unsigned(value.as_str(), u64::MAX) {
        return clamp_span(Duration::from_secs(secs));
    }
    match parse_http_date(value.as_str()) {
        Some(date) => {
            proof {
                assert(is_date(value@));
                law_date_text_is_unique(date, date_of(value@));
            }
            let target: i64 = date.to_unix_seconds();
            if target <= 0 {
                return clamp_span(Duration { nanos: 0 });
            }
            let nanos: u128 = target as u128 * NANOS_PER_SEC;
            let left: u128 = if nanos > unix.nanos {
                nanos - unix.nanos
            } else {
                0
            };
            clamp_span(Duration { nanos: left })
        },
        None => fallback,
    }
}

/// An odd header never takes a key offline for longer than an hour, and a
/// header that says nothing readable leaves the fallback in force.
pub proof fn law_header_cooldown_is_bounded(
    header: Option<Seq<char>>,
    unix: Duration,
    fallback: Duration,
)
    ensures
        asked_cooldown(header, unix, fallback) == fallback || asked_cooldown(
            header,
            unix,
            fallback,
        ).nanos <= CEILING_NANOS,
        header is None ==> asked_cooldown(header, unix, fallback) == fallback,
{
}

/// A date and the number of seconds that are left until it ask for the same
/// cooldown.
pub proof fn law_date_and_seconds_agree(
    date: HttpDate,
    secs: u64,
    unix: Duration,
    fallback: Duration,
)
    requires
        date.valid(),
        date.unix_seconds() * 1_000_000_000 == unix.nanos + secs * 1_000_000_000,
    ensures
        time_to(date, unix) == Duration::of_secs(secs),
{
}

/// A number of seconds is the cooldown that is asked for, up to an hour, whatever
/// white space surrounds it.
pub proof fn law_seconds_are_waited(
    before: Seq<char>,
    secs: u64,
    after: Seq<char>,
    unix: Duration,
    fallback: Duration,
)
    requires
        forall|i: int| 0 <= i < before.len() ==> is_white(#[trigger] before[i]),
        forall|i: int| 0 <= i < after.len() ==> is_white(#[trigger] after[i]),
    ensures
        ({
            let asked = asked_cooldown(
                Some(before + decimal_text(secs as nat) + after),
                unix,
                fallback,
            );
            &&& secs <= 3600 ==> asked.nanos == secs * 1_000_000_000
            &&& secs > 3600 ==> asked.nanos == 3_600_000_000_000
        }),
{
    let text = decimal_text(secs as nat);
    law_decimal_places(text, '0', secs as nat);
    law_decimal_round_trip(secs, u64::MAX);
    assert(is_digit(text[0]) && is_digit(text[text.len() - 1]));
    law_trimming_finds_the_text(before, text, after);
    assert(secs > 3600 ==> secs * 1_000_000_000 > CEILING_NANOS);
    assert(secs * 1_000_000_000 <= u128::MAX);
}

/// A date asks for the time until it, up to an hour, and for none where it has
/// passed, whatever white space surrounds it.
pub proof fn law_date_is_waited_for(
    before: Seq<char>,
    date: HttpDate,
    after: Seq<char>,
    unix: Duration,
    fallback: Duration,
)
    requires
        date.valid(),
        forall|i: int| 0 <= i < before.len() ==> is_white(#[trigger] before[i]),
        forall|i: int| 0 <= i < after.len() ==> is_white(#[trigger] after[i]),
    ensures
        ({
            let asked = asked_cooldown(Some(before + date.text() + after), unix, fallback);
            let left = date.unix_seconds() * 1_000_000_000 - unix.nanos;
            &&& left <= 0 ==> asked.nanos == 0
            &&& 0 < left <= 3_600_000_000_000 ==> asked.nanos == left
            &&& left > 3_600_000_000_000 ==> asked.nanos == 3_600_000_000_000
        }),
{
    let text = date.text();
    law_date_layout(date);
    reveal(weekday_name);
    assert(!is_white(text[0]) && !is_digit(text[0]) && text[0] != '+');
    assert(text.last() == text[28]);
    law_trimming_finds_the_text(before, text, after);
    assert(!crate::text::all_digits(text));
    assert(is_date(text));
    law_date_text_is_unique(date, date_of(text));
    lemma_unix_bound(date);
}

proof fn lemma_unix_bound(date: HttpDate)
    requires
        date.valid(),
    ensures
        date.unix_seconds() * 1_000_000_000 <= u128::MAX,
{
    lemma_days_before_year(date.year as int);
    reveal(leaps_before);
    lemma_month_bound(date.year as int, date.month as int);
}

proof fn lemma_month_bound(year: int, month: int)
    requires
        month <= 12,
    ensures
        0 <= days_before_month(year, month) <= 31 * 12,
        month >= 1 ==> days_before_month(year, month) <= 31 * (month - 1),
    decreases month,
{
    if month > 1 {
        lemma_month_bound(year, month - 1);
    }
}

/// A header that is neither a number of seconds nor a date leaves the fallback in
/// force.
pub proof fn law_unreadable_header(value: Seq<char>, unix: Duration, fallback: Duration)
    requires
        unsigned_value(trimmed(value), u64::MAX) is None,
        forall|date: HttpDate| date.valid() ==> #[trigger] date.text() != trimmed(value),
    ensures
        asked_cooldown(Some(value), unix, fallback) == fallback,
{
}

/// A date is written as the day of the week, the day, the month, the year and the
/// time of day, each in its place; days and months go by the first three letters
/// of their names.
pub proof fn law_date_layout(date: HttpDate)
    ensures
        ({
            let text = date.text();
            &&& text.len() == 29
            &&& text.subrange(0, 3) == weekday_name(date.weekday)
            &&& text[3] == ',' && text[4] == ' ' && text[7] == ' ' && text[11] == ' ' && text[16]
                == ' ' && text[19] == ':' && text[22] == ':' && text[25] == ' '
            &&& text.subrange(8, 11) == month_name(date.month)
            &&& text[5] == digit_char((date.day / 10 % 10) as nat) && text[6] == digit_char(
                (date.day % 10) as nat,
            )
            &&& text[12] == digit_char((date.year / 1000 % 10) as nat) && text[13] == digit_char(
                (date.year / 100 % 10) as nat,
            ) && text[14] == digit_char((date.year / 10 % 10) as nat) && text[15] == digit_char(
                (date.year % 10) as nat,
            )
            &&& text[17] == digit_char((date.hour / 10 % 10) as nat) && text[18] == digit_char(
                (date.hour % 10) as nat,
            )
            &&& text[20] == digit_char((date.minute / 10 % 10) as nat) && text[21] == digit_char(
                (date.minute % 10) as nat,
            )
            &&& text[23] == digit_char((date.second / 10 % 10) as nat) && text[24] == digit_char(
                (date.second % 10) as nat,
            )
            &&& text[26] == 'G' && text[27] == 'M' && text[28] == 'T'
            &&& text[0] == weekday_name(date.weekday)[0]
        }),
{
    reveal(HttpDate::text);
    reveal(weekday_name);
    reveal(month_name);
    let text = date.text();
    assert(weekday_name(date.weekday).len() == 3);
    assert(month_name(date.month).len() == 3);
    assert(text.len() == 29);
    assert(text.subrange(0, 3) =~= weekday_name(date.weekday));
    assert(text.subrange(8, 11) =~= month_name(date.month));
    assert(date.year / 100 / 10 % 10 == date.year / 1000 % 10);
}

/// The days of the week from Monday on, and the months from January on.
pub proof fn law_names_in_order(weekday: u8, month: u8)
    requires
        weekday <= 6,
        1 <= month <= 12,
    ensures
        weekday_name(weekday) == "MonTueWedThuFriSatSun"@.subrange(3 * weekday, 3 * weekday + 3),
        month_name(month) == "JanFebMarAprMayJunJulAugSepOctNovDec"@.subrange(
            3 * month - 3,
            3 * month as int,
        ),
{
    reveal(weekday_name);
    reveal(month_name);
    reveal_strlit("MonTueWedThuFriSatSun");
    reveal_strlit("JanFebMarAprMayJunJulAugSepOctNovDec");
    let days = "MonTueWedThuFriSatSun"@;
    let months = "JanFebMarAprMayJunJulAugSepOctNovDec"@;
    assert(days.len() == 21 && months.len() == 36);
    assert(weekday_name(weekday) =~= days.subrange(3 * weekday, 3 * weekday + 3));
    assert(month_name(month) =~= months.subrange(3 * month - 3, 3 * month as int));
}

/// April, June, September and November have thirty days, February has
/// twenty-eight or in a leap year twenty-nine, and the others have thirty-one. A
/// leap year is every fourth, but of the full centuries only every fourth.
pub proof fn law_month_lengths(year: int, month: int)
    requires
        1 <= month <= 12,
    ensures
        days_in_month(year, month) == 30 <==> month == 4 || month == 6 || month == 9 || month == 11,
        month != 2 && days_in_month(year, month) != 30 ==> days_in_month(year, month) == 31,
        month == 2 ==> days_in_month(year, month) == (if (year % 4 == 0 && year % 100 != 0) || year
            % 400 == 0 {
            29int
        } else {
            28int
        }),
{
    lemma_nested(year);
}

/// The next day is a day later: a date whose day, month or year follows that of
/// another, with the same time of day, comes as many seconds after it as a day
/// has.
pub proof fn law_next_day(date: HttpDate, next: HttpDate)
    requires
        date.valid(),
        next.valid(),
        next.hour == date.hour && next.minute == date.minute && next.second == date.second,
        ({
            ||| next.year == date.year && next.month == date.month && next.day == date.day + 1
            ||| next.year == date.year && next.month == date.month + 1 && next.day == 1 && date.day
                == days_in_month(date.year as int, date.month as int)
            ||| next.year == date.year + 1 && next.month == 1 && next.day == 1 && date.month == 12
                && date.day == 31
        }),
    ensures
        next.unix_seconds() == date.unix_seconds() + 24 * 60 * 60,
{
    let (y, m) = (date.year as int, date.month as int);
    if next.year == date.year + 1 {
        reveal_with_fuel(days_before_month, 13);
        assert(days_before_month(y, 12) + 31 == if is_leap(y) {
            366
        } else {
            365int
        });
        assert(days_before_year(y + 1) == days_before_year(y) + if is_leap(y) {
            366
        } else {
            365int
        });
        assert(days_before_month(y + 1, 1) == 0);
    } else if next.month == date.month + 1 {
        assert(days_before_month(y, m + 1) == days_before_month(y, m) + days_in_month(y, m));
    }
}

/// The time of day counts in hours, minutes and seconds from midnight, and the
/// unix epoch is the midnight before the first of January 1970.
pub proof fn law_time_of_day(date: HttpDate)
    requires
        date.valid(),
    ensures
        date.unix_seconds() == (HttpDate { hour: 0, minute: 0, second: 0, ..date }).unix_seconds()
            + date.hour * 3600 + date.minute * 60 + date.second,
        (HttpDate {
            weekday: 3,
            day: 1,
            month: 1,
            year: 1970,
            hour: 0,
            minute: 0,
            second: 0,
        }).unix_seconds() == 0,
{
    law_epoch_is_in_1970();
}

/// There is no date with a month, a day or a time of day out of range.
pub proof fn law_valid_dates(date: HttpDate)
    ensures
        date.valid() <==> {
            &&& date.weekday < 7
            &&& 1 <= date.month <= 12
            &&& 1 <= date.day <= days_in_month(date.year as int, date.month as int)
            &&& date.year < 10_000
            &&& date.hour < 24
            &&& date.minute < 60
            &&& date.second < 61
        },
{
}

} // verus!
