//! Timestamps with a timezone offset, and their fixed RFC 3339 text form.
//!
//! A timestamp is rendered as `YYYY-MM-DDThh:mm:ss.nnnnnnnnn±hh:mm`,
//! always 35 characters.  Parsing accepts exactly the rendered form, so
//! rendering and parsing invert each other; both directions are proved.

use vstd::prelude::*;
use vstd::arithmetic::div_mod::{lemma_fundamental_div_mod, lemma_fundamental_div_mod_converse};
use crate::chars::{digit_char, is_digit, digit_val, digit_to_char, char_to_digit};

verus! {

/// One point in time: a calendar date, a time of day to nanosecond
/// precision, and a timezone offset in minutes from UTC.
#[derive(Clone, Copy, PartialEq, Eq, Structural, Debug)]
pub struct Timestamp {
    pub year: u16,
    pub month: u8,
    pub day: u8,
    pub hour: u8,
    pub minute: u8,
    pub second: u8,
    pub nanosecond: u32,
    pub offset_minutes: i16,
}

pub open spec fn spec_is_leap_year(y: int) -> bool {
    (y % 4 == 0 && y % 100 != 0) || y % 400 == 0
}

pub open spec fn spec_days_in_month(y: int, m: int) -> int {
    if m == 2 {
        if spec_is_leap_year(y) {
            29
        } else {
            28
        }
    } else if m == 4 || m == 6 || m == 9 || m == 11 {
        30
    } else {
        31
    }
}

impl Timestamp {
    /// A well-formed calendar date and time, with a four-digit year and an
    /// offset below one day.
    pub open spec fn valid(self) -> bool {
        &&& self.year <= 9999
        &&& 1 <= self.month <= 12
        &&& 1 <= self.day <= spec_days_in_month(self.year as int, self.month as int)
        &&& self.hour <= 23
        &&& self.minute <= 59
        &&& self.second <= 59
        &&& self.nanosecond <= 999999999
        &&& -1439 <= self.offset_minutes <= 1439
    }
}

pub fn is_leap_year(y: u16) -> (r: bool)
    ensures
        r == spec_is_leap_year(y as int),
{
    (y % 4 == 0 && y % 100 != 0) || y % 400 == 0
}

pub fn days_in_month(y: u16, m: u8) -> (r: u8)
    ensures
        r as int == spec_days_in_month(y as int, m as int),
{
    if m == 2 {
        if is_leap_year(y) {
            29
        } else {
            28
        }
    } else if m == 4 || m == 6 || m == 9 || m == 11 {
        30
    } else {
        31
    }
}

impl Timestamp {
    pub fn is_valid(&self) -> (r: bool)
        ensures
            r == self.valid(),
    {
        self.year <= 9999 && 1 <= self.month && self.month <= 12 && 1 <= self.day
            && self.day <= days_in_month(self.year, self.month) && self.hour <= 23
            && self.minute <= 59 && self.second <= 59 && self.nanosecond <= 999999999
            && -1439 <= self.offset_minutes && self.offset_minutes <= 1439
    }
}

pub open spec fn abs_of(m: int) -> int {
    if m >= 0 {
        m
    } else {
        -m
    }
}

pub open spec fn two_digits(n: int) -> Seq<char> {
    seq![digit_char(n / 10), digit_char(n % 10)]
}

pub open spec fn four_digits(n: int) -> Seq<char> {
    seq![
        digit_char(n / 1000),
        digit_char((n / 100) % 10),
        digit_char((n / 10) % 10),
        digit_char(n % 10),
    ]
}

pub open spec fn nine_digits(n: int) -> Seq<char> {
    seq![
        digit_char(n / 100000000),
        digit_char((n / 10000000) % 10),
        digit_char((n / 1000000) % 10),
        digit_char((n / 100000) % 10),
        digit_char((n / 10000) % 10),
        digit_char((n / 1000) % 10),
        digit_char((n / 100) % 10),
        digit_char((n / 10) % 10),
        digit_char(n % 10),
    ]
}

pub open spec fn offset_text(m: int) -> Seq<char> {
    (if m >= 0 {
        seq!['+']
    } else {
        seq!['-']
    }) + two_digits(abs_of(m) / 60) + seq![':'] + two_digits(abs_of(m) % 60)
}

/// The canonical RFC 3339 text of a timestamp, 35 characters.
#[verifier::opaque]
pub open spec fn fmt_rfc3339(t: Timestamp) -> Seq<char> {
    four_digits(t.year as int) + seq!['-'] + two_digits(t.month as int) + seq!['-'] + two_digits(
        t.day as int,
    ) + seq!['T'] + two_digits(t.hour as int) + seq![':'] + two_digits(t.minute as int) + seq![':']
        + two_digits(t.second as int) + seq!['.'] + nine_digits(t.nanosecond as int) + offset_text(
        t.offset_minutes as int,
    )
}

/// Shape of a canonical timestamp text: length, separators, digit slots.
pub open spec fn ts_text_wf(v: Seq<char>) -> bool {
    &&& v.len() == 35
    &&& is_digit(v[0]) && is_digit(v[1]) && is_digit(v[2]) && is_digit(v[3])
    &&& v[4] == '-' && is_digit(v[5]) && is_digit(v[6]) && v[7] == '-'
    &&& is_digit(v[8]) && is_digit(v[9]) && v[10] == 'T'
    &&& is_digit(v[11]) && is_digit(v[12]) && v[13] == ':'
    &&& is_digit(v[14]) && is_digit(v[15]) && v[16] == ':'
    &&& is_digit(v[17]) && is_digit(v[18]) && v[19] == '.'
    &&& is_digit(v[20]) && is_digit(v[21]) && is_digit(v[22]) && is_digit(v[23])
    &&& is_digit(v[24]) && is_digit(v[25]) && is_digit(v[26]) && is_digit(v[27]) && is_digit(v[28])
    &&& (v[29] == '+' || v[29] == '-')
    &&& is_digit(v[30]) && is_digit(v[31]) && v[32] == ':' && is_digit(v[33]) && is_digit(v[34])
}

pub open spec fn text_two(v: Seq<char>, i: int) -> int {
    digit_val(v[i]) * 10 + digit_val(v[i + 1])
}

pub open spec fn text_four(v: Seq<char>, i: int) -> int {
    digit_val(v[i]) * 1000 + digit_val(v[i + 1]) * 100 + digit_val(v[i + 2]) * 10 + digit_val(
        v[i + 3],
    )
}

pub open spec fn text_nine(v: Seq<char>, i: int) -> int {
    digit_val(v[i]) * 100000000 + digit_val(v[i + 1]) * 10000000 + digit_val(v[i + 2]) * 1000000
        + digit_val(v[i + 3]) * 100000 + digit_val(v[i + 4]) * 10000 + digit_val(v[i + 5]) * 1000
        + digit_val(v[i + 6]) * 100 + digit_val(v[i + 7]) * 10 + digit_val(v[i + 8])
}

pub open spec fn text_offset_abs(v: Seq<char>) -> int {
    text_two(v, 30) * 60 + text_two(v, 33)
}

/// The timestamp spelled by a well-formed timestamp text.
pub open spec fn ts_of_text(v: Seq<char>) -> Timestamp {
    Timestamp {
        year: text_four(v, 0) as u16,
        month: text_two(v, 5) as u8,
        day: text_two(v, 8) as u8,
        hour: text_two(v, 11) as u8,
        minute: text_two(v, 14) as u8,
        second: text_two(v, 17) as u8,
        nanosecond: text_nine(v, 20) as u32,
        offset_minutes: (if v[29] == '-' {
            -text_offset_abs(v)
        } else {
            text_offset_abs(v)
        }) as i16,
    }
}

/// What parsing a timestamp text yields: the spelled timestamp when the
/// text is canonical, nothing otherwise.
#[verifier::opaque]
pub open spec fn parse_rfc3339_spec(v: Seq<char>) -> Option<Timestamp> {
    if ts_text_wf(v) && ts_of_text(v).valid() && text_two(v, 33) <= 59 && !(v[29] == '-'
        && text_offset_abs(v) == 0) {
        Some(ts_of_text(v))
    } else {
        None
    }
}

proof fn lemma_compose2(d0: int, d1: int)
    requires
        0 <= d0 < 10,
        0 <= d1 < 10,
    ensures
        (d0 * 10 + d1) / 10 == d0,
        (d0 * 10 + d1) % 10 == d1,
        0 <= d0 * 10 + d1 < 100,
{
    lemma_fundamental_div_mod_converse(d0 * 10 + d1, 10, d0, d1);
}

proof fn lemma_extract2(n: int)
    requires
        0 <= n < 100,
    ensures
        (n / 10) * 10 + n % 10 == n,
        0 <= n / 10 < 10,
        0 <= n % 10 < 10,
{
    lemma_fundamental_div_mod(n, 10);
}

proof fn lemma_compose4(d0: int, d1: int, d2: int, d3: int)
    requires
        0 <= d0 < 10,
        0 <= d1 < 10,
        0 <= d2 < 10,
        0 <= d3 < 10,
    ensures
        ({
            let n = d0 * 1000 + d1 * 100 + d2 * 10 + d3;
            &&& 0 <= n < 10000
            &&& n / 1000 == d0
            &&& (n / 100) % 10 == d1
            &&& (n / 10) % 10 == d2
            &&& n % 10 == d3
        }),
{
    let n = d0 * 1000 + d1 * 100 + d2 * 10 + d3;
    lemma_fundamental_div_mod_converse(n, 1000, d0, d1 * 100 + d2 * 10 + d3);
    lemma_fundamental_div_mod_converse(n, 100, d0 * 10 + d1, d2 * 10 + d3);
    lemma_compose2(d0, d1);
    lemma_fundamental_div_mod_converse(n, 10, d0 * 100 + d1 * 10 + d2, d3);
    lemma_fundamental_div_mod_converse(d0 * 100 + d1 * 10 + d2, 10, d0 * 10 + d1, d2);
}

proof fn lemma_extract4(n: int)
    requires
        0 <= n < 10000,
    ensures
        (n / 1000) * 1000 + ((n / 100) % 10) * 100 + ((n / 10) % 10) * 10 + n % 10 == n,
        0 <= n / 1000 < 10,
{
    lemma_fundamental_div_mod(n, 1000);
    let d0 = n / 1000;
    let r0 = n % 1000;
    lemma_fundamental_div_mod(r0, 100);
    let d1 = r0 / 100;
    let r1 = r0 % 100;
    lemma_fundamental_div_mod(r1, 10);
    let d2 = r1 / 10;
    let d3 = r1 % 10;
    assert(n == d0 * 1000 + d1 * 100 + d2 * 10 + d3);
    lemma_compose4(d0, d1, d2, d3);
}

proof fn lemma_compose9(
    d0: int,
    d1: int,
    d2: int,
    d3: int,
    d4: int,
    d5: int,
    d6: int,
    d7: int,
    d8: int,
)
    requires
        0 <= d0 < 10,
        0 <= d1 < 10,
        0 <= d2 < 10,
        0 <= d3 < 10,
        0 <= d4 < 10,
        0 <= d5 < 10,
        0 <= d6 < 10,
        0 <= d7 < 10,
        0 <= d8 < 10,
    ensures
        ({
            let n = d0 * 100000000 + d1 * 10000000 + d2 * 1000000 + d3 * 100000 + d4 * 10000 + d5
                * 1000 + d6 * 100 + d7 * 10 + d8;
            &&& 0 <= n < 1000000000
            &&& n / 100000000 == d0
            &&& (n / 10000000) % 10 == d1
            &&& (n / 1000000) % 10 == d2
            &&& (n / 100000) % 10 == d3
            &&& (n / 10000) % 10 == d4
            &&& (n / 1000) % 10 == d5
            &&& (n / 100) % 10 == d6
            &&& (n / 10) % 10 == d7
            &&& n % 10 == d8
        }),
{
    let n = d0 * 100000000 + d1 * 10000000 + d2 * 1000000 + d3 * 100000 + d4 * 10000 + d5 * 1000
        + d6 * 100 + d7 * 10 + d8;
    lemma_fundamental_div_mod_converse(
        n,
        100000000,
        d0,
        d1 * 10000000 + d2 * 1000000 + d3 * 100000 + d4 * 10000 + d5 * 1000 + d6 * 100 + d7 * 10
            + d8,
    );
    lemma_fundamental_div_mod_converse(
        n,
        10000000,
        d0 * 10 + d1,
        d2 * 1000000 + d3 * 100000 + d4 * 10000 + d5 * 1000 + d6 * 100 + d7 * 10 + d8,
    );
    lemma_compose2(d0, d1);
    lemma_fundamental_div_mod_converse(
        n,
        1000000,
        d0 * 100 + d1 * 10 + d2,
        d3 * 100000 + d4 * 10000 + d5 * 1000 + d6 * 100 + d7 * 10 + d8,
    );
    lemma_fundamental_div_mod_converse(d0 * 100 + d1 * 10 + d2, 10, d0 * 10 + d1, d2);
    lemma_fundamental_div_mod_converse(
        n,
        100000,
        d0 * 1000 + d1 * 100 + d2 * 10 + d3,
        d4 * 10000 + d5 * 1000 + d6 * 100 + d7 * 10 + d8,
    );
    lemma_fundamental_div_mod_converse(
        d0 * 1000 + d1 * 100 + d2 * 10 + d3,
        10,
        d0 * 100 + d1 * 10 + d2,
        d3,
    );
    lemma_fundamental_div_mod_converse(
        n,
        10000,
        d0 * 10000 + d1 * 1000 + d2 * 100 + d3 * 10 + d4,
        d5 * 1000 + d6 * 100 + d7 * 10 + d8,
    );
    lemma_fundamental_div_mod_converse(
        d0 * 10000 + d1 * 1000 + d2 * 100 + d3 * 10 + d4,
        10,
        d0 * 1000 + d1 * 100 + d2 * 10 + d3,
        d4,
    );
    lemma_fundamental_div_mod_converse(
        n,
        1000,
        d0 * 100000 + d1 * 10000 + d2 * 1000 + d3 * 100 + d4 * 10 + d5,
        d6 * 100 + d7 * 10 + d8,
    );
    lemma_fundamental_div_mod_converse(
        d0 * 100000 + d1 * 10000 + d2 * 1000 + d3 * 100 + d4 * 10 + d5,
        10,
        d0 * 10000 + d1 * 1000 + d2 * 100 + d3 * 10 + d4,
        d5,
    );
    lemma_fundamental_div_mod_converse(
        n,
        100,
        d0 * 1000000 + d1 * 100000 + d2 * 10000 + d3 * 1000 + d4 * 100 + d5 * 10 + d6,
        d7 * 10 + d8,
    );
    lemma_fundamental_div_mod_converse(
        d0 * 1000000 + d1 * 100000 + d2 * 10000 + d3 * 1000 + d4 * 100 + d5 * 10 + d6,
        10,
        d0 * 100000 + d1 * 10000 + d2 * 1000 + d3 * 100 + d4 * 10 + d5,
        d6,
    );
    lemma_fundamental_div_mod_converse(
        n,
        10,
        d0 * 10000000 + d1 * 1000000 + d2 * 100000 + d3 * 10000 + d4 * 1000 + d5 * 100 + d6 * 10
            + d7,
        d8,
    );
    lemma_fundamental_div_mod_converse(
        d0 * 10000000 + d1 * 1000000 + d2 * 100000 + d3 * 10000 + d4 * 1000 + d5 * 100 + d6 * 10
            + d7,
        10,
        d0 * 1000000 + d1 * 100000 + d2 * 10000 + d3 * 1000 + d4 * 100 + d5 * 10 + d6,
        d7,
    );
}

proof fn lemma_extract9(n: int)
    requires
        0 <= n < 1000000000,
    ensures
        (n / 100000000) * 100000000 + ((n / 10000000) % 10) * 10000000 + ((n / 1000000) % 10)
            * 1000000 + ((n / 100000) % 10) * 100000 + ((n / 10000) % 10) * 10000 + ((n / 1000)
            % 10) * 1000 + ((n / 100) % 10) * 100 + ((n / 10) % 10) * 10 + n % 10 == n,
        0 <= n / 100000000 < 10,
{
    lemma_fundamental_div_mod(n, 100000000);
    let d0 = n / 100000000;
    let r0 = n % 100000000;
    lemma_fundamental_div_mod(r0, 10000000);
    let d1 = r0 / 10000000;
    let r1 = r0 % 10000000;
    lemma_fundamental_div_mod(r1, 1000000);
    let d2 = r1 / 1000000;
    let r2 = r1 % 1000000;
    lemma_fundamental_div_mod(r2, 100000);
    let d3 = r2 / 100000;
    let r3 = r2 % 100000;
    lemma_fundamental_div_mod(r3, 10000);
    let d4 = r3 / 10000;
    let r4 = r3 % 10000;
    lemma_fundamental_div_mod(r4, 1000);
    let d5 = r4 / 1000;
    let r5 = r4 % 1000;
    lemma_fundamental_div_mod(r5, 100);
    let d6 = r5 / 100;
    let r6 = r5 % 100;
    lemma_fundamental_div_mod(r6, 10);
    let d7 = r6 / 10;
    let d8 = r6 % 10;
    assert(n == d0 * 100000000 + d1 * 10000000 + d2 * 1000000 + d3 * 100000 + d4 * 10000 + d5
        * 1000 + d6 * 100 + d7 * 10 + d8);
    lemma_compose9(d0, d1, d2, d3, d4, d5, d6, d7, d8);
}

/// The rendered text, element by element.
#[verifier::rlimit(50)]
proof fn lemma_fmt_chars(t: Timestamp)
    requires
        t.valid(),
    ensures
        fmt_rfc3339(t) == seq![
            digit_char((t.year as int) / 1000),
            digit_char(((t.year as int) / 100) % 10),
            digit_char(((t.year as int) / 10) % 10),
            digit_char((t.year as int) % 10),
            '-',
            digit_char((t.month as int) / 10),
            digit_char((t.month as int) % 10),
            '-',
            digit_char((t.day as int) / 10),
            digit_char((t.day as int) % 10),
            'T',
            digit_char((t.hour as int) / 10),
            digit_char((t.hour as int) % 10),
            ':',
            digit_char((t.minute as int) / 10),
            digit_char((t.minute as int) % 10),
            ':',
            digit_char((t.second as int) / 10),
            digit_char((t.second as int) % 10),
            '.',
            digit_char((t.nanosecond as int) / 100000000),
            digit_char(((t.nanosecond as int) / 10000000) % 10),
            digit_char(((t.nanosecond as int) / 1000000) % 10),
            digit_char(((t.nanosecond as int) / 100000) % 10),
            digit_char(((t.nanosecond as int) / 10000) % 10),
            digit_char(((t.nanosecond as int) / 1000) % 10),
            digit_char(((t.nanosecond as int) / 100) % 10),
            digit_char(((t.nanosecond as int) / 10) % 10),
            digit_char((t.nanosecond as int) % 10),
            (if t.offset_minutes >= 0 {
                '+'
            } else {
                '-'
            }),
            digit_char((abs_of(t.offset_minutes as int) / 60) / 10),
            digit_char((abs_of(t.offset_minutes as int) / 60) % 10),
            ':',
            digit_char((abs_of(t.offset_minutes as int) % 60) / 10),
            digit_char((abs_of(t.offset_minutes as int) % 60) % 10),
        ],
{
    reveal(fmt_rfc3339);
    assert(fmt_rfc3339(t) =~= seq![
        digit_char((t.year as int) / 1000),
        digit_char(((t.year as int) / 100) % 10),
        digit_char(((t.year as int) / 10) % 10),
        digit_char((t.year as int) % 10),
        '-',
        digit_char((t.month as int) / 10),
        digit_char((t.month as int) % 10),
        '-',
        digit_char((t.day as int) / 10),
        digit_char((t.day as int) % 10),
        'T',
        digit_char((t.hour as int) / 10),
        digit_char((t.hour as int) % 10),
        ':',
        digit_char((t.minute as int) / 10),
        digit_char((t.minute as int) % 10),
        ':',
        digit_char((t.second as int) / 10),
        digit_char((t.second as int) % 10),
        '.',
        digit_char((t.nanosecond as int) / 100000000),
        digit_char(((t.nanosecond as int) / 10000000) % 10),
        digit_char(((t.nanosecond as int) / 1000000) % 10),
        digit_char(((t.nanosecond as int) / 100000) % 10),
        digit_char(((t.nanosecond as int) / 10000) % 10),
        digit_char(((t.nanosecond as int) / 1000) % 10),
        digit_char(((t.nanosecond as int) / 100) % 10),
        digit_char(((t.nanosecond as int) / 10) % 10),
        digit_char((t.nanosecond as int) % 10),
        (if t.offset_minutes >= 0 {
            '+'
        } else {
            '-'
        }),
        digit_char((abs_of(t.offset_minutes as int) / 60) / 10),
        digit_char((abs_of(t.offset_minutes as int) / 60) % 10),
        ':',
        digit_char((abs_of(t.offset_minutes as int) % 60) / 10),
        digit_char((abs_of(t.offset_minutes as int) % 60) % 10),
    ]);
}

/// Parsing inverts rendering: the canonical text of a valid timestamp
/// parses back to exactly that timestamp.
#[verifier::rlimit(100)]
pub proof fn lemma_parse_of_fmt(t: Timestamp)
    requires
        t.valid(),
    ensures
        parse_rfc3339_spec(fmt_rfc3339(t)) == Some(t),
{
    reveal(parse_rfc3339_spec);
    let v = fmt_rfc3339(t);
    lemma_fmt_chars(t);
    let y = t.year as int;
    let mo = t.month as int;
    let d = t.day as int;
    let h = t.hour as int;
    let mi = t.minute as int;
    let s = t.second as int;
    let n = t.nanosecond as int;
    let off = t.offset_minutes as int;
    let a = abs_of(off);
    lemma_extract4(y);
    lemma_extract2(mo);
    lemma_extract2(d);
    lemma_extract2(h);
    lemma_extract2(mi);
    lemma_extract2(s);
    lemma_extract9(n);
    lemma_fundamental_div_mod(a, 60);
    lemma_extract2(a / 60);
    lemma_extract2(a % 60);
    crate::chars::lemma_digit_round_trip(y / 1000);
    crate::chars::lemma_digit_round_trip((y / 100) % 10);
    crate::chars::lemma_digit_round_trip((y / 10) % 10);
    crate::chars::lemma_digit_round_trip(y % 10);
    crate::chars::lemma_digit_round_trip(mo / 10);
    crate::chars::lemma_digit_round_trip(mo % 10);
    crate::chars::lemma_digit_round_trip(d / 10);
    crate::chars::lemma_digit_round_trip(d % 10);
    crate::chars::lemma_digit_round_trip(h / 10);
    crate::chars::lemma_digit_round_trip(h % 10);
    crate::chars::lemma_digit_round_trip(mi / 10);
    crate::chars::lemma_digit_round_trip(mi % 10);
    crate::chars::lemma_digit_round_trip(s / 10);
    crate::chars::lemma_digit_round_trip(s % 10);
    crate::chars::lemma_digit_round_trip(n / 100000000);
    crate::chars::lemma_digit_round_trip((n / 10000000) % 10);
    crate::chars::lemma_digit_round_trip((n / 1000000) % 10);
    crate::chars::lemma_digit_round_trip((n / 100000) % 10);
    crate::chars::lemma_digit_round_trip((n / 10000) % 10);
    crate::chars::lemma_digit_round_trip((n / 1000) % 10);
    crate::chars::lemma_digit_round_trip((n / 100) % 10);
    crate::chars::lemma_digit_round_trip((n / 10) % 10);
    crate::chars::lemma_digit_round_trip(n % 10);
    crate::chars::lemma_digit_round_trip((a / 60) / 10);
    crate::chars::lemma_digit_round_trip((a / 60) % 10);
    crate::chars::lemma_digit_round_trip((a % 60) / 10);
    crate::chars::lemma_digit_round_trip((a % 60) % 10);
    assert(ts_text_wf(v));
    assert(text_four(v, 0) == y);
    assert(text_two(v, 5) == mo);
    assert(text_two(v, 8) == d);
    assert(text_two(v, 11) == h);
    assert(text_two(v, 14) == mi);
    assert(text_two(v, 17) == s);
    assert(text_nine(v, 20) == n);
    assert(text_two(v, 30) == a / 60);
    assert(text_two(v, 33) == a % 60);
    assert(text_offset_abs(v) == a);
    assert(ts_of_text(v) == t);
}

/// Rendering inverts parsing: a text that parses is exactly the canonical
/// text of the timestamp it parses to.
#[verifier::rlimit(100)]
pub proof fn lemma_fmt_of_parse(v: Seq<char>)
    requires
        parse_rfc3339_spec(v) is Some,
    ensures
        parse_rfc3339_spec(v)->Some_0.valid(),
        fmt_rfc3339(parse_rfc3339_spec(v)->Some_0) == v,
{
    reveal(parse_rfc3339_spec);
    let t = ts_of_text(v);
    lemma_fmt_chars(t);
    crate::chars::lemma_char_round_trip(v[0]);
    crate::chars::lemma_char_round_trip(v[1]);
    crate::chars::lemma_char_round_trip(v[2]);
    crate::chars::lemma_char_round_trip(v[3]);
    crate::chars::lemma_char_round_trip(v[5]);
    crate::chars::lemma_char_round_trip(v[6]);
    crate::chars::lemma_char_round_trip(v[8]);
    crate::chars::lemma_char_round_trip(v[9]);
    crate::chars::lemma_char_round_trip(v[11]);
    crate::chars::lemma_char_round_trip(v[12]);
    crate::chars::lemma_char_round_trip(v[14]);
    crate::chars::lemma_char_round_trip(v[15]);
    crate::chars::lemma_char_round_trip(v[17]);
    crate::chars::lemma_char_round_trip(v[18]);
    crate::chars::lemma_char_round_trip(v[20]);
    crate::chars::lemma_char_round_trip(v[21]);
    crate::chars::lemma_char_round_trip(v[22]);
    crate::chars::lemma_char_round_trip(v[23]);
    crate::chars::lemma_char_round_trip(v[24]);
    crate::chars::lemma_char_round_trip(v[25]);
    crate::chars::lemma_char_round_trip(v[26]);
    crate::chars::lemma_char_round_trip(v[27]);
    crate::chars::lemma_char_round_trip(v[28]);
    crate::chars::lemma_char_round_trip(v[30]);
    crate::chars::lemma_char_round_trip(v[31]);
    crate::chars::lemma_char_round_trip(v[33]);
    crate::chars::lemma_char_round_trip(v[34]);
    lemma_compose4(digit_val(v[0]), digit_val(v[1]), digit_val(v[2]), digit_val(v[3]));
    lemma_compose2(digit_val(v[5]), digit_val(v[6]));
    lemma_compose2(digit_val(v[8]), digit_val(v[9]));
    lemma_compose2(digit_val(v[11]), digit_val(v[12]));
    lemma_compose2(digit_val(v[14]), digit_val(v[15]));
    lemma_compose2(digit_val(v[17]), digit_val(v[18]));
    lemma_compose9(
        digit_val(v[20]),
        digit_val(v[21]),
        digit_val(v[22]),
        digit_val(v[23]),
        digit_val(v[24]),
        digit_val(v[25]),
        digit_val(v[26]),
        digit_val(v[27]),
        digit_val(v[28]),
    );
    lemma_compose2(digit_val(v[30]), digit_val(v[31]));
    lemma_compose2(digit_val(v[33]), digit_val(v[34]));
    let hh = text_two(v, 30);
    let mm = text_two(v, 33);
    let a = text_offset_abs(v);
    lemma_fundamental_div_mod_converse(a, 60, hh, mm);
    let off = t.offset_minutes as int;
    assert(abs_of(off) == a);
    assert((off >= 0) == (v[29] == '+'));
    assert(fmt_rfc3339(t) =~= v);
}

fn push_two(v: &mut Vec<char>, n: u32)
    requires
        n < 100,
    ensures
        final(v)@ == old(v)@ + two_digits(n as int),
{
    v.push(digit_to_char(n / 10));
    v.push(digit_to_char(n % 10));
    proof {
        assert(v@ =~= old(v)@ + two_digits(n as int));
    }
}

fn push_four(v: &mut Vec<char>, n: u32)
    requires
        n < 10000,
    ensures
        final(v)@ == old(v)@ + four_digits(n as int),
{
    v.push(digit_to_char(n / 1000));
    v.push(digit_to_char((n / 100) % 10));
    v.push(digit_to_char((n / 10) % 10));
    v.push(digit_to_char(n % 10));
    proof {
        assert(v@ =~= old(v)@ + four_digits(n as int));
    }
}

fn push_nine(v: &mut Vec<char>, n: u32)
    requires
        n < 1000000000,
    ensures
        final(v)@ == old(v)@ + nine_digits(n as int),
{
    v.push(digit_to_char(n / 100000000));
    v.push(digit_to_char((n / 10000000) % 10));
    v.push(digit_to_char((n / 1000000) % 10));
    v.push(digit_to_char((n / 100000) % 10));
    v.push(digit_to_char((n / 10000) % 10));
    v.push(digit_to_char((n / 1000) % 10));
    v.push(digit_to_char((n / 100) % 10));
    v.push(digit_to_char((n / 10) % 10));
    v.push(digit_to_char(n % 10));
    proof {
        assert(v@ =~= old(v)@ + nine_digits(n as int));
    }
}

/// Renders a timestamp as its canonical RFC 3339 text.
pub fn render_rfc3339(t: &Timestamp) -> (r: Vec<char>)
    requires
        t.valid(),
    ensures
        r@ == fmt_rfc3339(*t),
{
    let mut v: Vec<char> = Vec::new();
    push_four(&mut v, t.year as u32);
    v.push('-');
    push_two(&mut v, t.month as u32);
    v.push('-');
    push_two(&mut v, t.day as u32);
    v.push('T');
    push_two(&mut v, t.hour as u32);
    v.push(':');
    push_two(&mut v, t.minute as u32);
    v.push(':');
    push_two(&mut v, t.second as u32);
    v.push('.');
    push_nine(&mut v, t.nanosecond);
    let m = t.offset_minutes;
    let a: u32 = if m >= 0 {
        m as u32
    } else {
        (-(m as i32)) as u32
    };
    v.push(if m >= 0 {
        '+'
    } else {
        '-'
    });
    push_two(&mut v, a / 60);
    v.push(':');
    push_two(&mut v, a % 60);
    proof {
        reveal(fmt_rfc3339);
        assert(v@ =~= fmt_rfc3339(*t));
    }
    v
}

fn read_two(v: &Vec<char>, i: usize) -> (r: Option<u32>)
    requires
        i + 2 <= v@.len(),
    ensures
        match r {
            Some(n) => is_digit(v@[i as int]) && is_digit(v@[i + 1]) && n == text_two(
                v@,
                i as int,
            ) && n < 100,
            None => !(is_digit(v@[i as int]) && is_digit(v@[i + 1])),
        },
{
    let n = v.len();
    let c0 = char_to_digit(v[i]);
    let c1 = char_to_digit(v[i + 1]);
    match (c0, c1) {
        (Some(a), Some(b)) => Some(a * 10 + b),
        _ => None,
    }
}

fn read_four(v: &Vec<char>, i: usize) -> (r: Option<u32>)
    requires
        i + 4 <= v@.len(),
    ensures
        match r {
            Some(n) => is_digit(v@[i as int]) && is_digit(v@[i + 1]) && is_digit(v@[i + 2])
                && is_digit(v@[i + 3]) && n == text_four(v@, i as int) && n < 10000,
            None => !(is_digit(v@[i as int]) && is_digit(v@[i + 1]) && is_digit(v@[i + 2])
                && is_digit(v@[i + 3])),
        },
{
    let n = v.len();
    let c0 = char_to_digit(v[i]);
    let c1 = char_to_digit(v[i + 1]);
    let c2 = char_to_digit(v[i + 2]);
    let c3 = char_to_digit(v[i + 3]);
    match (c0, c1, c2, c3) {
        (Some(a), Some(b), Some(c), Some(d)) => Some(a * 1000 + b * 100 + c * 10 + d),
        _ => None,
    }
}

fn read_nine(v: &Vec<char>, i: usize) -> (r: Option<u32>)
    requires
        i + 9 <= v@.len(),
    ensures
        match r {
            Some(n) => (forall|j: int| i <= j < i + 9 ==> is_digit(v@[j])) && n == text_nine(
                v@,
                i as int,
            ) && n < 1000000000,
            None => !(forall|j: int| i <= j < i + 9 ==> is_digit(v@[j])),
        },
{
    let n = v.len();
    let c0 = char_to_digit(v[i]);
    let c1 = char_to_digit(v[i + 1]);
    let c2 = char_to_digit(v[i + 2]);
    let c3 = char_to_digit(v[i + 3]);
    let c4 = char_to_digit(v[i + 4]);
    let c5 = char_to_digit(v[i + 5]);
    let c6 = char_to_digit(v[i + 6]);
    let c7 = char_to_digit(v[i + 7]);
    let c8 = char_to_digit(v[i + 8]);
    match (c0, c1, c2, c3, c4, c5, c6, c7, c8) {
        (
            Some(a),
            Some(b),
            Some(c),
            Some(d),
            Some(e),
            Some(f),
            Some(g),
            Some(h),
            Some(k),
        ) => Some(
            a * 100000000 + b * 10000000 + c * 1000000 + d * 100000 + e * 10000 + f * 1000 + g
                * 100 + h * 10 + k,
        ),
        _ => None,
    }
}

/// Parses a canonical RFC 3339 timestamp text.
pub fn parse_rfc3339(v: &Vec<char>) -> (r: Option<Timestamp>)
    ensures
        r == parse_rfc3339_spec(v@),
{
    proof {
        reveal(parse_rfc3339_spec);
    }
    if v.len() != 35 {
        return None;
    }
    if !(v[4] == '-' && v[7] == '-' && v[10] == 'T' && v[13] == ':' && v[16] == ':' && v[19] == '.'
        && v[32] == ':') {
        return None;
    }
    let sign = v[29];
    if !(sign == '+' || sign == '-') {
        return None;
    }
    let year = match read_four(v, 0) {
        Some(n) => n,
        None => { return None },
    };
    let month = match read_two(v, 5) {
        Some(n) => n,
        None => { return None },
    };
    let day = match read_two(v, 8) {
        Some(n) => n,
        None => { return None },
    };
    let hour = match read_two(v, 11) {
        Some(n) => n,
        None => { return None },
    };
    let minute = match read_two(v, 14) {
        Some(n) => n,
        None => { return None },
    };
    let second = match read_two(v, 17) {
        Some(n) => n,
        None => { return None },
    };
    let nanos = match read_nine(v, 20) {
        Some(n) => n,
        None => { return None },
    };
    let ohh = match read_two(v, 30) {
        Some(n) => n,
        None => { return None },
    };
    let omm = match read_two(v, 33) {
        Some(n) => n,
        None => { return None },
    };
    let abs: u32 = ohh * 60 + omm;
    let offset_minutes: i16 = if sign == '-' {
        -((abs as i16))
    } else {
        abs as i16
    };
    let t = Timestamp {
        year: year as u16,
        month: month as u8,
        day: day as u8,
        hour: hour as u8,
        minute: minute as u8,
        second: second as u8,
        nanosecond: nanos,
        offset_minutes,
    };
    proof {
        assert(ts_text_wf(v@));
        assert(ts_of_text(v@) == t);
    }
    if !t.is_valid() {
        return None;
    }
    if omm > 59 {
        return None;
    }
    if sign == '-' && abs == 0 {
        return None;
    }
    Some(t)
}


/// The canonical timestamp text needs no escaping inside a JSON string.
pub proof fn lemma_fmt_plain(t: Timestamp)
    requires
        t.valid(),
    ensures
        crate::chars::all_plain(fmt_rfc3339(t)),
{
    reveal(parse_rfc3339_spec);
    lemma_parse_of_fmt(t);
    let v = fmt_rfc3339(t);
    assert(ts_text_wf(v));
    assert forall|j: int| 0 <= j < v.len() implies crate::chars::plain_char(#[trigger] v[j]) by {
        if is_digit(v[j]) {
            crate::chars::lemma_digit_plain(v[j]);
        } else {
            assert(v[j] == '-' || v[j] == 'T' || v[j] == ':' || v[j] == '.' || v[j] == '+');
        }
    }
}

} // verus!
