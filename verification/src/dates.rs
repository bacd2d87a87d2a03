//! Calendar validation for front-matter dates: year, month and day
//! separated by dashes, with real month lengths and leap years.  The
//! year takes four digits; month and day take one or two, and a valid
//! date is normalized to the zero-padded `YYYY-MM-DD` form in which
//! it is serialized.

use vstd::prelude::*;

use crate::text::{find_char_in, find_from, lemma_find_from, lemma_find_from_skip};

verus! {

/// Numeric value of a decimal digit character, or `-1`.
pub open spec fn digit_val(c: char) -> int {
    if c == '0' {
        0
    } else if c == '1' {
        1
    } else if c == '2' {
        2
    } else if c == '3' {
        3
    } else if c == '4' {
        4
    } else if c == '5' {
        5
    } else if c == '6' {
        6
    } else if c == '7' {
        7
    } else if c == '8' {
        8
    } else if c == '9' {
        9
    } else {
        -1
    }
}

pub open spec fn is_digit(c: char) -> bool {
    digit_val(c) >= 0
}

/// The digit character of a value below ten.
pub open spec fn digit_chr(n: int) -> char {
    if n == 0 {
        '0'
    } else if n == 1 {
        '1'
    } else if n == 2 {
        '2'
    } else if n == 3 {
        '3'
    } else if n == 4 {
        '4'
    } else if n == 5 {
        '5'
    } else if n == 6 {
        '6'
    } else if n == 7 {
        '7'
    } else if n == 8 {
        '8'
    } else {
        '9'
    }
}

/// Leap years in the proleptic Gregorian calendar.
pub open spec fn is_leap_year(y: int) -> bool {
    y % 4 == 0 && (y % 100 != 0 || y % 400 == 0)
}

/// Number of days in a month.
pub open spec fn days_in_month(y: int, m: int) -> int {
    if m == 2 {
        if is_leap_year(y) {
            29
        } else {
            28
        }
    } else if m == 4 || m == 6 || m == 9 || m == 11 {
        30
    } else {
        31
    }
}

/// Whether every character of `[a, b)` is a decimal digit.
pub open spec fn all_digits(s: Seq<char>, a: int, b: int) -> bool {
    forall|j: int| a <= j < b ==> is_digit(#[trigger] s[j])
}

/// Value of a one- or two-digit field.
pub open spec fn field_val(s: Seq<char>, a: int, b: int) -> int {
    if b - a == 1 {
        digit_val(s[a])
    } else {
        digit_val(s[a]) * 10 + digit_val(s[a + 1])
    }
}

/// Year, month and day read out of a dash-separated date text: four
/// year digits, a dash, one or two month digits, a dash, one or two
/// day digits, and nothing else.
pub open spec fn date_parts(s: Seq<char>) -> Option<(int, int, int)> {
    let i = find_from(s, '-', 0);
    let j = find_from(s, '-', i + 1);
    if i == 4 && all_digits(s, 0, 4) && j < s.len() && 1 <= j - 5 <= 2 && all_digits(s, 5, j) && 1
        <= s.len() - (j + 1) <= 2 && all_digits(s, j + 1, s.len() as int) {
        Some(
            (
                digit_val(s[0]) * 1000 + digit_val(s[1]) * 100 + digit_val(s[2]) * 10 + digit_val(
                    s[3],
                ),
                field_val(s, 5, j),
                field_val(s, j + 1, s.len() as int),
            ),
        )
    } else {
        None
    }
}

/// Whether the text is a calendar date.
pub open spec fn spec_valid_date(s: Seq<char>) -> bool {
    match date_parts(s) {
        Some((y, m, d)) => 1 <= m <= 12 && 1 <= d <= days_in_month(y, m),
        None => false,
    }
}

/// The zero-padded `YYYY-MM-DD` form of a date text; a text that is
/// no date stays as it is.
pub open spec fn date_norm(s: Seq<char>) -> Seq<char> {
    match date_parts(s) {
        Some((y, m, d)) => seq![
            digit_chr(y / 1000),
            digit_chr((y / 100) % 10),
            digit_chr((y / 10) % 10),
            digit_chr(y % 10),
            '-',
            digit_chr(m / 10),
            digit_chr(m % 10),
            '-',
            digit_chr(d / 10),
            digit_chr(d % 10),
        ],
        None => s,
    }
}

/// Executable counterpart of `digit_val`.
pub fn digit_value(c: char) -> (r: i32)
    ensures
        r == digit_val(c),
{
    if c == '0' {
        0
    } else if c == '1' {
        1
    } else if c == '2' {
        2
    } else if c == '3' {
        3
    } else if c == '4' {
        4
    } else if c == '5' {
        5
    } else if c == '6' {
        6
    } else if c == '7' {
        7
    } else if c == '8' {
        8
    } else if c == '9' {
        9
    } else {
        -1
    }
}

/// Executable counterpart of `digit_chr`.
fn digit_character(n: i32) -> (r: char)
    requires
        0 <= n <= 9,
    ensures
        r == digit_chr(n as int),
{
    if n == 0 {
        '0'
    } else if n == 1 {
        '1'
    } else if n == 2 {
        '2'
    } else if n == 3 {
        '3'
    } else if n == 4 {
        '4'
    } else if n == 5 {
        '5'
    } else if n == 6 {
        '6'
    } else if n == 7 {
        '7'
    } else if n == 8 {
        '8'
    } else {
        '9'
    }
}

/// Value of the one- or two-digit field `[a, b)`, already known to be
/// digits.
fn field_value(v: &Vec<char>, a: usize, b: usize) -> (r: i32)
    requires
        a < b <= v.len(),
        b - a <= 2,
        all_digits(v@, a as int, b as int),
    ensures
        r == field_val(v@, a as int, b as int),
        0 <= r <= 99,
{
    if b - a == 1 {
        digit_value(v[a])
    } else {
        digit_value(v[a]) * 10 + digit_value(v[a + 1])
    }
}

/// Reads the year, month and day fields out of the text, mirroring
/// `date_parts`.
#[verifier::rlimit(60)]
fn date_fields(v: &Vec<char>) -> (r: Option<(i32, i32, i32)>)
    ensures
        match r {
            Some(t) => date_parts(v@) == Some((t.0 as int, t.1 as int, t.2 as int)) && 0 <= t.0
                <= 9999 && 0 <= t.1 <= 99 && 0 <= t.2 <= 99,
            None => date_parts(v@) is None,
        },
{
    proof {
        lemma_find_from(v@, '-', 0);
        assert(v@.subrange(0, v@.len() as int) =~= v@);
    }
    let i = find_char_in(v, '-', 0, v.len());
    if i != 4 {
        return None;
    }
    if i + 1 >= v.len() {
        // the second dash cannot exist, so the month field is missing
        proof {
            assert(find_from(v@, '-', i + 1 as int) == v@.len());
        }
        return None;
    }
    proof {
        lemma_find_from_skip(v@, '-', i + 1 as int);
        assert(v@.skip(i + 1 as int) =~= v@.subrange(i + 1 as int, v@.len() as int));
    }
    let j = find_char_in(v, '-', i + 1, v.len());
    if j == v.len() {
        return None;
    }
    if !(j >= 6 && j - 5 <= 2) {
        return None;
    }
    let dlen = v.len() - (j + 1);
    if !(dlen >= 1 && dlen <= 2) {
        return None;
    }
    let y0 = digit_value(v[0]);
    let y1 = digit_value(v[1]);
    let y2 = digit_value(v[2]);
    let y3 = digit_value(v[3]);
    if y0 < 0 || y1 < 0 || y2 < 0 || y3 < 0 {
        return None;
    }
    let m0 = digit_value(v[5]);
    let m1: i32 = if j - 5 == 2 {
        digit_value(v[6])
    } else {
        0
    };
    if m0 < 0 || m1 < 0 {
        return None;
    }
    let d0 = digit_value(v[j + 1]);
    let d1: i32 = if dlen == 2 {
        digit_value(v[j + 2])
    } else {
        0
    };
    if d0 < 0 || d1 < 0 {
        return None;
    }
    proof {
        assert(all_digits(v@, 0, 4));
        assert(all_digits(v@, 5, j as int));
        assert(all_digits(v@, j + 1 as int, v@.len() as int));
    }
    let y = y0 * 1000 + y1 * 100 + y2 * 10 + y3;
    let m = field_value(v, 5, j);
    let d = field_value(v, j + 1, v.len());
    proof {
        assert(date_parts(v@) == Some((y as int, m as int, d as int)));
    }
    Some((y, m, d))
}

/// The ten characters of the zero-padded form of a date.
fn pad_date(y: i32, m: i32, d: i32) -> (n: Vec<char>)
    requires
        0 <= y <= 9999,
        0 <= m <= 99,
        0 <= d <= 99,
    ensures
        n@ == seq![
            digit_chr(y as int / 1000),
            digit_chr((y as int / 100) % 10),
            digit_chr((y as int / 10) % 10),
            digit_chr(y as int % 10),
            '-',
            digit_chr(m as int / 10),
            digit_chr(m as int % 10),
            '-',
            digit_chr(d as int / 10),
            digit_chr(d as int % 10),
        ],
{
    let mut n: Vec<char> = Vec::new();
    n.push(digit_character(y / 1000));
    n.push(digit_character((y / 100) % 10));
    n.push(digit_character((y / 10) % 10));
    n.push(digit_character(y % 10));
    n.push('-');
    n.push(digit_character(m / 10));
    n.push(digit_character(m % 10));
    n.push('-');
    n.push(digit_character(d / 10));
    n.push(digit_character(d % 10));
    proof {
        assert(n@ =~= seq![
            digit_chr(y as int / 1000),
            digit_chr((y as int / 100) % 10),
            digit_chr((y as int / 10) % 10),
            digit_chr(y as int % 10),
            '-',
            digit_chr(m as int / 10),
            digit_chr(m as int % 10),
            '-',
            digit_chr(d as int / 10),
            digit_chr(d as int % 10),
        ]);
    }
    n
}

/// Checks that the characters form a calendar date and yields its
/// zero-padded `YYYY-MM-DD` form.
pub fn normalize_date(v: &Vec<char>) -> (r: Option<Vec<char>>)
    ensures
        match r {
            Some(n) => spec_valid_date(v@) && n@ == date_norm(v@),
            None => !spec_valid_date(v@),
        },
{
    let (y, m, d) = match date_fields(v) {
        None => {
            return None;
        },
        Some(t) => t,
    };
    if m < 1 || m > 12 || d < 1 {
        return None;
    }
    let max_day: i32 = if m == 2 {
        let leap = y % 4 == 0 && (y % 100 != 0 || y % 400 == 0);
        if leap {
            29
        } else {
            28
        }
    } else if m == 4 || m == 6 || m == 9 || m == 11 {
        30
    } else {
        31
    };
    if d > max_day {
        return None;
    }
    Some(pad_date(y, m, d))
}

} // verus!
