//! Calendar dates and the parsing of the birth-date form field.
//!
//! The library keeps a date as plain year, month and day with the calendar's
//! validity rule; only the current year is read from the clock, through the
//! `time` crate.

use vstd::prelude::*;
use vstd::string::StrSliceExecFns;
use vstd::string::StringExecFns;

use crate::forms::FormError;
use crate::media::is_digit;
use crate::probe::{dec_value, digit_seq, parse_u32_range};

verus! {

/// A calendar date. The library's dates lie in the years 0 through 9999.
#[derive(Clone, Copy, Debug, PartialEq, Eq, Structural)]
pub struct Date {
    pub year: i32,
    pub month: u8,
    pub day: u8,
}

pub open spec fn is_leap_year(y: int) -> bool {
    if y % 100 == 0 {
        y % 400 == 0
    } else {
        y % 4 == 0
    }
}

pub open spec fn days_in_month(y: int, m: int) -> int {
    if m == 2 {
        if is_leap_year(y) {
            29
        } else {
            28
        }
    } else if m == 4 || m == 6 || m == 9 || m == 11 {
        30
    } else {
        31
    }
}

pub open spec fn valid_date(y: int, m: int, d: int) -> bool {
    &&& 0 <= y <= 9999
    &&& 1 <= m <= 12
    &&& 1 <= d <= days_in_month(y, m)
}

fn leap_year(y: i32) -> (r: bool)
    requires
        0 <= y,
    ensures
        r == is_leap_year(y as int),
{
    if y % 100 == 0 {
        y % 400 == 0
    } else {
        y % 4 == 0
    }
}

fn month_days(y: i32, m: u8) -> (r: u8)
    requires
        0 <= y,
        1 <= m <= 12,
    ensures
        r == days_in_month(y as int, m as int),
{
    if m == 2 {
        if leap_year(y) {
            29
        } else {
            28
        }
    } else if m == 4 || m == 6 || m == 9 || m == 11 {
        30
    } else {
        31
    }
}

fn check_valid_date(y: i32, m: u8, d: u8) -> (r: bool)
    ensures
        r == valid_date(y as int, m as int, d as int),
{
    if y < 0 || y > 9999 || m < 1 || m > 12 {
        return false;
    }
    let dim = month_days(y, m);
    1 <= d && d <= dim
}

impl Date {
    /// Builds a date after checking it against the calendar.
    pub fn from_calendar_date(year: i32, month: u8, day: u8) -> (r: Option<Date>)
        ensures
            r is Some <==> valid_date(year as int, month as int, day as int),
            r matches Some(dt) ==> dt == (Date { year, month, day }),
    {
        if check_valid_date(year, month, day) {
            Some(Date { year, month, day })
        } else {
            None
        }
    }
}

/// How old someone born on `birthday_date` turns in the year of `date`,
/// counted the way the signup rules do.
pub open spec fn spec_years_old(date: Date, birthday_date: Date) -> int {
    let years = birthday_date.year - date.year;
    if birthday_date.month < date.month || (birthday_date.month == date.month
        && birthday_date.day < date.day) {
        years - 1
    } else {
        years
    }
}

pub fn years_old(date: Date, birthday_date: &Date) -> (r: i32)
    requires
        valid_date(date.year as int, date.month as int, date.day as int),
        valid_date(
            birthday_date.year as int,
            birthday_date.month as int,
            birthday_date.day as int,
        ),
    ensures
        r == spec_years_old(date, *birthday_date),
{
    let mut years = birthday_date.year - date.year;
    if (birthday_date.month as u8) < (date.month as u8) || (birthday_date.month == date.month
        && birthday_date.day < date.day) {
        years = years - 1;
    }
    years
}

/// Positions `i < j` split `s` into three non-empty, digit-only segments
/// around two occurrences of the separator.
pub open spec fn shape3(s: Seq<char>, sep: char, i: int, j: int) -> bool {
    &&& 1 <= i
    &&& i + 1 < j
    &&& j + 1 < s.len()
    &&& s[i] == sep
    &&& s[j] == sep
    &&& digit_seq(s.take(i))
    &&& digit_seq(s.subrange(i + 1, j))
    &&& digit_seq(s.skip(j + 1))
}

/// The day, month and year read from the German form `D.M.Y`: one or two
/// digits for the day and the month, one to four for the year.
pub open spec fn german_parses_to(s: Seq<char>, d: int, m: int, y: int) -> bool {
    exists|i: int, j: int|
        {
            &&& #[trigger] shape3(s, '.', i, j)
            &&& i <= 2
            &&& j - i - 1 <= 2
            &&& s.len() - j - 1 <= 4
            &&& d == dec_value(s.take(i))
            &&& m == dec_value(s.subrange(i + 1, j))
            &&& y == dec_value(s.skip(j + 1))
        }
}

/// The year, month and day read from the form `Y-M-D`: one to four digits
/// for the year, one or two for the month and the day.
pub open spec fn iso_parses_to(s: Seq<char>, y: int, m: int, d: int) -> bool {
    exists|i: int, j: int|
        {
            &&& #[trigger] shape3(s, '-', i, j)
            &&& i <= 4
            &&& j - i - 1 <= 2
            &&& s.len() - j - 1 <= 2
            &&& y == dec_value(s.take(i))
            &&& m == dec_value(s.subrange(i + 1, j))
            &&& d == dec_value(s.skip(j + 1))
        }
}

/// The date the string spells, in either accepted form.
pub open spec fn date_parts(s: Seq<char>, y: int, m: int, d: int) -> bool {
    german_parses_to(s, d, m, y) || iso_parses_to(s, y, m, d)
}

/// A two-digit year names the matching year of the current or the previous
/// century; years above 1900 are taken as written.
pub open spec fn fixup_year(y: int, cur: int) -> int {
    if y <= 1900 {
        if y <= cur % 100 {
            y + (cur / 100) * 100
        } else {
            y + (cur / 100) * 100 - 100
        }
    } else {
        y
    }
}

/// The string parses, relative to the current year `cur`, to the final date
/// `(y2, m, d)`.
pub open spec fn parses_with(s: Seq<char>, cur: int, y2: int, m: int, d: int) -> bool {
    exists|y: int|
        {
            &&& #[trigger] date_parts(s, y, m, d)
            &&& valid_date(y, m, d)
            &&& y2 == fixup_year(y, cur)
            &&& valid_date(y2, m, d)
        }
}

/// Two shapes with non-digit separators over one string agree.
proof fn lemma_shape3_unique(s: Seq<char>, sep: char, i: int, j: int, i2: int, j2: int)
    requires
        !is_digit(sep),
        shape3(s, sep, i, j),
        shape3(s, sep, i2, j2),
    ensures
        i == i2 && j == j2,
{
    if i < i2 {
        assert(is_digit(s.take(i2)[i]));
    }
    if i2 < i {
        assert(is_digit(s.take(i)[i2]));
    }
    if j < j2 {
        if j < i2 {
            assert(is_digit(s.take(i2)[j]));
        } else {
            assert(is_digit(s.subrange(i2 + 1, j2)[j - i2 - 1]));
        }
    }
    if j2 < j {
        if j2 < i {
            assert(is_digit(s.take(i)[j2]));
        } else {
            assert(is_digit(s.subrange(i + 1, j)[j2 - i - 1]));
        }
    }
}

/// One string cannot carry two shapes with different separators.
proof fn lemma_shape3_exclusive(s: Seq<char>, a: char, b: char, i: int, j: int, i2: int, j2: int)
    requires
        a != b,
        !is_digit(a),
        !is_digit(b),
        shape3(s, a, i, j),
    ensures
        !shape3(s, b, i2, j2),
{
    if shape3(s, b, i2, j2) {
        if i < i2 {
            assert(is_digit(s.take(i2)[i]));
        } else if i == i2 {
        } else if i < j2 {
            assert(is_digit(s.subrange(i2 + 1, j2)[i - i2 - 1]));
        } else if i == j2 {
        } else {
            assert(is_digit(s.skip(j2 + 1)[i - j2 - 1]));
        }
    }
}

/// Checks that every character of `s` in `[from, to)` is a digit.
fn check_digits(s: &str, from: usize, to: usize) -> (r: bool)
    requires
        from <= to <= s@.len(),
    ensures
        r == forall|k: int| from <= k < to ==> is_digit(#[trigger] s@[k]),
{
    let mut k = from;
    while k < to
        invariant
            from <= k <= to <= s@.len(),
            forall|a: int| from <= a < k ==> is_digit(#[trigger] s@[a]),
        decreases to - k,
    {
        let c = s.get_char(k);
        if !(c as u32 >= 48 && c as u32 <= 57) {
            proof {
                assert(!is_digit(s@[k as int]));
            }
            return false;
        }
        k = k + 1;
    }
    true
}

/// The position of the first `c` at or after `start`.
fn find_from(s: &str, c: char, start: usize) -> (r: Option<usize>)
    requires
        start <= s@.len(),
    ensures
        match r {
            Some(p) => start <= p < s@.len() && s@[p as int] == c && forall|j: int|
                start <= j < p ==> s@[j] != c,
            None => forall|j: int| start <= j < s@.len() ==> s@[j] != c,
        },
{
    let n = s.unicode_len();
    let mut i = start;
    while i < n
        invariant
            start <= i <= n == s@.len(),
            forall|j: int| start <= j < i ==> s@[j] != c,
        decreases n - i,
    {
        if s.get_char(i) == c {
            return Some(i);
        }
        i = i + 1;
    }
    None
}

/// Finds the unique two-separator digit split of `s`, if `s` has one.
fn split3(s: &str, sep: char) -> (r: Option<(usize, usize)>)
    requires
        !is_digit(sep),
    ensures
        r matches Some(p) ==> shape3(s@, sep, p.0 as int, p.1 as int),
        r is None ==> forall|i: int, j: int| !shape3(s@, sep, i, j),
{
    let n = s.unicode_len();
    let i = match find_from(s, sep, 0) {
        Some(i) => i,
        None => {
            proof {
                assert forall|i: int, j: int| !shape3(s@, sep, i, j) by {
                    if shape3(s@, sep, i, j) {
                        assert(s@[i] == sep);
                    }
                }
            }
            return None;
        }
    };
    // In any split the first segment is digits, so its separator is the
    // first one of the string.
    proof {
        assert forall|a: int, b: int| shape3(s@, sep, a, b) implies a == i by {
            if a < i {
                assert(s@[a] == sep);
            }
            if i < a {
                assert(is_digit(s@.take(a)[i as int]));
                assert(s@[i as int] == sep);
            }
        }
    }
    if i == 0 || !check_digits(s, 0, i) {
        proof {
            assert forall|a: int, b: int| !shape3(s@, sep, a, b) by {
                if shape3(s@, sep, a, b) {
                    assert forall|k: int| 0 <= k < a implies is_digit(#[trigger] s@[k]) by {
                        assert(is_digit(s@.take(a)[k]));
                    }
                }
            }
        }
        return None;
    }
    let j = match find_from(s, sep, i + 1) {
        Some(j) => j,
        None => {
            proof {
                assert forall|a: int, b: int| !shape3(s@, sep, a, b) by {
                    if shape3(s@, sep, a, b) {
                        assert(a == i);
                        assert(s@[b] == sep && i < b < s@.len());
                    }
                }
            }
            return None;
        }
    };
    proof {
        assert forall|a: int, b: int| shape3(s@, sep, a, b) implies a == i && b == j by {
            if shape3(s@, sep, a, b) {
                if b < j {
                    assert(s@[b] == sep && a < b);
                }
                if j < b {
                    assert(is_digit(s@.subrange(a + 1, b)[j - a - 1]));
                    assert(s@[j as int] == sep);
                }
            }
        }
    }
    if j == i + 1 || j + 1 >= n || !check_digits(s, i + 1, j) || !check_digits(s, j + 1, n) {
        proof {
            assert forall|a: int, b: int| !shape3(s@, sep, a, b) by {
                if shape3(s@, sep, a, b) {
                    assert forall|k: int| a + 1 <= k < b implies is_digit(#[trigger] s@[k]) by {
                        assert(is_digit(s@.subrange(a + 1, b)[k - a - 1]));
                    }
                    assert forall|k: int|
                        b + 1 <= k < s@.len() implies is_digit(#[trigger] s@[k]) by {
                        assert(is_digit(s@.skip(b + 1)[k - b - 1]));
                    }
                }
            }
        }
        return None;
    }
    proof {
        assert(digit_seq(s@.take(i as int)));
        assert(digit_seq(s@.subrange(i as int + 1, j as int)));
        assert(digit_seq(s@.skip(j as int + 1)));
        assert(shape3(s@, sep, i as int, j as int));
    }
    Some((i, j))
}

pub open spec fn pow10(n: nat) -> int
    decreases n,
{
    if n == 0 {
        1
    } else {
        10 * pow10((n - 1) as nat)
    }
}

proof fn lemma_dec_value_upper(s: Seq<char>)
    requires
        forall|i: int| 0 <= i < s.len() ==> is_digit(#[trigger] s[i]),
    ensures
        0 <= dec_value(s) < pow10(s.len()),
    decreases s.len(),
{
    if s.len() > 0 {
        assert(forall|i: int|
            0 <= i < s.drop_last().len() ==> is_digit(#[trigger] s.drop_last()[i]));
        lemma_dec_value_upper(s.drop_last());
        assert(48 <= s.last() as u32 <= 57);
    }
}

/// Parses the three segments of a split as numbers; the segments are at
/// most four digits wide, so each value is representable.
fn segment_values(s: &str, i: usize, j: usize) -> (r: (u32, u32, u32))
    requires
        s@[i as int] == s@[j as int],
        shape3(s@, s@[i as int], i as int, j as int),
        i <= 4,
        j - i - 1 <= 4,
        s@.len() - j - 1 <= 4,
    ensures
        r.0 == dec_value(s@.take(i as int)),
        r.1 == dec_value(s@.subrange(i as int + 1, j as int)),
        r.2 == dec_value(s@.skip(j as int + 1)),
        r.0 <= 9999 && r.1 <= 9999 && r.2 <= 9999,
{
    let n = s.unicode_len();
    proof {
        reveal_with_fuel(pow10, 5);
        lemma_dec_value_upper(s@.take(i as int));
        lemma_dec_value_upper(s@.subrange(i as int + 1, j as int));
        lemma_dec_value_upper(s@.skip(j as int + 1));
        assert(pow10(s@.take(i as int).len()) <= pow10(4)) by {
            reveal_with_fuel(pow10, 5);
            if s@.take(i as int).len() == 1 {
            } else if s@.take(i as int).len() == 2 {
            } else if s@.take(i as int).len() == 3 {
            }
        }
    }
    let a = match parse_u32_range(s, 0, i) {
        Some(v) => v,
        None => {
            proof {
                assert(s@.subrange(0, i as int) =~= s@.take(i as int));
                lemma_pow10_small(s@.take(i as int).len());
                assert(false);
            }
            0
        }
    };
    let b = match parse_u32_range(s, i + 1, j) {
        Some(v) => v,
        None => {
            proof {
                lemma_pow10_small(s@.subrange(i as int + 1, j as int).len());
                assert(false);
            }
            0
        }
    };
    let c = match parse_u32_range(s, j + 1, n) {
        Some(v) => v,
        None => {
            proof {
                assert(s@.subrange(j as int + 1, n as int) =~= s@.skip(j as int + 1));
                lemma_pow10_small(s@.skip(j as int + 1).len());
                assert(false);
            }
            0
        }
    };
    proof {
        assert(s@.subrange(0, i as int) =~= s@.take(i as int));
        assert(s@.subrange(j as int + 1, n as int) =~= s@.skip(j as int + 1));
        lemma_pow10_small(s@.take(i as int).len());
        lemma_pow10_small(s@.subrange(i as int + 1, j as int).len());
        lemma_pow10_small(s@.skip(j as int + 1).len());
    }
    (a, b, c)
}

/// Ten to a power of at most four is at most ten thousand.
proof fn lemma_pow10_small(n: nat)
    requires
        n <= 4,
    ensures
        pow10(n) <= 10000,
{
    reveal_with_fuel(pow10, 5);
    if n == 0 {
    } else if n == 1 {
    } else if n == 2 {
    } else if n == 3 {
    }
}

/// Reads a German-form date; the day, month and year values are uniquely
/// determined by the string.
fn german_parse(s: &str) -> (r: Option<(u32, u32, u32)>)
    ensures
        r matches Some(v) ==> german_parses_to(s@, v.0 as int, v.1 as int, v.2 as int) && v.0
            <= 9999 && v.1 <= 9999 && v.2 <= 9999,
        forall|d: int, m: int, y: int|
            german_parses_to(s@, d, m, y) ==> (r matches Some(v) && v.0 == d && v.1 == m && v.2
                == y),
{
    let n = s.unicode_len();
    let (i, j) = match split3(s, '.') {
        Some(p) => p,
        None => {
            return None;
        }
    };
    if i > 2 || j - i > 3 || n - j > 5 {
        proof {
            assert forall|d: int, m: int, y: int| !german_parses_to(s@, d, m, y) by {
                if german_parses_to(s@, d, m, y) {
                    let (a, b) = choose|a: int, b: int|
                        {
                            &&& #[trigger] shape3(s@, '.', a, b)
                            &&& a <= 2
                            &&& b - a - 1 <= 2
                            &&& s@.len() - b - 1 <= 4
                            &&& d == dec_value(s@.take(a))
                            &&& m == dec_value(s@.subrange(a + 1, b))
                            &&& y == dec_value(s@.skip(b + 1))
                        };
                    lemma_shape3_unique(s@, '.', a, b, i as int, j as int);
                }
            }
        }
        return None;
    }
    let v = segment_values(s, i, j);
    proof {
        assert(german_parses_to(s@, v.0 as int, v.1 as int, v.2 as int));
        assert forall|d: int, m: int, y: int| german_parses_to(s@, d, m, y) implies (d
            == v.0 as int && m == v.1 as int && y == v.2 as int) by {
            let (a, b) = choose|a: int, b: int|
                {
                    &&& #[trigger] shape3(s@, '.', a, b)
                    &&& a <= 2
                    &&& b - a - 1 <= 2
                    &&& s@.len() - b - 1 <= 4
                    &&& d == dec_value(s@.take(a))
                    &&& m == dec_value(s@.subrange(a + 1, b))
                    &&& y == dec_value(s@.skip(b + 1))
                };
            lemma_shape3_unique(s@, '.', a, b, i as int, j as int);
        }
    }
    Some(v)
}

/// Reads an ISO-form date; the year, month and day values are uniquely
/// determined by the string.
fn iso_parse(s: &str) -> (r: Option<(u32, u32, u32)>)
    ensures
        r matches Some(v) ==> iso_parses_to(s@, v.0 as int, v.1 as int, v.2 as int) && v.0 <= 9999
            && v.1 <= 9999 && v.2 <= 9999,
        forall|y: int, m: int, d: int|
            iso_parses_to(s@, y, m, d) ==> (r matches Some(v) && v.0 == y && v.1 == m && v.2
                == d),
{
    let n = s.unicode_len();
    let (i, j) = match split3(s, '-') {
        Some(p) => p,
        None => {
            return None;
        }
    };
    if i > 4 || j - i > 3 || n - j > 3 {
        proof {
            assert forall|y: int, m: int, d: int| !iso_parses_to(s@, y, m, d) by {
                if iso_parses_to(s@, y, m, d) {
                    let (a, b) = choose|a: int, b: int|
                        {
                            &&& #[trigger] shape3(s@, '-', a, b)
                            &&& a <= 4
                            &&& b - a - 1 <= 2
                            &&& s@.len() - b - 1 <= 2
                            &&& y == dec_value(s@.take(a))
                            &&& m == dec_value(s@.subrange(a + 1, b))
                            &&& d == dec_value(s@.skip(b + 1))
                        };
                    lemma_shape3_unique(s@, '-', a, b, i as int, j as int);
                }
            }
        }
        return None;
    }
    let v = segment_values(s, i, j);
    proof {
        assert(iso_parses_to(s@, v.0 as int, v.1 as int, v.2 as int));
        assert forall|y: int, m: int, d: int| iso_parses_to(s@, y, m, d) implies (y == v.0 as int
            && m == v.1 as int && d == v.2 as int) by {
            let (a, b) = choose|a: int, b: int|
                {
                    &&& #[trigger] shape3(s@, '-', a, b)
                    &&& a <= 4
                    &&& b - a - 1 <= 2
                    &&& s@.len() - b - 1 <= 2
                    &&& y == dec_value(s@.take(a))
                    &&& m == dec_value(s@.subrange(a + 1, b))
                    &&& d == dec_value(s@.skip(b + 1))
                };
            lemma_shape3_unique(s@, '-', a, b, i as int, j as int);
        }
    }
    Some(v)
}

fn fixup(y: i32, cur: i32) -> (r: i32)
    requires
        0 <= y <= 9999,
        0 <= cur <= 9999,
    ensures
        r == fixup_year(y as int, cur as int),
{
    if y <= 1900 {
        let rem = cur % 100;
        let century = cur / 100 * 100;
        if y <= rem {
            y + century
        } else {
            y + century - 100
        }
    } else {
        y
    }
}

/// Relies on `time::OffsetDateTime::now_utc` and `OffsetDateTime::year`:
/// the current UTC year, which the `time` crate keeps between -9999 and
/// 9999.
#[verifier::external_body]
fn current_year() -> (r: i32)
    ensures
        -9999 <= r <= 9999,
{
    time::OffsetDateTime::now_utc().year()
}

fn date_error(s: &str, field: &str) -> (r: FormError)
    ensures
        r@.field == Some(field@),
        r@.message == "Bitte geben Sie das Datum ("@ + s@ + ") im Format TT.MM.JJJJ an."@,
{
    FormError {
        field: Some(field.to_owned()),
        message: String::from_str("Bitte geben Sie das Datum (").concat(s).concat(
            ") im Format TT.MM.JJJJ an.",
        ),
    }
}

/// Parses a date field against the current year `cur`. The accepted forms
/// are `D.M.Y` and `Y-M-D`; a year of at most 1900 is read as a two-digit
/// year of the century `cur` lies in, or the one before when it would lie
/// in `cur`'s future. Every other string, and every string naming an
/// invalid calendar date, is rejected with the message asking for the
/// `TT.MM.JJJJ` format.
pub fn parse_date_with_year(s: &str, field: &str, cur: i32) -> (r: Result<Date, FormError>)
    requires
        0 <= cur <= 9999,
    ensures
        r matches Ok(dt) ==> parses_with(
            s@,
            cur as int,
            dt.year as int,
            dt.month as int,
            dt.day as int,
        ),
        forall|y2: int, m: int, d: int|
            parses_with(s@, cur as int, y2, m, d) ==> (r matches Ok(dt) && dt.year == y2
                && dt.month == m && dt.day == d),
        r is Err ==> (r->Err_0)@.field == Some(field@) && (r->Err_0)@.message
            == "Bitte geben Sie das Datum ("@ + s@ + ") im Format TT.MM.JJJJ an."@,
{
    let german = german_parse(s);
    let (d, m, y) = match german {
        Some((d, m, y)) => (d, m, y),
        None => {
            match iso_parse(s) {
                Some((y, m, d)) => (d, m, y),
                None => {
                    proof {
                        assert forall|y: int, m: int, d: int| !date_parts(s@, y, m, d) by {}
                    }
                    return Err(date_error(s, field));
                }
            }
        }
    };
    proof {
        assert(date_parts(s@, y as int, m as int, d as int));
        assert forall|y9: int, m9: int, d9: int| date_parts(s@, y9, m9, d9) implies (y9
            == y as int && m9 == m as int && d9 == d as int) by {
            if german_parses_to(s@, d9, m9, y9) && german is None {
                assert(false);
            }
            if german is Some && iso_parses_to(s@, y9, m9, d9) {
                let g = german->0;
                let (a, b) = choose|a: int, b: int|
                    {
                        &&& #[trigger] shape3(s@, '-', a, b)
                        &&& a <= 4
                        &&& b - a - 1 <= 2
                        &&& s@.len() - b - 1 <= 2
                        &&& y9 == dec_value(s@.take(a))
                        &&& m9 == dec_value(s@.subrange(a + 1, b))
                        &&& d9 == dec_value(s@.skip(b + 1))
                    };
                let (a2, b2) = choose|a2: int, b2: int|
                    {
                        &&& #[trigger] shape3(s@, '.', a2, b2)
                        &&& a2 <= 2
                        &&& b2 - a2 - 1 <= 2
                        &&& s@.len() - b2 - 1 <= 4
                        &&& g.0 as int == dec_value(s@.take(a2))
                        &&& g.1 as int == dec_value(s@.subrange(a2 + 1, b2))
                        &&& g.2 as int == dec_value(s@.skip(b2 + 1))
                    };
                lemma_shape3_exclusive(s@, '.', '-', a2, b2, a, b);
            }
        }
    }
    if m < 1 || m > 12 || d < 1 || d > 31 {
        return Err(date_error(s, field));
    }
    let m8: u8 = m as u8;
    let d8: u8 = d as u8;
    let yi: i32 = y as i32;
    if !check_valid_date(yi, m8, d8) {
        return Err(date_error(s, field));
    }
    let y2 = fixup(yi, cur);
    if !check_valid_date(y2, m8, d8) {
        return Err(date_error(s, field));
    }
    proof {
        assert(date_parts(s@, yi as int, m8 as int, d8 as int));
        assert(parses_with(s@, cur as int, y2 as int, m8 as int, d8 as int));
    }
    Ok(Date { year: y2, month: m8, day: d8 })
}

/// Parses a date field against the clock's current year.
///
/// The grammar and the calendar check do not depend on the clock, only the
/// century a two-digit year lands in does; a four-digit year above 1900 is
/// returned exactly as written.
pub fn try_parse_date(s: &str, field: &str) -> (r: Result<Date, FormError>)
    ensures
        r matches Ok(dt) ==> exists|cur: int|
            0 <= cur <= 9999 && parses_with(s@, cur, dt.year as int, dt.month as int, dt.day as int),
        forall|y: int, m: int, d: int|
            date_parts(s@, y, m, d) && valid_date(y, m, d) && y > 1900 ==> (r matches Ok(dt)
                && dt.year == y && dt.month == m && dt.day == d),
        (forall|y: int, m: int, d: int| !(date_parts(s@, y, m, d) && valid_date(y, m, d))) ==> r
            is Err,
        r is Err ==> (r->Err_0)@.field == Some(field@) && (r->Err_0)@.message
            == "Bitte geben Sie das Datum ("@ + s@ + ") im Format TT.MM.JJJJ an."@,
{
    let mut cur = current_year();
    if cur < 0 {
        // A clock before the common era would make the two-digit fixup
        // meaningless; clamp it.
        cur = 0;
    }
    let r = parse_date_with_year(s, field, cur);
    proof {
        assert forall|y: int, m: int, d: int|
            date_parts(s@, y, m, d) && valid_date(y, m, d) && y > 1900 implies (r matches Ok(dt)
            && dt.year == y && dt.month == m && dt.day == d) by {
            assert(fixup_year(y, cur as int) == y);
            assert(parses_with(s@, cur as int, y, m, d));
        }
    }
    r
}

} // verus!
