//! Clock readings as text: dates as `%Y-%m-%d` and times of day as
//! `%H:%M:%S`, written by chrono from the calendar fields of a local time.

use vstd::prelude::*;
use crate::decimal::{ascii_chars, decimal_chars, decimal_digits, zero_code};

verus! {

/// The character of the decimal digit `d`.
pub open spec fn digit_char(d: int) -> char {
    ((48 + d) as u8) as char
}

/// `v` (below 100) as two decimal digits.
pub open spec fn two_digits(v: int) -> Seq<char> {
    seq![digit_char(v / 10), digit_char(v % 10)]
}

/// The decimal text of `v`, left-padded with zeros to at least `width` characters.
pub open spec fn zero_padded(v: nat, width: nat) -> Seq<char> {
    let d = decimal_chars(v);
    if d.len() >= width {
        d
    } else {
        Seq::new((width - d.len()) as nat, |i: int| '0') + d
    }
}

/// How `%Y` writes year `y`: four digits for years 0 to 9999, otherwise a
/// sign and at least four digits.
pub open spec fn year_text(y: int) -> Seq<char> {
    if 0 <= y <= 9999 {
        zero_padded(y as nat, 4)
    } else if y < 0 {
        seq!['-'] + zero_padded((-y) as nat, 4)
    } else {
        seq!['+'] + zero_padded(y as nat, 4)
    }
}

/// `%Y-%m-%d` for the given date.
pub open spec fn date_text(year: int, month: int, day: int) -> Seq<char> {
    year_text(year) + seq!['-'] + two_digits(month) + seq!['-'] + two_digits(day)
}

/// `%H:%M:%S` for the given time of day.
pub open spec fn time_text(hour: int, minute: int, second: int) -> Seq<char> {
    two_digits(hour) + seq![':'] + two_digits(minute) + seq![':'] + two_digits(second)
}

/// The earliest year chrono represents.
pub open spec fn chrono_min_year() -> int {
    -262143
}

/// The latest year chrono represents.
pub open spec fn chrono_max_year() -> int {
    262142
}

/// `year` is a leap year of the proleptic Gregorian calendar.
pub open spec fn is_leap_year(year: int) -> bool {
    year % 4 == 0 && (year % 100 != 0 || year % 400 == 0)
}

/// The number of days of `month` (1 to 12) in `year`.
pub open spec fn days_in_month(year: int, month: int) -> int {
    if month == 2 {
        if is_leap_year(year) {
            29
        } else {
            28
        }
    } else if month == 4 || month == 6 || month == 9 || month == 11 {
        30
    } else {
        31
    }
}

/// The date exists in the proleptic Gregorian calendar within chrono's range.
pub open spec fn valid_date(year: int, month: int, day: int) -> bool {
    &&& chrono_min_year() <= year <= chrono_max_year()
    &&& 1 <= month <= 12
    &&& 1 <= day <= days_in_month(year, month)
}

/// The time of day exists (no leap second).
pub open spec fn valid_time(hour: int, minute: int, second: int) -> bool {
    hour < 24 && minute < 60 && second < 60
}

/// `chrono::NaiveDate::from_ymd_opt` followed by `format("%Y-%m-%d")`:
/// `None` for a date that does not exist or lies outside chrono's years;
/// otherwise the year as `%Y` writes it and the month and day as two digits.
#[verifier::external_body]
fn chrono_date_text(year: i32, month: u32, day: u32) -> (r: Option<String>)
    ensures
        r is Some <==> valid_date(year as int, month as int, day as int),
        r matches Some(t) ==> t@ == date_text(year as int, month as int, day as int),
{
    match chrono::NaiveDate::from_ymd_opt(year, month, day) {
        Some(date) => Some(date.format("%Y-%m-%d").to_string()),
        None => None,
    }
}

/// `chrono::NaiveTime::from_hms_opt` followed by `format("%H:%M:%S")`:
/// `None` unless the hour is below 24 and the minute and second below 60;
/// otherwise each field as two digits.
#[verifier::external_body]
fn chrono_time_text(hour: u32, minute: u32, second: u32) -> (r: Option<String>)
    ensures
        r is Some <==> valid_time(hour as int, minute as int, second as int),
        r matches Some(t) ==> t@ == time_text(hour as int, minute as int, second as int),
{
    match chrono::NaiveTime::from_hms_opt(hour, minute, second) {
        Some(time) => Some(time.format("%H:%M:%S").to_string()),
        None => None,
    }
}

/// The time of day as `%H:%M:%S`, or `None` where it does not exist.
pub fn time_label(hour: u32, minute: u32, second: u32) -> (r: Option<String>)
    ensures
        r is Some <==> valid_time(hour as int, minute as int, second as int),
        r matches Some(t) ==> t@ == time_text(hour as int, minute as int, second as int),
{
    chrono_time_text(hour, minute, second)
}

/// The date and time as `%Y-%m-%d`, `separator`, `%H:%M:%S` (the memory-map
/// files use `_`, the system report a space), or `None` where the date or
/// the time does not exist.
pub fn timestamp_label(
    year: i32,
    month: u32,
    day: u32,
    hour: u32,
    minute: u32,
    second: u32,
    separator: &str,
) -> (r: Option<String>)
    ensures
        r is Some <==> (valid_date(year as int, month as int, day as int) && valid_time(
            hour as int,
            minute as int,
            second as int,
        )),
        r matches Some(t) ==> t@ == date_text(year as int, month as int, day as int) + separator@ + time_text(
            hour as int,
            minute as int,
            second as int,
        ),
{
    let date = match chrono_date_text(year, month, day) {
        Some(d) => d,
        None => {
            return None;
        },
    };
    let time = match chrono_time_text(hour, minute, second) {
        Some(t) => t,
        None => {
            return None;
        },
    };
    let mut r = date;
    r.append(separator);
    r.append(time.as_str());
    Some(r)
}

/// `c` is one of `'0'` to `'9'`.
pub open spec fn is_digit_char(c: char) -> bool {
    '0' <= c <= '9'
}

/// The number written by the decimal digit characters `s`.
pub open spec fn char_digits_value(s: Seq<char>) -> int
    decreases s.len(),
{
    if s.len() == 0 {
        0
    } else {
        char_digits_value(s.drop_last()) * 10 + (s.last() as int - 48)
    }
}

proof fn lemma_decimal_chars_value(n: nat)
    ensures
        decimal_chars(n).len() > 0,
        forall|i: int| 0 <= i < decimal_chars(n).len() ==> is_digit_char(#[trigger] decimal_chars(n)[i]),
        char_digits_value(decimal_chars(n)) == n,
    decreases n,
{
    let c = decimal_chars(n);
    if n >= 10 {
        lemma_decimal_chars_value(n / 10);
        assert(c.drop_last() =~= decimal_chars(n / 10));
        assert(c.last() == ((zero_code() + n % 10) as u8) as char);
        assert(n == (n / 10) * 10 + n % 10);
        assert(is_digit_char(c.last()));
        assert forall|i: int| 0 <= i < c.len() implies is_digit_char(#[trigger] c[i]) by {
            if i < c.len() - 1 {
                assert(c[i] == c.drop_last()[i]);
            }
        }
    } else {
        assert(c.drop_last() =~= Seq::<char>::empty());
        assert(is_digit_char(c.last()));
        assert(c.len() == 1);
        assert(c.last() == ((zero_code() + n) as u8) as char);
        assert(char_digits_value(Seq::<char>::empty()) == 0);
    }
}

proof fn lemma_zero_prefix_value(k: nat, s: Seq<char>)
    ensures
        char_digits_value(Seq::new(k, |i: int| '0') + s) == char_digits_value(s),
    decreases s.len(), k,
{
    let z = Seq::new(k, |i: int| '0');
    if s.len() > 0 {
        lemma_zero_prefix_value(k, s.drop_last());
        assert((z + s).drop_last() =~= z + s.drop_last());
    } else if k > 0 {
        lemma_zero_prefix_value((k - 1) as nat, s);
        assert((z + s).drop_last() =~= Seq::new((k - 1) as nat, |i: int| '0') + s);
        assert(z + s =~= z);
    } else {
        assert(z + s =~= Seq::<char>::empty());
    }
}

proof fn lemma_zero_padded_value(v: nat, width: nat)
    ensures
        zero_padded(v, width).len() > 0,
        forall|i: int| 0 <= i < zero_padded(v, width).len() ==> is_digit_char(#[trigger] zero_padded(v, width)[i]),
        char_digits_value(zero_padded(v, width)) == v,
{
    lemma_decimal_chars_value(v);
    let d = decimal_chars(v);
    if d.len() < width {
        let z = Seq::new((width - d.len()) as nat, |i: int| '0');
        lemma_zero_prefix_value((width - d.len()) as nat, d);
        assert forall|i: int| 0 <= i < (z + d).len() implies is_digit_char(#[trigger] (z + d)[i]) by {
            if i >= z.len() {
                assert((z + d)[i] == d[i - z.len()]);
            }
        }
    }
}

proof fn lemma_year_text_injective(y1: int, y2: int)
    requires
        year_text(y1) == year_text(y2),
    ensures
        y1 == y2,
{
    let t = year_text(y1);
    if 0 <= y1 <= 9999 {
        lemma_zero_padded_value(y1 as nat, 4);
        assert(is_digit_char(t[0]));
    }
    if 0 <= y2 <= 9999 {
        lemma_zero_padded_value(y2 as nat, 4);
        assert(is_digit_char(t[0]));
    }
    if !(0 <= y1 <= 9999) && !(0 <= y2 <= 9999) {
        assert(t[0] == (if y1 < 0 { '-' } else { '+' }));
        assert(t[0] == (if y2 < 0 { '-' } else { '+' }));
        let m1: nat = if y1 < 0 { (-y1) as nat } else { y1 as nat };
        let m2: nat = if y2 < 0 { (-y2) as nat } else { y2 as nat };
        lemma_zero_padded_value(m1, 4);
        lemma_zero_padded_value(m2, 4);
        assert(t.drop_first() =~= zero_padded(m1, 4));
        assert(t.drop_first() =~= zero_padded(m2, 4));
    }
    if 0 <= y1 <= 9999 && 0 <= y2 <= 9999 {
        lemma_zero_padded_value(y1 as nat, 4);
        lemma_zero_padded_value(y2 as nat, 4);
    }
}

proof fn lemma_two_digits_injective(v1: int, v2: int)
    requires
        0 <= v1 < 100,
        0 <= v2 < 100,
        two_digits(v1) == two_digits(v2),
    ensures
        v1 == v2,
{
    assert(two_digits(v1)[0] == two_digits(v2)[0]);
    assert(two_digits(v1)[1] == two_digits(v2)[1]);
    assert(digit_char(v1 / 10) as int == 48 + v1 / 10);
    assert(digit_char(v2 / 10) as int == 48 + v2 / 10);
    assert(digit_char(v1 % 10) as int == 48 + v1 % 10);
    assert(digit_char(v2 % 10) as int == 48 + v2 % 10);
}

/// The text `%Y-%m-%d`, `separator`, `%H:%M:%S` of a date and time.
pub open spec fn stamp_text(
    year: int,
    month: int,
    day: int,
    hour: int,
    minute: int,
    second: int,
    separator: Seq<char>,
) -> Seq<char> {
    date_text(year, month, day) + separator + time_text(hour, minute, second)
}

/// Distinct dates and times, to the second, get distinct labels.
pub proof fn lemma_distinct_times_distinct_labels(
    y1: i32,
    mo1: u32,
    d1: u32,
    h1: u32,
    mi1: u32,
    s1: u32,
    y2: i32,
    mo2: u32,
    d2: u32,
    h2: u32,
    mi2: u32,
    s2: u32,
    separator: Seq<char>,
)
    requires
        valid_date(y1 as int, mo1 as int, d1 as int),
        valid_time(h1 as int, mi1 as int, s1 as int),
        valid_date(y2 as int, mo2 as int, d2 as int),
        valid_time(h2 as int, mi2 as int, s2 as int),
        (y1, mo1, d1, h1, mi1, s1) != (y2, mo2, d2, h2, mi2, s2),
    ensures
        stamp_text(y1 as int, mo1 as int, d1 as int, h1 as int, mi1 as int, s1 as int, separator) != stamp_text(
            y2 as int,
            mo2 as int,
            d2 as int,
            h2 as int,
            mi2 as int,
            s2 as int,
            separator,
        ),
{
    let t1 = stamp_text(y1 as int, mo1 as int, d1 as int, h1 as int, mi1 as int, s1 as int, separator);
    let t2 = stamp_text(y2 as int, mo2 as int, d2 as int, h2 as int, mi2 as int, s2 as int, separator);
    if t1 == t2 {
        let a = year_text(y1 as int);
        let b = year_text(y2 as int);
        let la = a.len() as int;
        let sl = separator.len() as int;
        assert(t1.len() == la + 14 + sl);
        assert(t2.len() == b.len() + 14 + sl);
        assert(la == b.len());
        assert(t1.subrange(0, la) =~= a);
        assert(t2.subrange(0, la) =~= b);
        lemma_year_text_injective(y1 as int, y2 as int);
        assert(t1.subrange(la + 1, la + 3) =~= two_digits(mo1 as int));
        assert(t2.subrange(la + 1, la + 3) =~= two_digits(mo2 as int));
        lemma_two_digits_injective(mo1 as int, mo2 as int);
        assert(t1.subrange(la + 4, la + 6) =~= two_digits(d1 as int));
        assert(t2.subrange(la + 4, la + 6) =~= two_digits(d2 as int));
        lemma_two_digits_injective(d1 as int, d2 as int);
        let o = la + 6 + sl;
        assert(t1.subrange(o, o + 2) =~= two_digits(h1 as int));
        assert(t2.subrange(o, o + 2) =~= two_digits(h2 as int));
        lemma_two_digits_injective(h1 as int, h2 as int);
        assert(t1.subrange(o + 3, o + 5) =~= two_digits(mi1 as int));
        assert(t2.subrange(o + 3, o + 5) =~= two_digits(mi2 as int));
        lemma_two_digits_injective(mi1 as int, mi2 as int);
        assert(t1.subrange(o + 6, o + 8) =~= two_digits(s1 as int));
        assert(t2.subrange(o + 6, o + 8) =~= two_digits(s2 as int));
        lemma_two_digits_injective(s1 as int, s2 as int);
    }
}

} // verus!
