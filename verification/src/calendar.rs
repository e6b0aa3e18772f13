//! Timestamps as text, in the Gregorian calendar.

use crate::text::{
    comes_before, lemma_comes_before_ascii, lemma_comes_before_within, lemma_last_digits_ascii,
    lemma_last_digits_injective, lemma_last_digits_ordered, lemma_padded_is_last_digits,
    lemma_text_le_total, padded, padded_text, pow10, text_le,
};
use vstd::prelude::*;
use vstd::utf8::is_ascii_chars;

verus! {

/// Whether a year has a 29th of February.
pub open spec fn is_leap_year(y: int) -> bool {
    y % 4 == 0 && (y % 100 != 0 || y % 400 == 0)
}

/// The number of days of a year.
pub open spec fn days_in_year(y: int) -> int {
    if is_leap_year(y) {
        366
    } else {
        365
    }
}

/// The number of days of a month.
pub open spec fn days_in_month(y: int, m: int) -> int {
    if m == 2 {
        if is_leap_year(y) {
            29
        } else {
            28
        }
    } else if m == 4 || m == 6 || m == 9 || m == 11 {
        30
    } else {
        31
    }
}

/// The number of days from the first of January 1970 to the first of January
/// of year `y`.
pub open spec fn days_before_year(y: int) -> int
    decreases y,
{
    if y <= 1970 {
        0
    } else {
        days_before_year(y - 1) + days_in_year(y - 1)
    }
}

/// The number of days of year `y` before month `m`.
pub open spec fn days_before_month(y: int, m: int) -> int
    decreases m,
{
    if m <= 1 {
        0
    } else {
        days_before_month(y, m - 1) + days_in_month(y, m - 1)
    }
}

/// Whether `y`-`m`-`d` is a day of the calendar, from 1970 on.
pub open spec fn is_date(y: int, m: int, d: int) -> bool {
    y >= 1970 && 1 <= m <= 12 && 1 <= d <= days_in_month(y, m)
}

/// The number of days from the first of January 1970 to a date.
pub open spec fn day_number(y: int, m: int, d: int) -> int {
    days_before_year(y) + days_before_month(y, m) + d - 1
}

/// A date and a time of day as RFC 3339 has them, in UTC.
pub open spec fn date_time_text(y: int, m: int, d: int, second_of_day: int) -> Seq<char> {
    padded(y as nat, 4) + "-"@ + padded(m as nat, 2) + "-"@ + padded(d as nat, 2) + "T"@ + padded(
        (second_of_day / 3600) as nat,
        2,
    ) + ":"@ + padded((second_of_day % 3600 / 60) as nat, 2) + ":"@ + padded(
        (second_of_day % 60) as nat,
        2,
    ) + "Z"@
}

/// Whether `t` is the RFC 3339 text of a time, given in nanoseconds since the
/// first of January 1970: the date is the one whose day number is the number of
/// whole days in the time.
pub open spec fn is_rfc3339(nanos: nat, t: Seq<char>) -> bool {
    let seconds = nanos as int / 1_000_000_000;
    exists|y: int, m: int, d: int| #[trigger]
        is_date(y, m, d) && day_number(y, m, d) == seconds / 86_400 && t == date_time_text(
            y,
            m,
            d,
            seconds % 86_400,
        )
}

/// The RFC 3339 text of a time in nanoseconds since the first of January 1970.
pub open spec fn rfc3339(nanos: nat) -> Seq<char> {
    choose|t: Seq<char>| is_rfc3339(nanos, t)
}

/// A time has one RFC 3339 text only.
pub proof fn lemma_rfc3339_unique(nanos: nat, t: Seq<char>)
    requires
        is_rfc3339(nanos, t),
    ensures
        t == rfc3339(nanos),
{
    let seconds = nanos as int / 1_000_000_000;
    let days = seconds / 86_400;
    let u = rfc3339(nanos);
    assert(is_rfc3339(nanos, u));
    let (y, m, d) = choose|y: int, m: int, d: int| #[trigger]
        is_date(y, m, d) && day_number(y, m, d) == days && t == date_time_text(
            y,
            m,
            d,
            seconds % 86_400,
        );
    let (y2, m2, d2) = choose|y: int, m: int, d: int| #[trigger]
        is_date(y, m, d) && day_number(y, m, d) == days && u == date_time_text(
            y,
            m,
            d,
            seconds % 86_400,
        );
    lemma_day_number_injective(y, m, d, y2, m2, d2);
}

/// Leap years up to year `n`, counted from year one.
#[verifier::opaque]
spec fn leaps(n: int) -> int {
    n / 4 - n / 100 + n / 400
}

proof fn lemma_leap_step(y: int)
    ensures
        leaps(y) - leaps(y - 1) == days_in_year(y) - 365,
{
    reveal(leaps);
    let step4 = if y % 4 == 0 { 1int } else { 0 };
    let step100 = if y % 100 == 0 { 1int } else { 0 };
    let step400 = if y % 400 == 0 { 1int } else { 0 };
    assert(y / 4 - (y - 1) / 4 == step4) by (nonlinear_arith)
        requires
            step4 == if y % 4 == 0 { 1int } else { 0 },
    ;
    assert(y / 100 - (y - 1) / 100 == step100) by (nonlinear_arith)
        requires
            step100 == if y % 100 == 0 { 1int } else { 0 },
    ;
    assert(y / 400 - (y - 1) / 400 == step400) by (nonlinear_arith)
        requires
            step400 == if y % 400 == 0 { 1int } else { 0 },
    ;
    assert(y % 400 == 0 ==> y % 100 == 0) by (nonlinear_arith);
    assert(y % 100 == 0 ==> y % 4 == 0) by (nonlinear_arith);
}

proof fn lemma_leaps_of_cycle(era: int, yoe: int)
    requires
        era >= 0,
        0 <= yoe < 400,
    ensures
        leaps(yoe + era * 400) == 97 * era + yoe / 4 - yoe / 100,
        is_leap_year(yoe + era * 400 + 1) == is_leap_year(yoe + 1),
        4 * leaps(yoe + era * 400) <= yoe + era * 400,
{
    reveal(leaps);
    let y = yoe + era * 400;
    assert(y / 4 == yoe / 4 + 100 * era);
    assert(y / 100 == yoe / 100 + 4 * era);
    assert(y / 400 == era);
    assert((y + 1) % 4 == (yoe + 1) % 4);
    assert((y + 1) % 100 == (yoe + 1) % 100);
    assert((y + 1) % 400 == (yoe + 1) % 400);
}

proof fn lemma_days_before_year(y: int)
    requires
        y >= 1970,
    ensures
        days_before_year(y) == 365 * (y - 1970) + leaps(y - 1) - leaps(1969),
    decreases y,
{
    if y > 1970 {
        lemma_days_before_year(y - 1);
        lemma_leap_step(y - 1);
    }
}

proof fn lemma_days_before_month(y: int, m: int)
    requires
        1 <= m <= 12,
    ensures
        m == 1 ==> days_before_month(y, m) == 0,
        m == 2 ==> days_before_month(y, m) == 31,
        m >= 3 ==> days_before_month(y, m) == 59 + (days_in_year(y) - 365) + (153 * (m - 3) + 2) / 5,
    decreases m,
{
    reveal_with_fuel(days_before_month, 13);
}

/// A day number belongs to one date only.
pub proof fn lemma_day_number_injective(y: int, m: int, d: int, y2: int, m2: int, d2: int)
    requires
        is_date(y, m, d),
        is_date(y2, m2, d2),
        day_number(y, m, d) == day_number(y2, m2, d2),
    ensures
        y == y2 && m == m2 && d == d2,
{
    lemma_day_number_in_year(y, m, d);
    lemma_day_number_in_year(y2, m2, d2);
    if y < y2 {
        lemma_years_grow(y + 1, y2);
    } else if y2 < y {
        lemma_years_grow(y2 + 1, y);
    }
    assert(y == y2);
    if m < m2 {
        lemma_months_grow(y, m + 1, m2);
    } else if m2 < m {
        lemma_months_grow(y, m2 + 1, m);
    }
}

proof fn lemma_years_grow(y: int, y2: int)
    requires
        1970 <= y <= y2,
    ensures
        days_before_year(y) <= days_before_year(y2),
    decreases y2,
{
    if y < y2 {
        lemma_years_grow(y, y2 - 1);
    }
}

proof fn lemma_months_grow(y: int, m: int, m2: int)
    requires
        1 <= m <= m2,
    ensures
        days_before_month(y, m) <= days_before_month(y, m2),
    decreases m2,
{
    if m < m2 {
        lemma_months_grow(y, m, m2 - 1);
    }
}

proof fn lemma_day_number_in_year(y: int, m: int, d: int)
    requires
        is_date(y, m, d),
    ensures
        days_before_year(y) <= day_number(y, m, d) < days_before_year(y + 1),
{
    lemma_days_before_month(y, m);
}

/// The year of a 400-year cycle that begins on the first of March, from the day
/// of the cycle.
proof fn lemma_year_of_cycle(doe: int, yoe: int)
    requires
        0 <= doe < 146_097,
        yoe == (doe - doe / 1_460 + doe / 36_524 - doe / 146_096) / 365,
    ensures
        0 <= yoe < 400,
        0 <= doe - (365 * yoe + yoe / 4 - yoe / 100) <= 365,
        doe - (365 * yoe + yoe / 4 - yoe / 100) == 365 ==> is_leap_year(yoe + 1),
{
    let century = doe / 36_524;
    assert(0 <= century <= 4);
    if century == 0 {
    } else if century == 1 {
    } else if century == 2 {
    } else if century == 3 {
    } else {
        assert(doe == 146_096);
    }
}

/// The month and the day of a year that begins on the first of March, from the
/// day of that year.
proof fn lemma_month_of_year(doy: int, mp: int, d: int)
    requires
        0 <= doy <= 365,
        mp == (5 * doy + 2) / 153,
        d == doy - (153 * mp + 2) / 5 + 1,
    ensures
        0 <= mp <= 11,
        0 <= (153 * mp + 2) / 5 <= doy,
        1 <= d <= 31,
        mp == 1 || mp == 3 || mp == 6 || mp == 8 ==> d <= 30,
        mp == 11 ==> d <= 29 && (d == 29 ==> doy == 365),
        mp == 10 ==> d == doy - 305,
        mp == 11 ==> d == doy - 336,
{
}

/// The date of a day, counted from the first of March of year zero.
proof fn lemma_date(z: int, era: int, yoe: int, doy: int, mp: int, d: int, m: int, year: int)
    requires
        z >= 719_468,
        era >= 0,
        0 <= yoe < 400,
        0 <= doy <= 365,
        z == era * 146_097 + 365 * yoe + yoe / 4 - yoe / 100 + doy,
        doy == 365 ==> is_leap_year(yoe + 1),
        mp == (5 * doy + 2) / 153,
        d == doy - (153 * mp + 2) / 5 + 1,
        m == if mp < 10 {
            mp + 3
        } else {
            mp - 9
        },
        year == yoe + era * 400 + if m <= 2 {
            1int
        } else {
            0int
        },
    ensures
        is_date(year, m, d),
        day_number(year, m, d) == z - 719_468,
{
    let y = yoe + era * 400;
    lemma_month_of_year(doy, mp, d);
    lemma_leaps_of_cycle(era, yoe);
    lemma_leap_step(y);
    assert(leaps(1969) == 477) by {
        reveal(leaps);
    }
    assert(z == 365 * y + leaps(y) + doy);
    lemma_days_before_month(year, m);
    lemma_days_before_year(year);
}

/// The text `YYYY-MM-DDTHH:MM:SSZ` of a time in nanoseconds since the first of
/// January 1970, cut to whole seconds.
pub fn format_unix_nanos_rfc3339(nanos: u64) -> (r: String)
    ensures
        is_rfc3339(nanos as nat, r@),
        r@ == rfc3339(nanos as nat),
{
    let total_seconds: u64 = nanos / 1_000_000_000;
    let days: u64 = total_seconds / 86_400;
    let seconds_in_day: u64 = total_seconds % 86_400;
    let hour: u64 = seconds_in_day / 3600;
    let minute: u64 = (seconds_in_day % 3600) / 60;
    let second: u64 = seconds_in_day % 60;

    let z: u64 = days + 719_468;
    let era: u64 = z / 146_097;
    let doe: u64 = z - era * 146_097;
    let yoe: u64 = (doe - doe / 1_460 + doe / 36_524 - doe / 146_096) / 365;
    proof {
        lemma_year_of_cycle(doe as int, yoe as int);
    }
    let y: u64 = yoe + era * 400;
    let doy: u64 = doe - (365 * yoe + yoe / 4 - yoe / 100);
    let mp: u64 = (5 * doy + 2) / 153;
    proof {
        lemma_month_of_year(doy as int, mp as int, doy - (153 * mp + 2) / 5 + 1);
    }
    let d: u64 = doy - (153 * mp + 2) / 5 + 1;
    let m: u64 = if mp < 10 {
        mp + 3
    } else {
        mp - 9
    };
    let year: u64 = if m <= 2 {
        y + 1
    } else {
        y
    };
    proof {
        lemma_date(
            z as int,
            era as int,
            yoe as int,
            doy as int,
            mp as int,
            d as int,
            m as int,
            year as int,
        );
        assert(is_date(year as int, m as int, d as int));
    }
    let mut out = padded_text(year, 4);
    out.append("-");
    out.append(padded_text(m, 2).as_str());
    out.append("-");
    out.append(padded_text(d, 2).as_str());
    out.append("T");
    out.append(padded_text(hour, 2).as_str());
    out.append(":");
    out.append(padded_text(minute, 2).as_str());
    out.append(":");
    out.append(padded_text(second, 2).as_str());
    out.append("Z");
    proof {
        assert(is_rfc3339(nanos as nat, out@));
        lemma_rfc3339_unique(nanos as nat, out@);
    }
    out
}

/// Every time has an RFC 3339 text.
pub proof fn lemma_rfc3339_exists(nanos: nat)
    ensures
        is_rfc3339(nanos, rfc3339(nanos)),
{
    let seconds = nanos as int / 1_000_000_000;
    let z = seconds / 86_400 + 719_468;
    let era = z / 146_097;
    let doe = z % 146_097;
    let yoe = (doe - doe / 1_460 + doe / 36_524 - doe / 146_096) / 365;
    lemma_year_of_cycle(doe, yoe);
    let doy = doe - (365 * yoe + yoe / 4 - yoe / 100);
    let mp = (5 * doy + 2) / 153;
    let d = doy - (153 * mp + 2) / 5 + 1;
    let m = if mp < 10 {
        mp + 3
    } else {
        mp - 9
    };
    let year = yoe + era * 400 + if m <= 2 {
        1int
    } else {
        0int
    };
    lemma_date(z, era, yoe, doy, mp, d, m, year);
    assert(is_date(year, m, d));
    assert(is_rfc3339(nanos, date_time_text(year, m, d, seconds % 86_400)));
}

/// The text of a time that fits in 64 bits has twenty characters, all of them
/// ASCII.
pub proof fn lemma_rfc3339_len(nanos: u64)
    ensures
        rfc3339(nanos as nat).len() == 20,
        is_ascii_chars(rfc3339(nanos as nat)),
{
    lemma_rfc3339_exists(nanos as nat);
    let t = rfc3339(nanos as nat);
    let seconds = nanos as int / 1_000_000_000;
    let s = seconds % 86_400;
    let (y, m, d) = choose|y: int, m: int, d: int| #[trigger]
        is_date(y, m, d) && day_number(y, m, d) == seconds / 86_400 && t == date_time_text(
            y,
            m,
            d,
            s,
        );
    lemma_day_number_in_year(y, m, d);
    lemma_many_days(y);
    assert(y < 10_000);
    assert(pow10(4) == 10_000 && pow10(2) == 100) by {
        reveal_with_fuel(pow10, 5);
    }
    lemma_field(y as nat, 4);
    lemma_field(m as nat, 2);
    lemma_field(d as nat, 2);
    lemma_field((s / 3600) as nat, 2);
    lemma_field((s % 3600 / 60) as nat, 2);
    lemma_field((s % 60) as nat, 2);
    reveal_strlit("-");
    reveal_strlit(":");
    reveal_strlit("T");
    reveal_strlit("Z");
}

proof fn lemma_many_days(y: int)
    requires
        y >= 1970,
    ensures
        days_before_year(y) >= 365 * (y - 1970),
    decreases y,
{
    if y > 1970 {
        lemma_many_days(y - 1);
    }
}

proof fn lemma_field(n: nat, width: nat)
    requires
        n < pow10(width),
        width >= 1,
    ensures
        padded(n, width).len() == width,
        is_ascii_chars(padded(n, width)),
{
    lemma_padded_is_last_digits(n, width);
    lemma_last_digits_ascii(n, width);
}

/// Dates come in the order of their day numbers.
proof fn lemma_dates_ordered(y: int, m: int, d: int, y2: int, m2: int, d2: int)
    requires
        is_date(y, m, d),
        is_date(y2, m2, d2),
        day_number(y, m, d) <= day_number(y2, m2, d2),
    ensures
        y < y2 || (y == y2 && (m < m2 || (m == m2 && d <= d2))),
{
    lemma_day_number_in_year(y, m, d);
    lemma_day_number_in_year(y2, m2, d2);
    if y > y2 {
        lemma_years_grow(y2 + 1, y);
    }
    if y == y2 && m > m2 {
        lemma_months_grow(y, m2 + 1, m);
    }
}

/// Whether `a` is `b` or comes before it.
spec fn no_later(a: Seq<char>, b: Seq<char>) -> bool {
    a == b || comes_before(a, b)
}

/// One more field, with a mark behind it, keeps the order of texts.
proof fn lemma_field_ordered(
    a: Seq<char>,
    b: Seq<char>,
    m: nat,
    n: nat,
    width: nat,
    mark: Seq<char>,
)
    requires
        no_later(a, b),
        a == b ==> m <= n,
        m < pow10(width),
        n < pow10(width),
        width >= 1,
    ensures
        no_later(a + padded(m, width) + mark, b + padded(n, width) + mark),
        a + padded(m, width) + mark == b + padded(n, width) + mark ==> a.len() != b.len() || (a == b
            && m == n),
        a.len() == b.len() ==> (a + padded(m, width) + mark).len() == (b + padded(n, width)
            + mark).len(),
{
    lemma_padded_is_last_digits(m, width);
    lemma_padded_is_last_digits(n, width);
    let x = padded(m, width);
    let y = padded(n, width);
    let p = a + x + mark;
    let q = b + y + mark;
    if a == b {
        if m < n {
            lemma_last_digits_ordered(m, n, width);
            lemma_comes_before_within(a, x, y, mark, mark);
            lemma_comes_before_within(a, a + x, b + y, mark, mark);
        }
    } else {
        lemma_comes_before_within(a, a, b, x, y);
        lemma_comes_before_within(a, a + x, b + y, mark, mark);
    }
    if p == q && a.len() == b.len() {
        assert(p.take(a.len() as int) =~= a);
        assert(q.take(a.len() as int) =~= b);
        assert(p.subrange(a.len() as int, (a.len() + width) as int) =~= x);
        assert(q.subrange(a.len() as int, (a.len() + width) as int) =~= y);
        lemma_last_digits_injective(m, n, width);
    }
}

/// Texts of times order as the times do, and are equal exactly for times within
/// the same second: a time is never rounded up.
pub proof fn lemma_rfc3339_ordered(a: u64, b: u64)
    requires
        a <= b,
    ensures
        text_le(rfc3339(a as nat), rfc3339(b as nat)),
        rfc3339(a as nat) == rfc3339(b as nat) <==> a / 1_000_000_000 == b / 1_000_000_000,
{
    let sa = a as int / 1_000_000_000;
    let sb = b as int / 1_000_000_000;
    let ta = sa % 86_400;
    let tb = sb % 86_400;
    let ra = rfc3339(a as nat);
    let rb = rfc3339(b as nat);
    lemma_rfc3339_exists(a as nat);
    lemma_rfc3339_exists(b as nat);
    lemma_rfc3339_len(a);
    lemma_rfc3339_len(b);
    let (y1, m1, d1) = choose|y: int, m: int, d: int| #[trigger]
        is_date(y, m, d) && day_number(y, m, d) == sa / 86_400 && ra == date_time_text(y, m, d, ta);
    let (y2, m2, d2) = choose|y: int, m: int, d: int| #[trigger]
        is_date(y, m, d) && day_number(y, m, d) == sb / 86_400 && rb == date_time_text(y, m, d, tb);
    lemma_dates_ordered(y1, m1, d1, y2, m2, d2);
    lemma_day_number_in_year(y1, m1, d1);
    lemma_day_number_in_year(y2, m2, d2);
    lemma_many_days(y1);
    lemma_many_days(y2);
    assert(pow10(4) == 10_000 && pow10(2) == 100) by {
        reveal_with_fuel(pow10, 5);
    }
    if sa / 86_400 == sb / 86_400 {
        lemma_day_number_injective(y1, m1, d1, y2, m2, d2);
        assert(ta <= tb);
    }
    lemma_date_time_ordered(y1, m1, d1, ta, y2, m2, d2, tb);
    if ra != rb {
        lemma_comes_before_ascii(ra, rb);
    } else {
        lemma_text_le_total(ra, rb);
    }
}

/// Texts of dates and times of day order as those do.
proof fn lemma_date_time_ordered(
    y1: int,
    m1: int,
    d1: int,
    t1: int,
    y2: int,
    m2: int,
    d2: int,
    t2: int,
)
    requires
        0 <= y1 < 10_000,
        0 <= y2 < 10_000,
        0 <= m1 < 100,
        0 <= m2 < 100,
        0 <= d1 < 100,
        0 <= d2 < 100,
        0 <= t1 < 86_400,
        0 <= t2 < 86_400,
        y1 < y2 || (y1 == y2 && (m1 < m2 || (m1 == m2 && (d1 < d2 || (d1 == d2 && t1 <= t2))))),
    ensures
        no_later(date_time_text(y1, m1, d1, t1), date_time_text(y2, m2, d2, t2)),
        date_time_text(y1, m1, d1, t1) == date_time_text(y2, m2, d2, t2) <==> y1 == y2 && m1 == m2
            && d1 == d2 && t1 == t2,
{
    assert(pow10(4) == 10_000 && pow10(2) == 100) by {
        reveal_with_fuel(pow10, 5);
    }
    let none = Seq::<char>::empty();
    let a1 = none + padded(y1 as nat, 4) + "-"@;
    let b1 = none + padded(y2 as nat, 4) + "-"@;
    lemma_field_ordered(none, none, y1 as nat, y2 as nat, 4, "-"@);
    assert(none + padded(y1 as nat, 4) =~= padded(y1 as nat, 4));
    assert(none + padded(y2 as nat, 4) =~= padded(y2 as nat, 4));
    let a2 = a1 + padded(m1 as nat, 2) + "-"@;
    let b2 = b1 + padded(m2 as nat, 2) + "-"@;
    lemma_field_ordered(a1, b1, m1 as nat, m2 as nat, 2, "-"@);
    let a3 = a2 + padded(d1 as nat, 2) + "T"@;
    let b3 = b2 + padded(d2 as nat, 2) + "T"@;
    lemma_field_ordered(a2, b2, d1 as nat, d2 as nat, 2, "T"@);
    assert(a3 == b3 ==> y1 == y2 && m1 == m2 && d1 == d2);
    lemma_time_ordered(a3, b3, t1, t2);
}

/// The time of day behind a date.
spec fn with_time(date: Seq<char>, t: int) -> Seq<char> {
    date + padded((t / 3600) as nat, 2) + ":"@ + padded((t % 3600 / 60) as nat, 2) + ":"@ + padded(
        (t % 60) as nat,
        2,
    ) + "Z"@
}

/// The hours, minutes and seconds of times of day order as those do.
proof fn lemma_clock_ordered(t1: int, t2: int)
    requires
        0 <= t1 <= t2 < 86_400,
    ensures
        t1 / 3600 < t2 / 3600 || (t1 / 3600 == t2 / 3600 && (t1 % 3600 / 60 < t2 % 3600 / 60 || (t1
            % 3600 / 60 == t2 % 3600 / 60 && t1 % 60 <= t2 % 60))),
{
}

/// Hours, minutes and seconds belong to one time of day only.
proof fn lemma_clock_injective(t1: int, t2: int)
    requires
        0 <= t1 < 86_400,
        0 <= t2 < 86_400,
        t1 / 3600 == t2 / 3600,
        t1 % 3600 / 60 == t2 % 3600 / 60,
        t1 % 60 == t2 % 60,
    ensures
        t1 == t2,
{
}

proof fn lemma_time_ordered(a: Seq<char>, b: Seq<char>, t1: int, t2: int)
    requires
        no_later(a, b),
        a.len() == b.len(),
        a == b ==> t1 <= t2,
        0 <= t1 < 86_400,
        0 <= t2 < 86_400,
    ensures
        no_later(with_time(a, t1), with_time(b, t2)),
        with_time(a, t1) == with_time(b, t2) <==> a == b && t1 == t2,
{
    assert(pow10(2) == 100) by {
        reveal_with_fuel(pow10, 3);
    }
    if t1 <= t2 {
        lemma_clock_ordered(t1, t2);
    }
    let h1 = t1 / 3600;
    let h2 = t2 / 3600;
    let i1 = t1 % 3600 / 60;
    let i2 = t2 % 3600 / 60;
    let s1 = t1 % 60;
    let s2 = t2 % 60;
    let a4 = a + padded(h1 as nat, 2) + ":"@;
    let b4 = b + padded(h2 as nat, 2) + ":"@;
    lemma_field_ordered(a, b, h1 as nat, h2 as nat, 2, ":"@);
    let a5 = a4 + padded(i1 as nat, 2) + ":"@;
    let b5 = b4 + padded(i2 as nat, 2) + ":"@;
    lemma_field_ordered(a4, b4, i1 as nat, i2 as nat, 2, ":"@);
    lemma_field_ordered(a5, b5, s1 as nat, s2 as nat, 2, "Z"@);
    if with_time(a, t1) == with_time(b, t2) {
        lemma_clock_injective(t1, t2);
    }
}

} // verus!
