//! Dates of the HTTP protocol.
use crate::parse::{int_text, parse_i64, split, split_at_each, split_whitespace, words};
use crate::text::{same, texts};
use vstd::prelude::*;

verus! {

/// The month that a short English name stands for.
pub open spec fn month_number(name: Seq<char>) -> Option<int> {
    if name == "Jan"@ {
        Some(1)
    } else if name == "Feb"@ {
        Some(2)
    } else if name == "Mar"@ {
        Some(3)
    } else if name == "Apr"@ {
        Some(4)
    } else if name == "May"@ {
        Some(5)
    } else if name == "Jun"@ {
        Some(6)
    } else if name == "Jul"@ {
        Some(7)
    } else if name == "Aug"@ {
        Some(8)
    } else if name == "Sep"@ {
        Some(9)
    } else if name == "Oct"@ {
        Some(10)
    } else if name == "Nov"@ {
        Some(11)
    } else if name == "Dec"@ {
        Some(12)
    } else {
        None
    }
}

pub open spec fn leap_year(year: int) -> bool {
    year % 4 == 0 && (year % 100 != 0 || year % 400 == 0)
}

/// The days of all years from year 1 up to, and without, the given one.
pub open spec fn days_before_year(year: int) -> int {
    let y = year - 1;
    365 * y + y / 4 - y / 100 + y / 400
}

/// The days of a year before a month.
pub open spec fn days_before_month(year: int, month: int) -> int {
    let plain = if month == 1 {
        0
    } else if month == 2 {
        31
    } else if month == 3 {
        59
    } else if month == 4 {
        90
    } else if month == 5 {
        120
    } else if month == 6 {
        151
    } else if month == 7 {
        181
    } else if month == 8 {
        212
    } else if month == 9 {
        243
    } else if month == 10 {
        273
    } else if month == 11 {
        304
    } else {
        334int
    };
    if month > 2 && leap_year(year) {
        plain + 1
    } else {
        plain
    }
}

/// The days from the first day of 1970 to a day of the calendar.
pub open spec fn epoch_days(year: int, month: int, day: int) -> int {
    days_before_year(year) - days_before_year(1970) + days_before_month(year, month) + day - 1
}

/// The milliseconds from the start of 1970 to a point in time.
pub open spec fn epoch_millis(
    year: int,
    month: int,
    day: int,
    hour: int,
    minute: int,
    second: int,
) -> int {
    (epoch_days(year, month, day) * 86_400 + hour * 3600 + minute * 60 + second) * 1000
}

/// The point in time that a date like `Sat, 13 Sep 2026 11:17:59 GMT` names, in milliseconds
/// since the start of 1970. The day of the week and the zone are not read. A point in time that
/// is out of range is none.
pub open spec fn http_date(raw: Seq<char>) -> Option<i64> {
    let parts = words(raw);
    if parts.len() < 5 {
        None
    } else {
        let clock = split_at_each(parts[4], ':');
        match (int_text(parts[1]), month_number(parts[2]), int_text(parts[3])) {
            (Some(day), Some(month), Some(year)) => if clock.len() == 3 {
                match (int_text(clock[0]), int_text(clock[1]), int_text(clock[2])) {
                    (Some(h), Some(m), Some(s)) => {
                        let at = epoch_millis(
                            year as int,
                            month,
                            day as int,
                            h as int,
                            m as int,
                            s as int,
                        );
                        if i64::MIN <= at <= i64::MAX {
                            Some(at as i64)
                        } else {
                            None
                        }
                    },
                    _ => None,
                }
            } else {
                None
            },
            _ => None,
        }
    }
}

fn month_of(name: &str) -> (r: Option<i128>)
    ensures
        match r {
            Some(m) => month_number(name@) == Some(m as int) && 1 <= m <= 12,
            None => month_number(name@) is None,
        },
{
    if same(name, "Jan") {
        Some(1)
    } else if same(name, "Feb") {
        Some(2)
    } else if same(name, "Mar") {
        Some(3)
    } else if same(name, "Apr") {
        Some(4)
    } else if same(name, "May") {
        Some(5)
    } else if same(name, "Jun") {
        Some(6)
    } else if same(name, "Jul") {
        Some(7)
    } else if same(name, "Aug") {
        Some(8)
    } else if same(name, "Sep") {
        Some(9)
    } else if same(name, "Oct") {
        Some(10)
    } else if same(name, "Nov") {
        Some(11)
    } else if same(name, "Dec") {
        Some(12)
    } else {
        None
    }
}

/// The year of a calendar that starts in March lies in a cycle of 400 years.
fn cycle_of(y: i128) -> (r: (i128, i128))
    requires
        -0x1_0000_0000_0000_0000 <= y <= 0x1_0000_0000_0000_0000,
    ensures
        r.0 == y as int / 400,
        r.1 == y as int % 400,
        -0x1_0000_0000_0000_0000 <= r.0 <= 0x1_0000_0000_0000_0000,
        0 <= r.1 < 400,
{
    if y >= 0 {
        let n = y as u128;
        let era = (n / 400) as i128;
        let within = (n % 400) as i128;
        (era, within)
    } else {
        let n = (399 - y) as u128;
        let era = -((n / 400) as i128);
        let within = y - era * 400;
        proof {
            let q = n as int / 400;
            assert(n as int == 400 * q + n as int % 400);
            assert(0 <= within < 400);
            assert(y as int == 400 * era + within);
            vstd::arithmetic::div_mod::lemma_fundamental_div_mod_converse(
                y as int,
                400,
                era as int,
                within as int,
            );
        }
        (era, within)
    }
}

/// Counting by cycles of 400 years in a calendar that starts in March gives the days of the
/// calendar.
proof fn lemma_cycles(year: int, month: int, day: int)
    requires
        1 <= month <= 12,
    ensures
        ({
            let y = if month <= 2 {
                year - 1
            } else {
                year
            };
            let era = y / 400;
            let yoe = y % 400;
            let mp = (month + 9) % 12;
            let doy = (153 * mp + 2) / 5 + day - 1;
            let doe = yoe * 365 + yoe / 4 - yoe / 100 + doy;
            era * 146_097 + doe - 719_468 == epoch_days(year, month, day)
        }),
{
    let y = if month <= 2 {
        year - 1
    } else {
        year
    };
    let era = y / 400;
    let yoe = y % 400;
    assert(y == 400 * era + yoe);
    assert(y / 4 == 100 * era + yoe / 4);
    assert(y / 100 == 4 * era + yoe / 100);
    if month > 2 {
        assert(leap_year(year) ==> (year - 1) / 4 == year / 4 - 1);
        assert(year % 4 != 0 ==> (year - 1) / 4 == year / 4);
        assert(year % 4 == 0 ==> (year - 1) / 4 == year / 4 - 1);
        assert(year % 100 == 0 ==> (year - 1) / 100 == year / 100 - 1);
        assert(year % 100 != 0 ==> (year - 1) / 100 == year / 100);
        assert(year % 400 == 0 ==> (year - 1) / 400 == year / 400 - 1);
        assert(year % 400 != 0 ==> (year - 1) / 400 == year / 400);
        assert(year % 400 == 0 ==> year % 100 == 0);
        assert(year % 100 == 0 ==> year % 4 == 0);
    }
    if month == 1 {
        assert((month + 9) % 12 == 10);
    } else if month == 2 {
        assert((month + 9) % 12 == 11);
    } else if month == 3 {
        assert((month + 9) % 12 == 0);
    } else if month == 4 {
        assert((month + 9) % 12 == 1);
    } else if month == 5 {
        assert((month + 9) % 12 == 2);
    } else if month == 6 {
        assert((month + 9) % 12 == 3);
    } else if month == 7 {
        assert((month + 9) % 12 == 4);
    } else if month == 8 {
        assert((month + 9) % 12 == 5);
    } else if month == 9 {
        assert((month + 9) % 12 == 6);
    } else if month == 10 {
        assert((month + 9) % 12 == 7);
    } else if month == 11 {
        assert((month + 9) % 12 == 8);
    } else {
        assert((month + 9) % 12 == 9);
    }
}

fn millis(year: i64, month: i128, day: i64, h: i64, m: i64, s: i64) -> (r: Option<i64>)
    requires
        1 <= month <= 12,
    ensures
        ({
            let at = epoch_millis(
                year as int,
                month as int,
                day as int,
                h as int,
                m as int,
                s as int,
            );
            match r {
                Some(v) => v == at,
                None => !(i64::MIN <= at <= i64::MAX),
            }
        }),
{
    let year = year as i128;
    let y: i128 = if month <= 2 {
        year - 1
    } else {
        year
    };
    let (era, yoe) = cycle_of(y);
    let mp: u64 = ((month + 9) as u64) % 12;
    let doy: i128 = ((153 * mp + 2) / 5) as i128 + day as i128 - 1;
    let part: u64 = yoe as u64;
    let doe: i128 = yoe * 365 + (part / 4) as i128 - (part / 100) as i128 + doy;
    let days: i128 = era * 146_097 + doe - 719_468;
    proof {
        lemma_cycles(year as int, month as int, day as int);
    }
    let at: i128 = (days * 86_400 + h as i128 * 3600 + m as i128 * 60 + s as i128) * 1000;
    if at < -9_223_372_036_854_775_808 || at > 9_223_372_036_854_775_807 {
        None
    } else {
        Some(at as i64)
    }
}

pub fn parse_http_date(raw: &str) -> (r: Option<i64>)
    ensures
        r == http_date(raw@),
{
    let parts = split_whitespace(raw);
    proof {
        assert(texts(parts@).len() == parts@.len());
    }
    if parts.len() < 5 {
        return None;
    }
    proof {
        assert(texts(parts@)[1] == parts@[1]@);
        assert(texts(parts@)[2] == parts@[2]@);
        assert(texts(parts@)[3] == parts@[3]@);
        assert(texts(parts@)[4] == parts@[4]@);
    }
    let clock = split(parts[4].as_str(), ':');
    proof {
        assert(texts(clock@).len() == clock@.len());
    }
    if clock.len() != 3 {
        return None;
    }
    proof {
        assert(texts(clock@)[0] == clock@[0]@);
        assert(texts(clock@)[1] == clock@[1]@);
        assert(texts(clock@)[2] == clock@[2]@);
    }
    let day = parse_i64(parts[1].as_str());
    let month = month_of(parts[2].as_str());
    let year = parse_i64(parts[3].as_str());
    let h = parse_i64(clock[0].as_str());
    let m = parse_i64(clock[1].as_str());
    let s = parse_i64(clock[2].as_str());
    match (day, month, year) {
        (Some(day), Some(month), Some(year)) => match (h, m, s) {
            (Some(h), Some(m), Some(s)) => millis(year, month, day, h, m, s),
            _ => None,
        },
        _ => None,
    }
}

/// The days of a month.
pub open spec fn month_days(year: int, month: int) -> int {
    if month == 2 {
        if leap_year(year) {
            29
        } else {
            28
        }
    } else if month == 4 || month == 6 || month == 9 || month == 11 {
        30
    } else {
        31
    }
}

/// Whether the calendar has a day.
pub open spec fn calendar_day(year: int, month: int, day: int) -> bool {
    1 <= month <= 12 && 1 <= day <= month_days(year, month)
}

/// The day after a day, as year, month and day.
pub open spec fn next_day(year: int, month: int, day: int) -> (int, int, int) {
    if day < month_days(year, month) {
        (year, month, day + 1)
    } else if month < 12 {
        (year, month + 1, 1)
    } else {
        (year + 1, 1, 1)
    }
}

/// A text that writes a date and a time of day.
pub open spec fn writes_date(
    raw: Seq<char>,
    date: (int, int, int),
    hour: int,
    minute: int,
    second: int,
) -> bool {
    let parts = words(raw);
    let clock = split_at_each(parts[4], ':');
    &&& parts.len() >= 5
    &&& int_text(parts[3]) matches Some(y) && y == date.0
    &&& month_number(parts[2]) == Some(date.1)
    &&& int_text(parts[1]) matches Some(d) && d == date.2
    &&& clock.len() == 3
    &&& int_text(clock[0]) matches Some(h) && h == hour
    &&& int_text(clock[1]) matches Some(m) && m == minute
    &&& int_text(clock[2]) matches Some(s) && s == second
}

proof fn lemma_next_day(year: int, month: int, day: int)
    requires
        calendar_day(year, month, day),
    ensures
        ({
            let n = next_day(year, month, day);
            epoch_days(n.0, n.1, n.2) == epoch_days(year, month, day) + 1
        }),
{
    let y = year;
    assert(y / 4 - (y - 1) / 4 == if y % 4 == 0 {
        1int
    } else {
        0
    });
    assert(y / 100 - (y - 1) / 100 == if y % 100 == 0 {
        1int
    } else {
        0
    });
    assert(y / 400 - (y - 1) / 400 == if y % 400 == 0 {
        1int
    } else {
        0
    });
    assert(y % 400 == 0 ==> y % 100 == 0);
    assert(y % 100 == 0 ==> y % 4 == 0);
}

proof fn lemma_in_range(year: int, month: int, day: int, hour: int, minute: int, second: int)
    requires
        0 <= year <= 10_000,
        calendar_day(year, month, day),
        0 <= hour <= 24,
        0 <= minute <= 60,
        0 <= second <= 60,
    ensures
        i64::MIN <= epoch_millis(year, month, day, hour, minute, second) <= i64::MAX,
{
    assert(-4_000_000 <= epoch_days(year, month, day) <= 4_000_000);
}

/// The next day of the calendar at the same time of day is 86,400,000 milliseconds later.
pub proof fn a_day_is_a_day(
    raw: Seq<char>,
    next: Seq<char>,
    year: int,
    month: int,
    day: int,
    hour: int,
    minute: int,
    second: int,
)
    requires
        1 <= year <= 9999,
        calendar_day(year, month, day),
        0 <= hour < 24,
        0 <= minute < 60,
        0 <= second <= 60,
        writes_date(raw, (year, month, day), hour, minute, second),
        writes_date(next, next_day(year, month, day), hour, minute, second),
    ensures
        http_date(raw) is Some && http_date(next) is Some,
        http_date(next)->0 == http_date(raw)->0 + 86_400_000,
{
    let n = next_day(year, month, day);
    lemma_next_day(year, month, day);
    lemma_in_range(year, month, day, hour, minute, second);
    lemma_in_range(n.0, n.1, n.2, hour, minute, second);
}

/// A second later on the same day is 1,000 milliseconds later.
pub proof fn a_second_is_a_second(
    raw: Seq<char>,
    later: Seq<char>,
    date: (int, int, int),
    time: (int, int, int),
    later_time: (int, int, int),
)
    requires
        1 <= date.0 <= 9999,
        calendar_day(date.0, date.1, date.2),
        0 <= time.0 < 24 && 0 <= time.1 < 60 && 0 <= time.2 <= 60,
        0 <= later_time.0 < 24 && 0 <= later_time.1 < 60 && 0 <= later_time.2 <= 60,
        later_time.0 * 3600 + later_time.1 * 60 + later_time.2 == time.0 * 3600 + time.1 * 60
            + time.2 + 1,
        writes_date(raw, date, time.0, time.1, time.2),
        writes_date(later, date, later_time.0, later_time.1, later_time.2),
    ensures
        http_date(raw) is Some && http_date(later) is Some,
        http_date(later)->0 == http_date(raw)->0 + 1000,
{
    lemma_in_range(date.0, date.1, date.2, time.0, time.1, time.2);
    lemma_in_range(date.0, date.1, date.2, later_time.0, later_time.1, later_time.2);
}

/// The day of the week plays no part.
pub proof fn weekday_plays_no_part(raw: Seq<char>, other: Seq<char>)
    requires
        words(raw).len() == words(other).len(),
        words(raw).skip(1) == words(other).skip(1),
    ensures
        http_date(raw) == http_date(other),
{
    let a = words(raw);
    let b = words(other);
    if a.len() >= 5 {
        assert forall|i: int| 1 <= i < a.len() implies #[trigger] a[i] == b[i] by {
            assert(a.skip(1)[i - 1] == b.skip(1)[i - 1]);
        }
        assert(a[1] == b[1] && a[2] == b[2] && a[3] == b[3] && a[4] == b[4]);
    }
}

/// The months by their names, and no other name.
pub proof fn months_are_known_by_name(name: Seq<char>)
    ensures
        month_number("Jan"@) == Some(1int) && month_number("Feb"@) == Some(2int),
        month_number("Mar"@) == Some(3int) && month_number("Apr"@) == Some(4int),
        month_number("May"@) == Some(5int) && month_number("Jun"@) == Some(6int),
        month_number("Jul"@) == Some(7int) && month_number("Aug"@) == Some(8int),
        month_number("Sep"@) == Some(9int) && month_number("Oct"@) == Some(10int),
        month_number("Nov"@) == Some(11int) && month_number("Dec"@) == Some(12int),
        month_number(name) is Some ==> name.len() == 3,
        month_number(name) matches Some(n) ==> 1 <= n <= 12,
{
    reveal_strlit("Jan");
    reveal_strlit("Feb");
    reveal_strlit("Mar");
    reveal_strlit("Apr");
    reveal_strlit("May");
    reveal_strlit("Jun");
    reveal_strlit("Jul");
    reveal_strlit("Aug");
    reveal_strlit("Sep");
    reveal_strlit("Oct");
    reveal_strlit("Nov");
    reveal_strlit("Dec");
    assert("Jan"@[0] == 'J' && "Jan"@[1] == 'a');
    assert("Feb"@[0] == 'F');
    assert("Mar"@[0] == 'M' && "Mar"@[2] == 'r');
    assert("Apr"@[0] == 'A' && "Apr"@[1] == 'p');
    assert("May"@[0] == 'M' && "May"@[2] == 'y');
    assert("Jun"@[0] == 'J' && "Jun"@[1] == 'u' && "Jun"@[2] == 'n');
    assert("Jul"@[0] == 'J' && "Jul"@[1] == 'u' && "Jul"@[2] == 'l');
    assert("Aug"@[0] == 'A' && "Aug"@[1] == 'u');
    assert("Sep"@[0] == 'S');
    assert("Oct"@[0] == 'O');
    assert("Nov"@[0] == 'N');
    assert("Dec"@[0] == 'D');
}

/// Time is counted from the start of 1970.
pub proof fn time_starts_in_1970(raw: Seq<char>)
    requires
        writes_date(raw, (1970, 1, 1), 0, 0, 0),
    ensures
        http_date(raw) == Some(0i64),
{
}

/// Within a day, time is the hours, minutes and seconds since its start.
pub proof fn clock_counts_from_the_day(
    raw: Seq<char>,
    start: Seq<char>,
    date: (int, int, int),
    hour: int,
    minute: int,
    second: int,
)
    requires
        writes_date(raw, date, hour, minute, second),
        writes_date(start, date, 0, 0, 0),
        http_date(raw) is Some,
        http_date(start) is Some,
    ensures
        http_date(raw)->0 == http_date(start)->0 + (hour * 3600 + minute * 60 + second) * 1000,
{
}

} // verus!
