//! Instants as text: RFC 3339 in, calendar dates out.
use vstd::prelude::*;
use crate::fixed;
use crate::fixed::sat;
use crate::numeral;
use crate::numeral::push_padded;
use crate::text;

verus! {

/// What `chrono` reads an RFC 3339 text as: seconds since the epoch, and the nanoseconds
/// of the last second; nothing where it is no such text.
pub uninterp spec fn rfc3339(s: Seq<char>) -> Option<(i64, u32)>;

/// `chrono::DateTime::parse_from_rfc3339`, with the instant as its `timestamp` and its
/// `timestamp_subsec_nanos`. What it reads is a function of the text alone.
#[verifier::external_body]
fn read_rfc3339(s: &str) -> (r: Option<(i64, u32)>)
    ensures
        r == rfc3339(s@),
{
    chrono::DateTime::parse_from_rfc3339(s)
        .ok()
        .map(|dt| (dt.timestamp(), dt.timestamp_subsec_nanos()))
}

/// The nanoseconds of an instant, where they fit.
pub open spec fn nanos_of(t: Option<(i64, u32)>) -> Option<i64> {
    match t {
        Some((s, n)) => {
            let x = s * 1_000_000_000 + n;
            if i64::MIN <= x <= i64::MAX {
                Some(x as i64)
            } else {
                None
            }
        },
        None => None,
    }
}

/// The milliseconds of an instant.
pub open spec fn millis_of(t: Option<(i64, u32)>) -> Option<i64> {
    match t {
        Some((s, n)) => Some(fixed::clamp64(s * 1000 + n / 1_000_000) as i64),
        None => None,
    }
}

/// The nanoseconds of an instant, where they fit.
pub fn to_nanos(t: Option<(i64, u32)>) -> (r: Option<i64>)
    ensures
        r == nanos_of(t),
{
    match t {
        Some((s, n)) => {
            let x: i128 = s as i128 * 1_000_000_000 + n as i128;
            if i64::MIN as i128 <= x && x <= i64::MAX as i128 {
                Some(x as i64)
            } else {
                None
            }
        },
        None => None,
    }
}

/// The milliseconds of an instant.
pub fn to_millis(t: Option<(i64, u32)>) -> (r: Option<i64>)
    ensures
        r == millis_of(t),
{
    match t {
        Some((s, n)) => Some(sat(s as i128 * 1000 + (n / 1_000_000) as i128)),
        None => None,
    }
}

/// An RFC 3339 text in unix nanoseconds.
pub fn iso_ns(s: &str) -> (r: Option<i64>)
    ensures
        r == nanos_of(rfc3339(s@)),
{
    to_nanos(read_rfc3339(s))
}

/// An RFC 3339 text in unix milliseconds.
pub fn iso_ms(s: &str) -> (r: Option<i64>)
    ensures
        r == millis_of(rfc3339(s@)),
{
    to_millis(read_rfc3339(s))
}

/// Whether a year has a leap day.
pub open spec fn is_leap(y: int) -> bool {
    y % 4 == 0 && (y % 100 != 0 || y % 400 == 0)
}

/// The days of a month.
pub open spec fn month_len(y: int, m: int) -> int {
    if m == 2 {
        if is_leap(y) {
            29
        } else {
            28
        }
    } else if m == 4 || m == 6 || m == 9 || m == 11 {
        30
    } else {
        31
    }
}

/// The days of a year that come before a month.
pub open spec fn days_before_month(y: int, m: int) -> int
    decreases m,
{
    if m <= 1 {
        0
    } else {
        days_before_month(y, m - 1) + month_len(y, m - 1)
    }
}

/// The days from the epoch to the first day of a year: 365 for each year, and one more for
/// each leap year.
pub open spec fn days_before_year(y: int) -> int {
    365 * (y - 1970) + ((y - 1) / 4 - 1969int / 4) - ((y - 1) / 100 - 1969int / 100) + ((y - 1)
        / 400 - 1969int / 400)
}

/// A date of the calendar.
pub open spec fn is_date(y: int, m: int, d: int) -> bool {
    1 <= m <= 12 && 1 <= d <= month_len(y, m)
}

/// The number of a date, counted from the epoch.
pub open spec fn day_number(y: int, m: int, d: int) -> int {
    days_before_year(y) + days_before_month(y, m) + d - 1
}

/// The day of an instant, counted from the epoch.
pub open spec fn day_of(ts_ns: i64) -> int {
    ts_ns as int / 86_400_000_000_000
}

/// The text of a date.
pub open spec fn date_text(y: nat, m: nat, d: nat) -> Seq<char> {
    numeral::padded(y, 4) + "-"@ + numeral::padded(m, 2) + "-"@ + numeral::padded(d, 2)
}

/// Whether a text is the date of an instant, in UTC.
pub open spec fn is_day_text(t: Seq<char>, ts_ns: i64) -> bool {
    exists|y: nat, m: nat, d: nat|
        is_date(y as int, m as int, d as int) && day_number(y as int, m as int, d as int) == day_of(
            ts_ns,
        ) && t == #[trigger] date_text(y, m, d)
}

/// The days of a year that begins in March which come before its `k`-th month.
pub open spec fn march_start(k: int) -> int {
    (153 * k + 2) / 5
}

proof fn lemma_months(y: int)
    ensures
        days_before_month(y, 1) == 0,
        days_before_month(y, 2) == 31,
        forall|k: int|
            0 <= k < 10 ==> #[trigger] march_start(k) == days_before_month(y, k + 3)
                - days_before_month(y, 3),
        days_before_month(y, 3) == if is_leap(y) {
            60int
        } else {
            59
        },
        days_before_month(y, 12) + 31 - days_before_month(y, 3) == 306,
{
    assert(days_before_month(y, 1) == 0);
    assert(days_before_month(y, 2) == 31);
    assert(days_before_month(y, 3) == 31 + month_len(y, 2));
    let b = days_before_month(y, 3);
    assert(days_before_month(y, 4) == b + 31);
    assert(days_before_month(y, 5) == b + 61);
    assert(days_before_month(y, 6) == b + 92);
    assert(days_before_month(y, 7) == b + 122);
    assert(days_before_month(y, 8) == b + 153);
    assert(days_before_month(y, 9) == b + 184);
    assert(days_before_month(y, 10) == b + 214);
    assert(days_before_month(y, 11) == b + 245);
    assert(days_before_month(y, 12) == b + 275);
}

/// The first of March of a year, by the year's place in its four centuries.
proof fn lemma_first_of_march(era: int, yoe: int)
    requires
        0 <= yoe < 400,
    ensures
        ({
            let y = 400 * era + yoe;
            days_before_year(y) + days_before_month(y, 3) == 146_097 * era + 365 * yoe + yoe / 4
                - yoe / 100 - 719_468
        }),
{
    let y = 400 * era + yoe;
    lemma_months(y);
    assert(y / 4 == 100 * era + yoe / 4);
    assert(y / 100 == 4 * era + yoe / 100);
    assert(y / 400 == era);
    assert((y - 1) / 4 == y / 4 - (if y % 4 == 0 {
        1int
    } else {
        0
    }));
    assert((y - 1) / 100 == y / 100 - (if y % 100 == 0 {
        1int
    } else {
        0
    }));
    assert((y - 1) / 400 == y / 400 - (if y % 400 == 0 {
        1int
    } else {
        0
    }));
}

/// The date of a day of a year that begins in March.
proof fn lemma_in_year(y: int, doy: int)
    requires
        0 <= doy <= 365,
        doy == 365 ==> is_leap(y + 1),
    ensures
        ({
            let k = (5 * doy + 2) / 153;
            let d = doy - march_start(k) + 1;
            let (year, m) = if k < 10 {
                (y, k + 3)
            } else {
                (y + 1, k - 9)
            };
            &&& 0 <= k <= 11
            &&& is_date(year, m, d)
            &&& day_number(year, m, d) == days_before_year(y) + days_before_month(y, 3) + doy
        }),
{
    let k = (5 * doy + 2) / 153;
    lemma_months(y);
    lemma_months(y + 1);
    assert(march_start(k) <= doy < march_start(k + 1));
    if k < 10 {
        assert(march_start(k) == days_before_month(y, k + 3) - days_before_month(y, 3));
        if k < 9 {
            assert(march_start(k + 1) == days_before_month(y, k + 4) - days_before_month(y, 3));
            assert(days_before_month(y, k + 4) == days_before_month(y, k + 3) + month_len(
                y,
                k + 3,
            ));
        }
    } else {
        assert((y + 1 - 1) / 4 == (y - 1) / 4 + (if y % 4 == 0 {
            1int
        } else {
            0
        }));
        assert((y + 1 - 1) / 100 == (y - 1) / 100 + (if y % 100 == 0 {
            1int
        } else {
            0
        }));
        assert((y + 1 - 1) / 400 == (y - 1) / 400 + (if y % 400 == 0 {
            1int
        } else {
            0
        }));
        assert(days_before_year(y + 1) == days_before_year(y) + 365 + (if is_leap(y) {
            1int
        } else {
            0
        }));
    }
}

/// The text of the day of an instant, in UTC.
pub fn date_utc(ts_ns: i64) -> (r: String)
    ensures
        is_day_text(r@, ts_ns),
{
    let days: i128 = fixed::div_floor(ts_ns as i128, 86_400_000_000_000);
    assert(-106_752 <= days <= 106_751);
    let z: u64 = (days + 719_468) as u64;
    let era: u64 = z / 146_097;
    let doe: u64 = z % 146_097;
    let c: u64 = if doe / 36_524 < 3 {
        doe / 36_524
    } else {
        3
    };
    let doc: u64 = doe - 36_524 * c;
    let q: u64 = doc / 1_461;
    let doq: u64 = doc - 1_461 * q;
    let a: u64 = if doq / 365 < 3 {
        doq / 365
    } else {
        3
    };
    let doy: u64 = doq - 365 * a;
    let yoe: u64 = 100 * c + 4 * q + a;
    let y: u64 = 400 * era + yoe;
    let k: u64 = (5 * doy + 2) / 153;
    let d: u64 = doy - (153 * k + 2) / 5 + 1;
    let (year, m): (u64, u64) = if k < 10 {
        (y, k + 3)
    } else {
        (y + 1, k - 9)
    };
    proof {
        assert(q <= 24);
        assert(yoe as int / 4 == 25 * c + q);
        assert(yoe as int / 100 == c);
        assert(doe == 365 * yoe + yoe as int / 4 - yoe as int / 100 + doy);
        assert(doy == 365 ==> is_leap(y + 1)) by {
            assert((y + 1) % 4 == 0 || a != 3);
            if doy == 365 {
                assert(y + 1 == 400 * era + 100 * c + 4 * (q + 1));
                if q == 24 {
                    assert(c == 3);
                    assert(y + 1 == 400 * (era + 1));
                } else {
                    assert((y + 1) % 100 == 4 * (q + 1));
                }
            }
        }
        lemma_first_of_march(era as int, yoe as int);
        lemma_in_year(y as int, doy as int);
    }
    let mut r = String::new();
    push_padded(&mut r, year, 4);
    r.append("-");
    push_padded(&mut r, m, 2);
    r.append("-");
    push_padded(&mut r, d, 2);
    assert(r@ =~= date_text(year as nat, m as nat, d as nat));
    r
}

proof fn lemma_year_step(y: int)
    ensures
        days_before_year(y + 1) == days_before_year(y) + 365 + (if is_leap(y) {
            1int
        } else {
            0
        }),
{
    assert(y / 4 == (y - 1) / 4 + (if y % 4 == 0 {
        1int
    } else {
        0
    }));
    assert(y / 100 == (y - 1) / 100 + (if y % 100 == 0 {
        1int
    } else {
        0
    }));
    assert(y / 400 == (y - 1) / 400 + (if y % 400 == 0 {
        1int
    } else {
        0
    }));
}

proof fn lemma_years_grow(a: int, b: int)
    requires
        a <= b,
    ensures
        days_before_year(a) <= days_before_year(b),
    decreases b - a,
{
    if a < b {
        lemma_years_grow(a, b - 1);
        lemma_year_step(b - 1);
    }
}

proof fn lemma_months_grow(y: int, a: int, b: int)
    requires
        1 <= a <= b,
    ensures
        days_before_month(y, a) <= days_before_month(y, b),
    decreases b - a,
{
    if a < b {
        lemma_months_grow(y, a, b - 1);
    }
}

proof fn lemma_within_year(y: int, m: int, d: int)
    requires
        is_date(y, m, d),
    ensures
        days_before_year(y) <= day_number(y, m, d) < days_before_year(y + 1),
{
    lemma_months(y);
    lemma_year_step(y);
    lemma_months_grow(y, 1, m);
    lemma_months_grow(y, m, 12);
    if m < 12 {
        assert(days_before_month(y, m + 1) == days_before_month(y, m) + month_len(y, m));
        lemma_months_grow(y, m + 1, 12);
    }
}

/// No two dates have one number: an instant has one date only.
pub proof fn law_dates_are_unique(y: int, m: int, d: int, y2: int, m2: int, d2: int)
    requires
        is_date(y, m, d),
        is_date(y2, m2, d2),
        day_number(y, m, d) == day_number(y2, m2, d2),
    ensures
        y == y2 && m == m2 && d == d2,
{
    lemma_within_year(y, m, d);
    lemma_within_year(y2, m2, d2);
    if y < y2 {
        lemma_years_grow(y + 1, y2);
    }
    if y2 < y {
        lemma_years_grow(y2 + 1, y);
    }
    if m < m2 {
        lemma_months_grow(y, m + 1, m2);
    }
    if m2 < m {
        lemma_months_grow(y, m2 + 1, m);
    }
}

/// The dates of the calendar come in the order of their numbers.
proof fn lemma_dates_in_order(y: int, m: int, d: int, y2: int, m2: int, d2: int)
    requires
        is_date(y, m, d),
        is_date(y2, m2, d2),
        day_number(y, m, d) < day_number(y2, m2, d2),
    ensures
        y < y2 || (y == y2 && (m < m2 || (m == m2 && d < d2))),
{
    lemma_within_year(y, m, d);
    lemma_within_year(y2, m2, d2);
    if y2 < y {
        lemma_years_grow(y2 + 1, y);
    }
    if y == y2 && m2 < m {
        assert(days_before_month(y, m2 + 1) == days_before_month(y, m2) + month_len(y, m2));
        lemma_months_grow(y, m2 + 1, m);
    }
}

/// The year of an instant has four digits.
proof fn lemma_year_range(y: int, m: int, d: int, ts_ns: i64)
    requires
        is_date(y, m, d),
        day_number(y, m, d) == day_of(ts_ns),
    ensures
        1000 <= y <= 9999,
{
    lemma_within_year(y, m, d);
    assert(-106_752 <= day_of(ts_ns) <= 106_751);
    if y < 1000 {
        lemma_years_grow(y + 1, 1000);
    }
    if y > 9999 {
        lemma_years_grow(9999, y);
    }
}

/// The ten characters of a date.
pub open spec fn date_chars(y: nat, m: nat, d: nat) -> Seq<char> {
    seq![
        numeral::digit_char((y / 1000) as int),
        numeral::digit_char((y / 100 % 10) as int),
        numeral::digit_char((y / 10 % 10) as int),
        numeral::digit_char((y % 10) as int),
        '-',
        numeral::digit_char((m / 10) as int),
        numeral::digit_char((m % 10) as int),
        '-',
        numeral::digit_char((d / 10) as int),
        numeral::digit_char((d % 10) as int),
    ]
}

proof fn lemma_two_digits(n: nat)
    requires
        n < 100,
    ensures
        numeral::padded(n, 2) == seq![
            numeral::digit_char((n / 10) as int),
            numeral::digit_char((n % 10) as int),
        ],
{
    reveal_with_fuel(numeral::dec, 3);
    if n < 10 {
        assert(numeral::zeros(1) =~= seq!['0']);
    }
    assert(numeral::padded(n, 2) =~= seq![
        numeral::digit_char((n / 10) as int),
        numeral::digit_char((n % 10) as int),
    ]);
}

proof fn lemma_date_chars(y: nat, m: nat, d: nat)
    requires
        1000 <= y <= 9999,
        is_date(y as int, m as int, d as int),
    ensures
        date_text(y, m, d) == date_chars(y, m, d),
{
    lemma_two_digits(m);
    lemma_two_digits(d);
    reveal_with_fuel(numeral::dec, 5);
    reveal_strlit("-");
    assert(y / 10 / 10 == y / 100 && y / 100 / 10 == y / 1000);
    assert(numeral::padded(y, 4) =~= seq![
        numeral::digit_char((y / 1000) as int),
        numeral::digit_char((y / 100 % 10) as int),
        numeral::digit_char((y / 10 % 10) as int),
        numeral::digit_char((y % 10) as int),
    ]);
    assert(date_text(y, m, d) =~= date_chars(y, m, d));
}

/// The `i`-th character of a date.
spec fn date_char(y: nat, m: nat, d: nat, i: int) -> int {
    if i == 0 {
        (y / 1000) as int + 48
    } else if i == 1 {
        (y / 100 % 10) as int + 48
    } else if i == 2 {
        (y / 10 % 10) as int + 48
    } else if i == 3 {
        (y % 10) as int + 48
    } else if i == 5 {
        (m / 10) as int + 48
    } else if i == 6 {
        (m % 10) as int + 48
    } else if i == 8 {
        (d / 10) as int + 48
    } else if i == 9 {
        (d % 10) as int + 48
    } else {
        45
    }
}

proof fn lemma_date_char(y: nat, m: nat, d: nat)
    requires
        1000 <= y <= 9999,
        m < 100,
        d < 100,
    ensures
        date_chars(y, m, d).len() == 10,
        forall|i: int|
            0 <= i < 10 ==> #[trigger] date_chars(y, m, d)[i] as int == date_char(y, m, d, i),
{
    let s = date_chars(y, m, d);
    assert(s[0] as int == date_char(y, m, d, 0));
    assert(s[1] as int == date_char(y, m, d, 1));
    assert(s[2] as int == date_char(y, m, d, 2));
    assert(s[3] as int == date_char(y, m, d, 3));
    assert(s[4] as int == date_char(y, m, d, 4));
    assert(s[5] as int == date_char(y, m, d, 5));
    assert(s[6] as int == date_char(y, m, d, 6));
    assert(s[7] as int == date_char(y, m, d, 7));
    assert(s[8] as int == date_char(y, m, d, 8));
    assert(s[9] as int == date_char(y, m, d, 9));
}

/// Where two dates in order first differ, the earlier one has the smaller character.
proof fn lemma_chars_in_order(y: nat, m: nat, d: nat, y2: nat, m2: nat, d2: nat) -> (k: int)
    requires
        1000 <= y <= 9999,
        1000 <= y2 <= 9999,
        m < 100,
        m2 < 100,
        d < 100,
        d2 < 100,
        y < y2 || (y == y2 && (m < m2 || (m == m2 && d < d2))),
    ensures
        0 <= k < 10,
        date_chars(y, m, d).len() == 10,
        date_chars(y2, m2, d2).len() == 10,
        forall|j: int|
            0 <= j < k ==> #[trigger] date_chars(y, m, d)[j] == date_chars(y2, m2, d2)[j],
        (date_chars(y, m, d)[k] as int) < (date_chars(y2, m2, d2)[k] as int),
{
    lemma_date_char(y, m, d);
    lemma_date_char(y2, m2, d2);
    lemma_year_digits(y);
    lemma_year_digits(y2);
    let s = date_chars(y, m, d);
    let t = date_chars(y2, m2, d2);
    let k: int = if y / 100 != y2 / 100 {
        lemma_two_digits_in_order(y / 100, y2 / 100);
        if s[0] != t[0] {
            0
        } else {
            1
        }
    } else if y != y2 {
        lemma_two_digits_in_order(y % 100, y2 % 100);
        if s[2] != t[2] {
            2
        } else {
            3
        }
    } else if m != m2 {
        lemma_two_digits_in_order(m, m2);
        if s[5] != t[5] {
            5
        } else {
            6
        }
    } else {
        lemma_two_digits_in_order(d, d2);
        if s[8] != t[8] {
            8
        } else {
            9
        }
    };
    assert forall|j: int| 0 <= j < k implies #[trigger] s[j] == t[j] by {
        assert(s[j] as int == date_char(y, m, d, j));
        assert(t[j] as int == date_char(y2, m2, d2, j));
        assert(date_char(y, m, d, j) == date_char(y2, m2, d2, j));
    }
    assert(date_char(y, m, d, k) < date_char(y2, m2, d2, k));
    k
}

proof fn lemma_year_digits(y: nat)
    requires
        1000 <= y <= 9999,
    ensures
        y / 100 < 100,
        y == 100 * (y / 100) + y % 100,
        y / 1000 == y / 100 / 10,
        y / 10 % 10 == y % 100 / 10,
        y % 10 == y % 100 % 10,
{
}

proof fn lemma_two_digits_in_order(n: nat, n2: nat)
    requires
        n < n2 < 100,
    ensures
        n / 10 < n2 / 10 || (n / 10 == n2 / 10 && n % 10 < n2 % 10),
{
}

/// Of two texts, the one with the smaller character at the first place where they differ
/// comes first.
proof fn lemma_first_difference(a: Seq<char>, b: Seq<char>, k: int)
    requires
        0 <= k < a.len(),
        k < b.len(),
        forall|j: int| 0 <= j < k ==> #[trigger] a[j] == b[j],
        (a[k] as int) < (b[k] as int),
    ensures
        text::before(a, b),
        !text::before(b, a),
    decreases k,
{
    if k > 0 {
        assert(a[0] == b[0]);
        assert forall|j: int| 0 <= j < k - 1 implies #[trigger] a.skip(1)[j] == b.skip(1)[j] by {
            assert(a[j + 1] == b[j + 1]);
        }
        lemma_first_difference(a.skip(1), b.skip(1), k - 1);
    }
}

proof fn lemma_not_before_itself(a: Seq<char>)
    ensures
        !text::before(a, a),
    decreases a.len(),
{
    if a.len() > 0 {
        lemma_not_before_itself(a.skip(1));
    }
}

/// The dates of instants keep the order of time: the text of a later instant never comes
/// before that of an earlier one, and the two are one text exactly where the instants are of
/// one day. Each is a date of the calendar in ten characters.
pub proof fn law_dates_keep_the_order_of_time(a: i64, b: i64, s: Seq<char>, t: Seq<char>)
    requires
        a <= b,
        is_day_text(s, a),
        is_day_text(t, b),
    ensures
        s.len() == 10,
        t.len() == 10,
        s == t <==> day_of(a) == day_of(b),
        s != t ==> text::before(s, t),
        !text::before(t, s),
{
    let (y, m, d) = choose|y: nat, m: nat, d: nat|
        is_date(y as int, m as int, d as int) && day_number(y as int, m as int, d as int) == day_of(
            a,
        ) && s == #[trigger] date_text(y, m, d);
    let (y2, m2, d2) = choose|y: nat, m: nat, d: nat|
        is_date(y as int, m as int, d as int) && day_number(y as int, m as int, d as int) == day_of(
            b,
        ) && t == #[trigger] date_text(y, m, d);
    lemma_year_range(y as int, m as int, d as int, a);
    lemma_year_range(y2 as int, m2 as int, d2 as int, b);
    lemma_date_chars(y, m, d);
    lemma_date_chars(y2, m2, d2);
    assert(day_of(a) <= day_of(b));
    if day_of(a) == day_of(b) {
        law_dates_are_unique(y as int, m as int, d as int, y2 as int, m2 as int, d2 as int);
        lemma_not_before_itself(s);
    } else {
        lemma_dates_in_order(y as int, m as int, d as int, y2 as int, m2 as int, d2 as int);
        let k = lemma_chars_in_order(y, m, d, y2, m2, d2);
        lemma_first_difference(s, t, k);
        assert(s[k] != t[k]);
    }
}

/// An instant in nanoseconds is its seconds and the rest; in milliseconds it is rounded down.
pub proof fn law_instants_in_nanos_and_millis(s: i64, n: u32)
    requires
        -9_000_000_000 <= s <= 9_000_000_000,
        n < 1_000_000_000,
    ensures
        nanos_of(Some((s, n))) matches Some(x) && x == s * 1_000_000_000 + n,
        millis_of(Some((s, n))) matches Some(x) && x * 1_000_000 <= s * 1_000_000_000 + n < (x + 1)
            * 1_000_000,
{
}

/// The calendar: a day after the last of a month comes the first of the next, and after the
/// last of December the first of January; February has a day more every fourth year, but not
/// every hundredth unless it is every four hundredth. The epoch is day zero.
pub proof fn law_days_follow_each_other(y: int, m: int, d: int)
    requires
        is_date(y, m, d),
    ensures
        d < month_len(y, m) ==> day_number(y, m, d + 1) == day_number(y, m, d) + 1,
        d == month_len(y, m) && m < 12 ==> day_number(y, m + 1, 1) == day_number(y, m, d) + 1,
        d == month_len(y, m) && m == 12 ==> day_number(y + 1, 1, 1) == day_number(y, m, d) + 1,
        day_number(1970, 1, 1) == 0,
        m == 2 ==> (month_len(y, m) == 29 <==> (y % 4 == 0 && y % 100 != 0) || y % 400 == 0),
{
    lemma_year_step(y);
    lemma_months(y);
}

} // verus!
