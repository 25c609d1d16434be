//! Spans of time and calendar dates.

use vstd::prelude::*;

verus! {

/// The longest span: `u64::MAX` seconds and 999 999 999 nanoseconds.
pub const MAX_NANOS: u128 = 18446744073709551615_999999999;

pub const NANOS_PER_SEC: u128 = 1_000_000_000;

/// A span of time, to the nanosecond. As a model it is that number.
#[derive(Debug, Clone, Copy, PartialEq, Eq, PartialOrd, Ord, Hash, Structural)]
pub struct Duration {
    nanos: u128,
}

impl View for Duration {
    type V = nat;

    closed spec fn view(&self) -> nat {
        self.nanos as nat
    }
}

impl Duration {
    #[verifier::type_invariant]
    closed spec fn inv(self) -> bool {
        self.nanos <= MAX_NANOS
    }

    pub fn from_secs(secs: u64) -> (d: Duration)
        ensures
            d@ == secs as nat * 1_000_000_000,
    {
        Duration { nanos: (secs as u128) * 1_000_000_000 }
    }

    pub fn from_millis(millis: u64) -> (d: Duration)
        ensures
            d@ == millis as nat * 1_000_000,
    {
        Duration { nanos: (millis as u128) * 1_000_000 }
    }

    /// Every span is bounded by the longest one.
    pub fn bounded(self) -> (d: Duration)
        ensures
            d == self,
            self@ <= MAX_NANOS,
    {
        proof {
            use_type_invariant(&self);
        }
        self
    }

    /// Whole seconds.
    pub fn as_secs(self) -> (s: u64)
        ensures
            s as nat == self@ / 1_000_000_000,
    {
        proof {
            use_type_invariant(&self);
        }
        (self.nanos / 1_000_000_000) as u64
    }

    /// Whole milliseconds, the low 64 bits of them.
    pub fn as_millis_u64(self) -> (s: u64)
        ensures
            s as nat == (self@ / 1_000_000) % 0x1_0000_0000_0000_0000,
    {
        ((self.nanos / 1_000_000) % 0x1_0000_0000_0000_0000) as u64
    }

    /// The sum of two spans that stays within the longest one.
    pub fn plus(self, other: Duration) -> (d: Duration)
        requires
            self@ + other@ <= MAX_NANOS,
        ensures
            d@ == self@ + other@,
    {
        proof {
            use_type_invariant(&self);
            use_type_invariant(&other);
        }
        Duration { nanos: self.nanos + other.nanos }
    }

    /// The difference, or zero where `other` is the longer one.
    pub fn saturating_sub(self, other: Duration) -> (d: Duration)
        ensures
            d@ == if self@ >= other@ {
                (self@ - other@) as nat
            } else {
                0
            },
    {
        proof {
            use_type_invariant(&self);
        }
        if self.nanos >= other.nanos {
            Duration { nanos: self.nanos - other.nanos }
        } else {
            Duration { nanos: 0 }
        }
    }

    /// Whether this span is as long as `other` or longer.
    pub fn at_least(self, other: Duration) -> (r: bool)
        ensures
            r == (self@ >= other@),
    {
        self.nanos >= other.nanos
    }

    /// The longer of two spans.
    pub fn longest(self, other: Duration) -> (d: Duration)
        ensures
            d@ == if self@ >= other@ {
                self@
            } else {
                other@
            },
    {
        if self.nanos >= other.nanos {
            self
        } else {
            other
        }
    }
}

// ---------------------------------------------------------------------------
// The calendar
// ---------------------------------------------------------------------------

pub open spec fn is_leap(y: int) -> bool {
    y % 4 == 0 && (y % 100 != 0 || y % 400 == 0)
}

pub open spec fn leap_day(y: int) -> int {
    if is_leap(y) {
        1
    } else {
        0
    }
}

/// Days from 1970-01-01 to the first day of a year.
pub open spec fn year_start(y: int) -> int
    decreases
            if y >= 1970 {
                y - 1970
            } else {
                1970 - y
            },
{
    if y > 1970 {
        year_start(y - 1) + 365 + leap_day(y - 1)
    } else if y < 1970 {
        year_start(y + 1) - 365 - leap_day(y)
    } else {
        0
    }
}

pub open spec fn month_len(y: int, m: int) -> int {
    if m == 2 {
        28 + leap_day(y)
    } else if m == 4 || m == 6 || m == 9 || m == 11 {
        30
    } else {
        31
    }
}

/// Days of a year before a month.
pub open spec fn month_start(y: int, m: int) -> int
    decreases m,
{
    if m <= 1 {
        0
    } else {
        month_start(y, m - 1) + month_len(y, m - 1)
    }
}

/// A date that the calendar has.
pub open spec fn is_date(y: int, m: int, d: int) -> bool {
    1 <= m <= 12 && 1 <= d <= month_len(y, m)
}

/// Days from 1970-01-01 to a date.
pub open spec fn day_number(y: int, m: int, d: int) -> int {
    year_start(y) + month_start(y, m) + d - 1
}

proof fn fourths(y: int)
    ensures
        y / 4 - (y - 1) / 4 == if y % 4 == 0 {
            1int
        } else {
            0
        },
{
}

proof fn hundredths(y: int)
    ensures
        y / 100 - (y - 1) / 100 == if y % 100 == 0 {
            1int
        } else {
            0
        },
        y % 100 == 0 ==> y % 4 == 0,
{
}

proof fn four_hundredths(y: int)
    ensures
        y / 400 - (y - 1) / 400 == if y % 400 == 0 {
            1int
        } else {
            0
        },
        y % 400 == 0 ==> y % 100 == 0,
{
}

/// A year is a leap year where one more fourth, one less hundredth and one
/// more four-hundredth year has passed.
proof fn leap_day_formula(y: int)
    ensures
        leap_day(y) == (y / 4 - (y - 1) / 4) - (y / 100 - (y - 1) / 100) + (y / 400 - (y - 1)
            / 400),
{
    fourths(y);
    hundredths(y);
    four_hundredths(y);
}

proof fn year_start_formula(y: int)
    ensures
        year_start(y) == 365 * (y - 1970) + (y - 1) / 4 - (y - 1) / 100 + (y - 1) / 400 - 477,
    decreases
            if y >= 1970 {
                y - 1970
            } else {
                1970 - y
            },
{
    if y > 1970 {
        year_start_formula(y - 1);
        leap_day_formula(y - 1);
        assert(y - 1 - 1 == y - 2);
    } else if y < 1970 {
        year_start_formula(y + 1);
        leap_day_formula(y);
        assert(y + 1 - 1 == y);
    }
}

proof fn month_starts(y: int)
    ensures
        month_start(y, 1) == 0,
        month_start(y, 2) == 31,
        month_start(y, 3) == 59 + leap_day(y),
        month_start(y, 4) == 90 + leap_day(y),
        month_start(y, 5) == 120 + leap_day(y),
        month_start(y, 6) == 151 + leap_day(y),
        month_start(y, 7) == 181 + leap_day(y),
        month_start(y, 8) == 212 + leap_day(y),
        month_start(y, 9) == 243 + leap_day(y),
        month_start(y, 10) == 273 + leap_day(y),
        month_start(y, 11) == 304 + leap_day(y),
        month_start(y, 12) == 334 + leap_day(y),
{
    reveal_with_fuel(month_start, 13);
}

/// The day number of a year's day counted from March of year `y`, as a sum of
/// whole eras, centuries, spans of four years and years.
proof fn march_day(era: int, c: int, q: int, a: int)
    requires
        0 <= c <= 3,
        0 <= q <= 24,
        0 <= a <= 3,
    ensures
        ({
            let y = 400 * era + 100 * c + 4 * q + a;
            year_start(y) + 59 + leap_day(y) == 146097 * era + 36524 * c + 1461 * q + 365 * a
                - 719468
        }),
{
    let y = 400 * era + 100 * c + 4 * q + a;
    year_start_formula(y);
    // The leap days up to and including the one of year `y`.
    assert(y / 4 == 100 * era + 25 * c + q);
    assert(y / 100 == 4 * era + c) by {
        assert(0 <= 4 * q + a < 100);
    }
    assert(y / 400 == era) by {
        assert(0 <= 100 * c + 4 * q + a < 400);
    }
    leap_day_formula(y);
}

/// A number of days since the first of March of year zero, as whole eras of
/// 400 years, centuries, spans of four years, years, and days left over.
struct Split {
    era: i64,
    century: i64,
    span: i64,
    year: i64,
    day: i64,
}

impl Split {
    spec fn ok(self) -> bool {
        &&& 0 <= self.century <= 3
        &&& 0 <= self.span <= 24
        &&& 0 <= self.year <= 3
        &&& 0 <= self.day <= 365
        &&& self.day == 365 ==> self.year == 3 && (self.span == 24 ==> self.century == 3)
    }

    spec fn total(self) -> int {
        146097 * self.era + 36524 * self.century + 1461 * self.span + 365 * self.year + self.day
    }
}

fn split_days(z0: i64) -> (r: Split)
    requires
        z0 >= i64::MIN + 719_468,
    ensures
        r.ok(),
        r.total() == z0,
        -64_000_000_000_000 <= r.era <= 64_000_000_000_000,
{
    let era: i64 = if z0 >= 0 {
        z0 / 146_097
    } else {
        -((-(z0 + 1)) / 146_097) - 1
    };
    assert(z0 < 0 ==> era == -((-(z0 + 1)) / 146_097) - 1);
    let doe: i64 = z0 - era * 146_097;
    assert(0 <= doe <= 146_096);
    let by_century: i64 = doe / 36_524;
    let century: i64 = if by_century <= 3 {
        by_century
    } else {
        3
    };
    let in_century: i64 = doe - century * 36_524;
    assert(0 <= in_century <= 36_524);
    assert(century < 3 ==> in_century <= 36_523);
    let span: i64 = in_century / 1_461;
    let in_span: i64 = in_century - span * 1_461;
    assert(0 <= span <= 24 && 0 <= in_span <= 1_460);
    let by_year: i64 = in_span / 365;
    let year: i64 = if by_year <= 3 {
        by_year
    } else {
        3
    };
    let day: i64 = in_span - year * 365;
    Split { era, century, span, year, day }
}

proof fn long_years(s: Split)
    requires
        s.ok(),
    ensures
        ({
            let y = 400 * s.era + 100 * s.century + 4 * s.span + s.year;
            s.day <= 364 + leap_day(y + 1)
        }),
{
    if s.day == 365 {
        let n = 400 * s.era + 100 * s.century + 4 * s.span + s.year + 1;
        assert(n == 4 * (100 * s.era + 25 * s.century + s.span + 1));
        if s.span == 24 {
            assert(n == 400 * (s.era + 1));
            four_hundredths(n);
        } else {
            assert(n == 100 * (4 * s.era + s.century) + 4 * (s.span + 1));
            assert(0 < 4 * (s.span + 1) < 100);
            assert(n % 100 == 4 * (s.span + 1));
        }
        assert(n % 4 == 0);
        assert(is_leap(n));
    }
}

/// The date that lies `z` days after 1970-01-01.
pub fn civil_from_days(z: i64) -> (r: (i64, i64, i64))
    requires
        z <= i64::MAX - 719_468,
    ensures
        is_date(r.0 as int, r.1 as int, r.2 as int),
        day_number(r.0 as int, r.1 as int, r.2 as int) == z,
{
    let s: Split = split_days(z + 719_468);
    let y: i64 = s.era * 400 + s.century * 100 + s.span * 4 + s.year;
    let doy: i64 = s.day;
    let mp: i64 = (5 * doy + 2) / 153;
    let d: i64 = doy - (153 * mp + 2) / 5 + 1;
    proof {
        march_day(s.era as int, s.century as int, s.span as int, s.year as int);
        long_years(s);
        march_months(y as int, doy as int, mp as int, d as int);
    }
    if mp < 10 {
        (y, mp + 3, d)
    } else {
        (y + 1, mp - 9, d)
    }
}

proof fn year_step(y: int)
    ensures
        year_start(y + 1) == year_start(y) + 365 + leap_day(y),
{
    year_start_formula(y);
    year_start_formula(y + 1);
    leap_day_formula(y);
    assert(y + 1 - 1 == y);
}

proof fn march_months(y: int, doy: int, mp: int, d: int)
    requires
        0 <= doy <= 364 + leap_day(y + 1),
        mp == (5 * doy + 2) / 153,
        d == doy - (153 * mp + 2) / 5 + 1,
    ensures
        0 <= mp <= 11,
        mp < 10 ==> is_date(y, mp + 3, d) && day_number(y, mp + 3, d) == year_start(y) + 59
            + leap_day(y) + doy,
        mp >= 10 ==> is_date(y + 1, mp - 9, d) && day_number(y + 1, mp - 9, d) == year_start(y)
            + 59 + leap_day(y) + doy,
{
    month_starts(y);
    month_starts(y + 1);
    year_step(y);
    assert(mp == 0 || mp == 1 || mp == 2 || mp == 3 || mp == 4 || mp == 5 || mp == 6 || mp == 7
        || mp == 8 || mp == 9 || mp == 10 || mp == 11);
}

proof fn year_starts_grow(a: int, b: int)
    requires
        a <= b,
    ensures
        year_start(a) + 365 * (b - a) <= year_start(b),
    decreases b - a,
{
    if a < b {
        year_step(b - 1);
        year_starts_grow(a, b - 1);
    }
}

proof fn inside_the_year(y: int, m: int, d: int)
    requires
        is_date(y, m, d),
    ensures
        year_start(y) <= day_number(y, m, d) < year_start(y + 1),
{
    month_starts(y);
    year_step(y);
    assert(m == 1 || m == 2 || m == 3 || m == 4 || m == 5 || m == 6 || m == 7 || m == 8 || m == 9
        || m == 10 || m == 11 || m == 12);
}

/// No two dates of the calendar are the same number of days away from
/// 1970-01-01: a day has one date.
pub proof fn date_is_unique(y1: int, m1: int, d1: int, y2: int, m2: int, d2: int)
    requires
        is_date(y1, m1, d1),
        is_date(y2, m2, d2),
        day_number(y1, m1, d1) == day_number(y2, m2, d2),
    ensures
        y1 == y2 && m1 == m2 && d1 == d2,
{
    inside_the_year(y1, m1, d1);
    inside_the_year(y2, m2, d2);
    if y1 < y2 {
        year_starts_grow(y1 + 1, y2);
    }
    if y2 < y1 {
        year_starts_grow(y2 + 1, y1);
    }
    if m1 < m2 {
        month_starts_grow(y1, m1, m2);
    }
    if m2 < m1 {
        month_starts_grow(y1, m2, m1);
    }
}

proof fn month_starts_grow(y: int, a: int, b: int)
    requires
        1 <= a < b <= 12,
    ensures
        month_start(y, a) + month_len(y, a) <= month_start(y, b),
    decreases b - a,
{
    if a + 1 < b {
        month_starts_grow(y, a, b - 1);
    }
}

/// Up to the last day of the year 9999 a year has at most four digits.
pub proof fn years_of_four_digits(y: int, m: int, d: int)
    requires
        is_date(y, m, d),
        day_number(y, m, d) <= 2_932_896,
    ensures
        y <= 9999,
{
    inside_the_year(y, m, d);
    if y >= 10_000 {
        year_starts_grow(10_000, y);
        year_start_formula(10_000);
    }
}

/// A day on or after 1970-01-01 has a year from 1970 on.
pub proof fn years_from_the_epoch(y: int, m: int, d: int)
    requires
        is_date(y, m, d),
        day_number(y, m, d) >= 0,
    ensures
        y >= 1970,
{
    inside_the_year(y, m, d);
    if y < 1970 {
        year_starts_grow(y + 1, 1970);
    }
}

/// The shortcut for the number of days up to a date: years counted from
/// March, so that the leap day comes last.
pub proof fn march_formula(y: int, m: int, d: int)
    requires
        1 <= m <= 12,
    ensures
        ({
            let y2 = if m <= 2 {
                y - 1
            } else {
                y
            };
            day_number(y, m, d) == (y2 / 400) * 146_097 + (y2 % 400) * 365 + (y2 % 400) / 4 - (y2
                % 400) / 100 + (153 * ((m + 9) % 12) + 2) / 5 + d - 1 - 719_468
        }),
{
    let y2 = if m <= 2 {
        y - 1
    } else {
        y
    };
    let era = y2 / 400;
    let yoe = y2 % 400;
    let c = yoe / 100;
    let q = yoe % 100 / 4;
    let a = yoe % 4;
    assert(yoe == 100 * c + 4 * q + a);
    assert(yoe / 4 == 25 * c + q);
    march_day(era, c, q, a);
    month_starts(y);
    year_step(y2);
    assert(m == 1 || m == 2 || m == 3 || m == 4 || m == 5 || m == 6 || m == 7 || m == 8 || m == 9
        || m == 10 || m == 11 || m == 12);
}

} // verus!
