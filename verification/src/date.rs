//! A calendar date in the proleptic Gregorian calendar, held as its day number.
use chrono::Datelike;
use vstd::prelude::*;

verus! {

/// The earliest year that a [`Date`] can hold.
pub const MIN_YEAR: i32 = -262143;

/// The latest year that a [`Date`] can hold.
pub const MAX_YEAR: i32 = 262142;

/// Day number of January 1st of [`MIN_YEAR`].
pub const MIN_DAY: i32 = -95746129;

/// Day number of December 31st of [`MAX_YEAR`].
pub const MAX_DAY: i32 = 95745399;

/// Day number of 1970-01-01, the day of unix time zero.
pub const UNIX_EPOCH_DAY: i32 = 719163;

/// Seconds in one day.
pub const SECONDS_PER_DAY: i64 = 86400;

pub open spec fn is_leap_year(y: int) -> bool {
    (y % 4 == 0 && y % 100 != 0) || y % 400 == 0
}

pub open spec fn days_in_month(y: int, m: int) -> int {
    if m == 2 {
        if is_leap_year(y) {
            29
        } else {
            28
        }
    } else if m == 4 || m == 6 || m == 9 || m == 11 {
        30
    } else {
        31
    }
}

/// Days of the months of year `y` that come before month `m`.
pub open spec fn days_before_month(y: int, m: int) -> int
    decreases m,
{
    if m <= 1 {
        0
    } else {
        days_before_month(y, m - 1) + days_in_month(y, m - 1)
    }
}

/// Days of all years from year 1 up to (not including) year `y`; negative before year 1.
pub open spec fn days_before_year(y: int) -> int {
    let p = y - 1;
    365 * p + p / 4 - p / 100 + p / 400
}

/// Whether year `y`, month `m` and day `d` name a day that a [`Date`] can hold.
pub open spec fn valid_ymd(y: int, m: int, d: int) -> bool {
    &&& MIN_YEAR <= y <= MAX_YEAR
    &&& 1 <= m <= 12
    &&& 1 <= d <= days_in_month(y, m)
}

/// The day number of a calendar day: 0001-01-01 is day 1, and each day adds one.
pub open spec fn ymd_to_day(y: int, m: int, d: int) -> int {
    days_before_year(y) + days_before_month(y, m) + d
}

/// The year, month and day of a day number.
pub open spec fn ymd_of(day: int) -> (int, int, int) {
    choose|t: (int, int, int)| valid_ymd(t.0, t.1, t.2) && ymd_to_day(t.0, t.1, t.2) == day
}

/// The calendar day `k` months after `t`, with the day clamped to the length of the new
/// month; its year may lie outside the range that a [`Date`] can hold.
pub open spec fn ymd_add_months(t: (int, int, int), k: int) -> (int, int, int) {
    let total = t.0 * 12 + (t.1 - 1) + k;
    let ny = total / 12;
    let nm = total % 12 + 1;
    let nd = if t.2 <= days_in_month(ny, nm) {
        t.2
    } else {
        days_in_month(ny, nm)
    };
    (ny, nm, nd)
}

/// The number of days of year `y`.
pub open spec fn days_in_year(y: int) -> int {
    if is_leap_year(y) {
        366
    } else {
        365
    }
}

/// Year `y + 1` begins `days_in_year(y)` days after year `y`.
#[verifier::spinoff_prover]
pub proof fn lemma_days_before_next_year(y: int)
    ensures
        days_before_year(y + 1) == days_before_year(y) + days_in_year(y),
{
    let p = y - 1;
    assert(y / 4 - p / 4 == if y % 4 == 0 { 1int } else { 0int });
    assert(y / 100 - p / 100 == if y % 100 == 0 { 1int } else { 0int });
    assert(y / 400 - p / 400 == if y % 400 == 0 { 1int } else { 0int });
}

/// The months of a year add up to the length of the year.
pub proof fn lemma_days_before_month_13(y: int)
    ensures
        days_before_month(y, 13) == days_in_year(y),
{
    reveal_with_fuel(days_before_month, 13);
}

/// Later months begin later in the year.
pub proof fn lemma_days_before_month_monotone(y: int, a: int, b: int)
    requires
        1 <= a <= b,
    ensures
        0 <= days_before_month(y, a) <= days_before_month(y, b),
    decreases b,
{
    if a < b {
        lemma_days_before_month_monotone(y, a, b - 1);
    } else if a > 1 {
        lemma_days_before_month_monotone(y, 1, a - 1);
    }
}

/// Later years begin later.
pub proof fn lemma_days_before_year_monotone(a: int, b: int)
    requires
        a <= b,
    ensures
        days_before_year(a) <= days_before_year(b),
    decreases b - a,
{
    if a < b {
        lemma_days_before_year_monotone(a, b - 1);
        lemma_days_before_next_year(b - 1);
    }
}

/// The day number of a valid calendar day lies within its year.
pub proof fn lemma_ymd_within_year(y: int, m: int, d: int)
    requires
        1 <= m <= 12,
        1 <= d <= days_in_month(y, m),
    ensures
        days_before_year(y) < ymd_to_day(y, m, d) <= days_before_year(y + 1),
{
    lemma_days_before_month_monotone(y, 1, m);
    lemma_days_before_month_monotone(y, m + 1, 13);
    lemma_days_before_month_13(y);
    lemma_days_before_next_year(y);
}

/// The day numbers of the valid calendar days are exactly those that a [`Date`] can hold.
pub proof fn lemma_ymd_in_range(y: int, m: int, d: int)
    requires
        valid_ymd(y, m, d),
    ensures
        MIN_DAY <= ymd_to_day(y, m, d) <= MAX_DAY,
{
    lemma_ymd_within_year(y, m, d);
    lemma_days_before_year_monotone(MIN_YEAR as int, y);
    lemma_days_before_year_monotone(y + 1, MAX_YEAR + 1);
}

/// Two valid calendar days with the same day number are the same day.
pub proof fn lemma_ymd_to_day_injective(a: (int, int, int), b: (int, int, int))
    requires
        valid_ymd(a.0, a.1, a.2),
        valid_ymd(b.0, b.1, b.2),
        ymd_to_day(a.0, a.1, a.2) == ymd_to_day(b.0, b.1, b.2),
    ensures
        a == b,
{
    lemma_ymd_within_year(a.0, a.1, a.2);
    lemma_ymd_within_year(b.0, b.1, b.2);
    if a.0 < b.0 {
        lemma_days_before_year_monotone(a.0 + 1, b.0);
    } else if b.0 < a.0 {
        lemma_days_before_year_monotone(b.0 + 1, a.0);
    } else if a.1 < b.1 {
        lemma_days_before_month_monotone(a.0, a.1 + 1, b.1);
    } else if b.1 < a.1 {
        lemma_days_before_month_monotone(a.0, b.1 + 1, a.1);
    }
}

/// Each day number that a [`Date`] can hold names a valid calendar day.
proof fn lemma_day_has_ymd(day: int) -> (t: (int, int, int))
    requires
        MIN_DAY <= day <= MAX_DAY,
    ensures
        valid_ymd(t.0, t.1, t.2),
        ymd_to_day(t.0, t.1, t.2) == day,
    decreases day - MIN_DAY,
{
    if day == MIN_DAY {
        (MIN_YEAR as int, 1, 1)
    } else {
        let (y, m, d) = lemma_day_has_ymd(day - 1);
        if d < days_in_month(y, m) {
            (y, m, d + 1)
        } else if m < 12 {
            (y, m + 1, 1)
        } else {
            lemma_days_before_month_13(y);
            lemma_days_before_next_year(y);
            lemma_days_before_month_13(MAX_YEAR as int);
            (y + 1, 1, 1)
        }
    }
}

/// The calendar day of a day number that a [`Date`] can hold is valid and has that day
/// number.
pub proof fn lemma_ymd_of(day: int)
    requires
        MIN_DAY <= day <= MAX_DAY,
    ensures
        valid_ymd(ymd_of(day).0, ymd_of(day).1, ymd_of(day).2),
        ymd_to_day(ymd_of(day).0, ymd_of(day).1, ymd_of(day).2) == day,
{
    let t = lemma_day_has_ymd(day);
    assert(valid_ymd(t.0, t.1, t.2) && ymd_to_day(t.0, t.1, t.2) == day);
}

/// The calendar day of the day number of a valid calendar day is that day.
pub proof fn lemma_ymd_of_ymd(y: int, m: int, d: int)
    requires
        valid_ymd(y, m, d),
    ensures
        ymd_of(ymd_to_day(y, m, d)) == (y, m, d),
{
    lemma_ymd_in_range(y, m, d);
    lemma_ymd_of(ymd_to_day(y, m, d));
    lemma_ymd_to_day_injective(ymd_of(ymd_to_day(y, m, d)), (y, m, d));
}

/// The days of a common year that come before month `m`.
spec fn common_days_before_month(m: int) -> int {
    if m <= 1 {
        0
    } else if m == 2 {
        31
    } else if m == 3 {
        59
    } else if m == 4 {
        90
    } else if m == 5 {
        120
    } else if m == 6 {
        151
    } else if m == 7 {
        181
    } else if m == 8 {
        212
    } else if m == 9 {
        243
    } else if m == 10 {
        273
    } else if m == 11 {
        304
    } else {
        334
    }
}

proof fn lemma_days_before_month_value(y: int, m: int)
    requires
        1 <= m <= 12,
    ensures
        days_before_month(y, m) == common_days_before_month(m) + if is_leap_year(y) && m > 2 {
            1int
        } else {
            0int
        },
{
    reveal_with_fuel(days_before_month, 12);
}

/// Divisibility by 4, 100 and 400 is kept by a shift of whole 400-year cycles.
#[verifier::spinoff_prover]
proof fn lemma_leap_shifted(y: int)
    ensures
        is_leap_year(y) == (((y + 262400) % 4 == 0 && (y + 262400) % 100 != 0) || (y
            + 262400) % 400 == 0),
{
}

#[verifier::spinoff_prover]
proof fn lemma_days_before_year_shifted(y: int)
    ensures
        days_before_year(y) == 365 * (y - 1) + (y - 1 + 262400) / 4 - (y - 1 + 262400) / 100 + (y
            - 1 + 262400) / 400 - 63632,
{
    let p = y - 1;
    assert((p + 262400) / 4 == p / 4 + 65600);
    assert((p + 262400) / 100 == p / 100 + 2624);
    assert((p + 262400) / 400 == p / 400 + 656);
}

/// A day of the proleptic Gregorian calendar between the years [`MIN_YEAR`] and
/// [`MAX_YEAR`], held as its day number (0001-01-01 is day 1).
#[derive(Debug, Clone, Copy, PartialEq, Eq, Structural, Hash)]
pub struct Date {
    days: i32,
}

impl Date {
    #[verifier::type_invariant]
    pub closed spec fn in_range(self) -> bool {
        MIN_DAY <= self.days <= MAX_DAY
    }

    /// The day number of the date.
    pub closed spec fn day_number(self) -> int {
        self.days as int
    }

    /// Two dates are equal exactly when their day numbers are.
    pub broadcast proof fn lemma_day_number_injective(a: Date, b: Date)
        ensures
            #![trigger a.day_number(), b.day_number()]
            a.day_number() == b.day_number() <==> a == b,
    {
    }

    /// A date whose day number lies from the earliest to the latest day is in range.
    pub proof fn lemma_in_range(self)
        requires
            MIN_DAY <= self.day_number() <= MAX_DAY,
        ensures
            self.in_range(),
    {
    }

    /// The day number of the date (0001-01-01 is day 1).
    pub fn days_from_ce(&self) -> (r: i32)
        ensures
            r == self.day_number(),
            MIN_DAY <= r <= MAX_DAY,
    {
        proof {
            use_type_invariant(self);
        }
        self.days
    }

    /// The date with day number `days`, if a date can hold it.
    pub fn from_days_from_ce(days: i32) -> (r: Option<Date>)
        ensures
            r is Some <==> MIN_DAY <= days <= MAX_DAY,
            r matches Some(d) ==> d.day_number() == days,
    {
        if MIN_DAY <= days && days <= MAX_DAY {
            Some(Date { days })
        } else {
            None
        }
    }

    /// The latest date, December 31st of [`MAX_YEAR`].
    pub fn max() -> (r: Date)
        ensures
            r.day_number() == MAX_DAY,
    {
        Date { days: MAX_DAY }
    }

    /// Whether `self` is at or before `other`.
    pub fn is_at_or_before(&self, other: &Date) -> (r: bool)
        ensures
            r == (self.day_number() <= other.day_number()),
    {
        self.days <= other.days
    }

    /// Whether `self` is before `other`.
    pub fn is_before(&self, other: &Date) -> (r: bool)
        ensures
            r == (self.day_number() < other.day_number()),
    {
        self.days < other.days
    }

    /// The date of year `year`, month `month` and day `day`, if it exists: exactly for the
    /// valid calendar days of the years [`MIN_YEAR`] to [`MAX_YEAR`].
    pub fn from_ymd_opt(year: i32, month: u32, day: u32) -> (r: Option<Date>)
        ensures
            r is Some <==> valid_ymd(year as int, month as int, day as int),
            r matches Some(d) ==> d.day_number() == ymd_to_day(
                year as int,
                month as int,
                day as int,
            ),
    {
        if year < MIN_YEAR || year > MAX_YEAR || month < 1 || month > 12 || day < 1 {
            return None;
        }
        // A shift by whole 400-year cycles keeps divisibility and makes the year positive.
        let shifted: i64 = year as i64 + 262400;
        let leap: bool = (shifted % 4 == 0 && shifted % 100 != 0) || shifted % 400 == 0;
        proof {
            lemma_leap_shifted(year as int);
        }
        let month_days: u32 = if month == 2 {
            if leap {
                29
            } else {
                28
            }
        } else if month == 4 || month == 6 || month == 9 || month == 11 {
            30
        } else {
            31
        };
        if day > month_days {
            return None;
        }
        let common: i64 = match month {
            1 => 0,
            2 => 31,
            3 => 59,
            4 => 90,
            5 => 120,
            6 => 151,
            7 => 181,
            8 => 212,
            9 => 243,
            10 => 273,
            11 => 304,
            _ => 334,
        };
        let before_month: i64 = if leap && month > 2 {
            common + 1
        } else {
            common
        };
        proof {
            lemma_days_before_month_value(year as int, month as int);
        }
        let p: i64 = year as i64 - 1;
        let q: i64 = p + 262400;
        let before_year: i64 = 365 * p + q / 4 - q / 100 + q / 400 - 63632;
        proof {
            lemma_days_before_year_shifted(year as int);
            lemma_ymd_in_range(year as int, month as int, day as int);
        }
        let days: i64 = before_year + before_month + day as i64;
        Some(Date { days: days as i32 })
    }

    /// The calendar day of the date.
    pub open spec fn ymd(self) -> (int, int, int) {
        ymd_of(self.day_number())
    }

    /// The calendar day of a date is valid and has the date's day number.
    /// (Call `use_type_invariant` on the date first.)
    pub proof fn lemma_ymd(self)
        requires
            self.in_range(),
        ensures
            MIN_DAY <= self.day_number() <= MAX_DAY,
            valid_ymd(self.ymd().0, self.ymd().1, self.ymd().2),
            ymd_to_day(self.ymd().0, self.ymd().1, self.ymd().2) == self.day_number(),
    {
        lemma_ymd_of(self.day_number());
    }

    /// The date `months` months after `self`, its day clamped to the length of the new
    /// month, if a date can hold it.
    /// Calls `chrono::NaiveDate::checked_add_months`, which moves the year and month on and
    /// keeps the day unless the new month is shorter, and refuses years past [`MAX_YEAR`].
    #[verifier::external_body]
    pub(crate) fn checked_add_months(&self, months: u32) -> (r: Option<Date>)
        ensures
            r is Some <==> ymd_add_months(self.ymd(), months as int).0 <= MAX_YEAR,
            r matches Some(d) ==> d.day_number() == ({
                let t = ymd_add_months(self.ymd(), months as int);
                ymd_to_day(t.0, t.1, t.2)
            }),
    {
        let date = chrono::NaiveDate::from_num_days_from_ce_opt(self.days).unwrap();
        match date.checked_add_months(chrono::Months::new(months)) {
            Some(d) => Some(Date { days: d.num_days_from_ce() }),
            None => None,
        }
    }

    /// The date in the same year and month as `self` on day `day`, if that day exists.
    /// Calls `chrono::Datelike::with_day` of `chrono::NaiveDate`.
    #[verifier::external_body]
    pub(crate) fn with_day(&self, day: u32) -> (r: Option<Date>)
        ensures
            r is Some <==> 1 <= day <= days_in_month(self.ymd().0, self.ymd().1),
            r matches Some(d) ==> d.day_number() == ymd_to_day(
                self.ymd().0,
                self.ymd().1,
                day as int,
            ),
    {
        let date = chrono::NaiveDate::from_num_days_from_ce_opt(self.days).unwrap();
        match date.with_day(day) {
            Some(d) => Some(Date { days: d.num_days_from_ce() }),
            None => None,
        }
    }

    /// The UTC date of the unix time `secs` (seconds since 1970-01-01 00:00:00 UTC), if a
    /// date can hold it.
    /// Calls `chrono::DateTime::from_timestamp` and takes the date of the result: the day
    /// number is `secs` divided by the seconds of a day, rounded down, after the unix epoch.
    #[verifier::external_body]
    pub(crate) fn from_timestamp(secs: i64) -> (r: Option<Date>)
        ensures
            r is Some <==> MIN_DAY <= secs / SECONDS_PER_DAY + UNIX_EPOCH_DAY <= MAX_DAY,
            r matches Some(d) ==> d.day_number() == secs / SECONDS_PER_DAY + UNIX_EPOCH_DAY,
    {
        match chrono::DateTime::from_timestamp(secs, 0) {
            Some(d) => Some(Date { days: d.date_naive().num_days_from_ce() }),
            None => None,
        }
    }

    /// The date `days` days after `self`, if a date can hold it.
    /// Calls `chrono::NaiveDate::checked_add_days`, which refuses more than `i32::MAX`
    /// days and results past the latest date.
    #[verifier::external_body]
    pub(crate) fn checked_add_days(&self, days: u64) -> (r: Option<Date>)
        ensures
            r is Some <==> (days <= i32::MAX && self.day_number() + days <= MAX_DAY),
            r matches Some(d) ==> d.day_number() == self.day_number() + days,
    {
        let date = chrono::NaiveDate::from_num_days_from_ce_opt(self.days).unwrap();
        match date.checked_add_days(chrono::Days::new(days)) {
            Some(d) => Some(Date { days: d.num_days_from_ce() }),
            None => None,
        }
    }

    /// The date `days` days before `self`, if a date can hold it.
    /// Calls `chrono::NaiveDate::checked_sub_days`, which refuses more than `i32::MAX`
    /// days and results before the earliest date.
    #[verifier::external_body]
    pub(crate) fn checked_sub_days(&self, days: u64) -> (r: Option<Date>)
        ensures
            r is Some <==> (days <= i32::MAX && self.day_number() - days >= MIN_DAY),
            r matches Some(d) ==> d.day_number() == self.day_number() - days,
    {
        let date = chrono::NaiveDate::from_num_days_from_ce_opt(self.days).unwrap();
        match date.checked_sub_days(chrono::Days::new(days)) {
            Some(d) => Some(Date { days: d.num_days_from_ce() }),
            None => None,
        }
    }

}

impl Default for Date {
    /// 1970-01-01, the day of unix time zero.
    fn default() -> (r: Date)
        ensures
            r.day_number() == UNIX_EPOCH_DAY,
    {
        Date { days: UNIX_EPOCH_DAY }
    }
}

/// The first day of month `month` of year `year`, and the same day of the month after, if both
/// are dates.
pub fn cohort_bounds(year: i32, month: u32) -> (r: Option<(Date, Date)>)
    ensures
        r is Some <==> valid_ymd(year as int, month as int, 1) && ymd_add_months(
            (year as int, month as int, 1),
            1,
        ).0 <= MAX_YEAR,
        r matches Some((s, e)) ==> s.day_number() == ymd_to_day(year as int, month as int, 1)
            && e.day_number() == ({
            let t = ymd_add_months((year as int, month as int, 1), 1);
            ymd_to_day(t.0, t.1, t.2)
        }),
{
    let start = match Date::from_ymd_opt(year, month, 1) {
        Some(d) => d,
        None => {
            return None;
        },
    };
    proof {
        use_type_invariant(&start);
        start.lemma_ymd();
        lemma_ymd_of_ymd(year as int, month as int, 1);
    }
    match start.checked_add_months(1) {
        Some(end) => Some((start, end)),
        None => None,
    }
}

} // verus!
