//! Calendar dates as day numbers of the proleptic Gregorian calendar, and the
//! trading calendar that skips weekends.

use chrono::{Datelike, Months, NaiveDate};
use vstd::prelude::*;

verus! {

/// Day number of the earliest date that can be represented.
pub const MIN_DAY: i32 = -95_746_129;

/// Day number of the latest date that can be represented.
pub const MAX_DAY: i32 = 95_745_399;

/// Whether `days` is the day number of a representable date.
pub open spec fn in_range(days: int) -> bool {
    MIN_DAY <= days <= MAX_DAY
}

/// A day of the week.
#[derive(Clone, Copy, Debug, PartialEq, Eq, Structural)]
pub enum Weekday {
    Mon,
    Tue,
    Wed,
    Thu,
    Fri,
    Sat,
    Sun,
}

/// The day of the week of the date with day number `days`. Day 1 is
/// January 1 of year 1, a Monday.
pub open spec fn weekday_of(days: int) -> Weekday {
    let r = (days - 1) % 7;
    if r == 0 {
        Weekday::Mon
    } else if r == 1 {
        Weekday::Tue
    } else if r == 2 {
        Weekday::Wed
    } else if r == 3 {
        Weekday::Thu
    } else if r == 4 {
        Weekday::Fri
    } else if r == 5 {
        Weekday::Sat
    } else {
        Weekday::Sun
    }
}

/// The first day after `days` that is neither a Saturday nor a Sunday.
pub open spec fn next_trading_day(days: int) -> int {
    let next = days + 1;
    match weekday_of(next) {
        Weekday::Sat => next + 2,
        Weekday::Sun => next + 1,
        _ => next,
    }
}

/// The year of the date with day number `days`, as `chrono` counts it.
pub uninterp spec fn civil_year(days: int) -> int;

/// The month, from 1 to 12, of the date with day number `days`, as `chrono`
/// counts it.
pub uninterp spec fn civil_month(days: int) -> int;

/// The day number of the date with the given year, month and day of the
/// month, as `chrono` counts it; `None` where no such date can be represented.
pub uninterp spec fn civil_days(year: int, month: int, day: int) -> Option<int>;

/// The day number reached from `days` by going `months` months ahead, as
/// `chrono` counts it; `None` where that date cannot be represented.
pub uninterp spec fn months_later(days: int, months: int) -> Option<int>;

/// Whether the day `later` lies in the month that comes `months` calendar
/// months after the month of the day `days`.
pub open spec fn is_months_later(days: int, months: int, later: int) -> bool {
    civil_year(later) * 12 + civil_month(later) == civil_year(days) * 12 + civil_month(days)
        + months
}

/// `Datelike::year` of the `NaiveDate` with the given day number. The result
/// is named, nothing more is claimed of it.
#[verifier::external_body]
fn year_of_day(days: i32) -> (r: i32)
    requires
        in_range(days as int),
    ensures
        r == civil_year(days as int),
{
    NaiveDate::from_num_days_from_ce_opt(days).unwrap().year()
}

/// `Datelike::month` of the `NaiveDate` with the given day number. The result
/// is named; as documented it lies between 1 and 12.
#[verifier::external_body]
fn month_of_day(days: i32) -> (r: u32)
    requires
        in_range(days as int),
    ensures
        r == civil_month(days as int),
        1 <= r <= 12,
{
    NaiveDate::from_num_days_from_ce_opt(days).unwrap().month()
}

/// `NaiveDate::from_ymd_opt`, with the date handed back as its day number
/// (`Datelike::num_days_from_ce`). The result is named; a date that comes back
/// is one that `NaiveDate` can hold, so its day number is in range.
#[verifier::external_body]
fn day_of_civil(year: i32, month: u32, day: u32) -> (r: Option<i32>)
    ensures
        r is Some <==> civil_days(year as int, month as int, day as int) is Some,
        r matches Some(d) ==> civil_days(year as int, month as int, day as int) == Some(d as int)
            && in_range(d as int),
{
    NaiveDate::from_ymd_opt(year, month, day).map(|date| date.num_days_from_ce())
}

/// `NaiveDate::checked_add_months` on the date with the given day number,
/// with the date handed back as its day number. The result is named. The
/// function moves to the same day, or the last one, of the month that lies
/// `months` months ahead, counting twelve months to the year: with no months
/// the date stays, with one or more the result is a later date.
#[verifier::external_body]
fn day_months_later(days: i32, months: u32) -> (r: Option<i32>)
    requires
        in_range(days as int),
    ensures
        r is Some <==> months_later(days as int, months as int) is Some,
        r matches Some(d) ==> months_later(days as int, months as int) == Some(d as int)
            && in_range(d as int) && (months == 0 ==> d == days) && (months > 0 ==> d > days)
            && is_months_later(days as int, months as int, d as int),
{
    NaiveDate::from_num_days_from_ce_opt(days).unwrap().checked_add_months(
        Months::new(months),
    ).map(|date| date.num_days_from_ce())
}

/// A calendar date, held as its day number: January 1 of year 1 is day 1.
#[derive(Clone, Copy, Debug, PartialEq, Eq, Structural)]
pub struct Date {
    days: i32,
}

impl View for Date {
    type V = int;

    closed spec fn view(&self) -> int {
        self.days as int
    }
}

/// The date with the day number `days`.
pub closed spec fn date_of(days: int) -> Date {
    Date { days: days as i32 }
}

/// A date is known by its day number: `date_of` undoes the view.
pub broadcast proof fn lemma_date_of_view(date: Date)
    ensures
        #[trigger] date_of(date@) == date,
{
}

/// The view undoes `date_of` on every day number that a 32-bit integer
/// holds, so on every one in range.
pub broadcast proof fn lemma_view_of_date(days: int)
    requires
        i32::MIN <= days <= i32::MAX,
    ensures
        #[trigger] date_of(days)@ == days,
{
}

impl Date {
    #[verifier::type_invariant]
    spec fn representable(self) -> bool {
        in_range(self.days as int)
    }

    /// The date with the given day number, if there is one.
    pub fn from_num_days_from_ce_opt(days: i32) -> (r: Option<Date>)
        ensures
            r is Some <==> in_range(days as int),
            r matches Some(d) ==> d@ == days,
    {
        if MIN_DAY <= days && days <= MAX_DAY {
            Some(Date { days })
        } else {
            None
        }
    }

    /// The date with the given year, month (from 1) and day of the month (from
    /// 1), if there is one.
    pub fn from_ymd_opt(year: i32, month: u32, day: u32) -> (r: Option<Date>)
        ensures
            r is Some <==> civil_days(year as int, month as int, day as int) is Some,
            r matches Some(d) ==> civil_days(year as int, month as int, day as int) == Some(d@),
    {
        match day_of_civil(year, month, day) {
            Some(days) => Some(Date { days }),
            None => None,
        }
    }

    /// The earliest date that can be represented.
    pub fn min_value() -> (r: Date)
        ensures
            r@ == MIN_DAY,
    {
        Date { days: MIN_DAY }
    }

    /// The latest date that can be represented.
    pub fn max_value() -> (r: Date)
        ensures
            r@ == MAX_DAY,
    {
        Date { days: MAX_DAY }
    }

    /// The day number of this date.
    pub fn num_days_from_ce(&self) -> (r: i32)
        ensures
            r == self@,
            in_range(r as int),
    {
        proof {
            use_type_invariant(self);
        }
        self.days
    }

    /// The day of the week.
    pub fn weekday(&self) -> (r: Weekday)
        ensures
            r == weekday_of(self@),
    {
        proof {
            use_type_invariant(self);
        }
        let shifted: u32 = (self.days - MIN_DAY) as u32;
        let r: u32 = (shifted + 3) % 7;
        if r == 0 {
            Weekday::Mon
        } else if r == 1 {
            Weekday::Tue
        } else if r == 2 {
            Weekday::Wed
        } else if r == 3 {
            Weekday::Thu
        } else if r == 4 {
            Weekday::Fri
        } else if r == 5 {
            Weekday::Sat
        } else {
            Weekday::Sun
        }
    }

    /// The year.
    pub fn year(&self) -> (r: i32)
        ensures
            r == civil_year(self@),
    {
        proof {
            use_type_invariant(self);
        }
        year_of_day(self.days)
    }

    /// The month, from 1 to 12.
    pub fn month(&self) -> (r: u32)
        ensures
            r == civil_month(self@),
            1 <= r <= 12,
    {
        proof {
            use_type_invariant(self);
        }
        month_of_day(self.days)
    }

    /// The month, from 0 to 11.
    pub fn month0(&self) -> (r: u32)
        ensures
            r == civil_month(self@) - 1,
            r <= 11,
    {
        self.month() - 1
    }

    /// The next calendar date; `None` after the last one.
    pub fn succ_opt(&self) -> (r: Option<Date>)
        ensures
            r is Some <==> self@ < MAX_DAY,
            r matches Some(d) ==> d@ == self@ + 1,
    {
        proof {
            use_type_invariant(self);
        }
        if self.days < MAX_DAY {
            Some(Date { days: self.days + 1 })
        } else {
            None
        }
    }

    /// The date `days` days later; `None` where it cannot be represented.
    pub fn checked_add_days(&self, days: u64) -> (r: Option<Date>)
        ensures
            r is Some <==> self@ + days <= MAX_DAY,
            r matches Some(d) ==> d@ == self@ + days,
    {
        proof {
            use_type_invariant(self);
        }
        let room: u64 = (MAX_DAY as i64 - self.days as i64) as u64;
        if days <= room {
            Some(Date { days: (self.days as i64 + days as i64) as i32 })
        } else {
            None
        }
    }

    /// The date `months` months later, on the same day of the month or on the
    /// month's last day if it is shorter; `None` where it cannot be
    /// represented.
    pub fn checked_add_months(&self, months: u32) -> (r: Option<Date>)
        ensures
            r is Some <==> months_later(self@, months as int) is Some,
            r matches Some(d) ==> months_later(self@, months as int) == Some(d@) && (months == 0
                ==> d@ == self@) && (months > 0 ==> d@ > self@) && is_months_later(
                self@,
                months as int,
                d@,
            ),
    {
        proof {
            use_type_invariant(self);
        }
        match day_months_later(self.days, months) {
            Some(days) => Some(Date { days }),
            None => None,
        }
    }

    /// The first date after this one that falls on neither a Saturday nor a
    /// Sunday; `None` where it cannot be represented.
    pub fn next_trading_day(&self) -> (r: Option<Date>)
        ensures
            r is Some <==> in_range(next_trading_day(self@)),
            r matches Some(d) ==> d@ == next_trading_day(self@),
    {
        let next = match self.succ_opt() {
            Some(next) => next,
            None => {
                return None;
            },
        };
        proof {
            use_type_invariant(self);
            use_type_invariant(&next);
        }
        match next.weekday() {
            Weekday::Sat => next.checked_add_days(2),
            Weekday::Sun => next.checked_add_days(1),
            _ => Some(next),
        }
    }

    /// Whether this date lies before `other`.
    pub fn is_before(&self, other: &Date) -> (r: bool)
        ensures
            r == (self@ < other@),
    {
        self.days < other.days
    }

    /// Whether the two dates are the same day.
    pub fn is_same(&self, other: &Date) -> (r: bool)
        ensures
            r == (self@ == other@),
            r == (*self == *other),
    {
        self.days == other.days
    }
}

/// The trading calendar moves from a Friday to the Monday that follows it,
/// from a Saturday to that same Monday, and from any other day to the next
/// calendar day. It always moves forward, and never onto a weekend.
pub proof fn lemma_next_trading_day(days: int)
    ensures
        next_trading_day(days) > days,
        weekday_of(days) == Weekday::Fri ==> next_trading_day(days) == days + 3 && weekday_of(
            next_trading_day(days),
        ) == Weekday::Mon,
        weekday_of(days) == Weekday::Sat ==> next_trading_day(days) == days + 2,
        weekday_of(days) != Weekday::Fri && weekday_of(days) != Weekday::Sat ==> next_trading_day(
            days,
        ) == days + 1,
        weekday_of(next_trading_day(days)) != Weekday::Sat,
        weekday_of(next_trading_day(days)) != Weekday::Sun,
{
}

} // verus!
