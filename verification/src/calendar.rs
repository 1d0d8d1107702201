//! The proleptic Gregorian calendar from 1970 onward, as mathematics.
//!
//! Everything here is ghost code over unbounded integers. A [`CivilTime`] is
//! a six-field calendar reading; [`CivilTime::epoch_seconds`] says how many
//! seconds after 1970-01-01 00:00:00 it lies, and [`civil_at`] is its inverse.

use vstd::prelude::*;

verus! {

/// The Gregorian leap-year rule: every fourth year, except centuries that
/// are not multiples of 400.
pub open spec fn is_leap(year: int) -> bool {
    (year % 4 == 0 && year % 100 != 0) || year % 400 == 0
}

/// Number of days in `year`.
pub open spec fn year_length(year: int) -> int {
    if is_leap(year) {
        366
    } else {
        365
    }
}

/// Number of days in month `month` (1 = January) of `year`.
/// Meaningful only for `1 <= month <= 12`.
pub open spec fn month_length(month: int, year: int) -> int {
    if month == 2 {
        if is_leap(year) {
            29
        } else {
            28
        }
    } else if month == 4 || month == 6 || month == 9 || month == 11 {
        30
    } else {
        31
    }
}

/// Days from 1970-01-01 to the first day of `year`.
pub open spec fn days_before_year(year: int) -> int
    decreases year,
{
    if year <= 1970 {
        0
    } else {
        days_before_year(year - 1) + year_length(year - 1)
    }
}

/// Days from the first day of `year` to the first day of its month `month`.
pub open spec fn days_before_month(month: int, year: int) -> int
    decreases month,
{
    if month <= 1 {
        0
    } else {
        days_before_month(month - 1, year) + month_length(month - 1, year)
    }
}

/// A calendar reading: the mathematical value of a date-time.
pub ghost struct CivilTime {
    pub year: int,
    pub month: int,
    pub day: int,
    pub hour: int,
    pub minute: int,
    pub second: int,
}

impl CivilTime {
    /// The reading names a real point of the calendar at or after the epoch.
    pub open spec fn valid(self) -> bool {
        &&& self.year >= 1970
        &&& 1 <= self.month <= 12
        &&& 1 <= self.day <= month_length(self.month, self.year)
        &&& 0 <= self.hour < 24
        &&& 0 <= self.minute < 60
        &&& 0 <= self.second < 60
    }

    /// Whole days from 1970-01-01 to the reading's date.
    pub open spec fn epoch_days(self) -> int {
        days_before_year(self.year) + days_before_month(self.month, self.year) + self.day - 1
    }

    /// Seconds into the reading's day.
    pub open spec fn second_of_day(self) -> int {
        self.hour * 3600 + self.minute * 60 + self.second
    }

    /// Seconds from 1970-01-01 00:00:00 to the reading.
    pub open spec fn epoch_seconds(self) -> int {
        self.epoch_days() * 86400 + self.second_of_day()
    }

    /// Calendar order: year, then month, day, hour, minute and second.
    pub open spec fn earlier_than(self, other: CivilTime) -> bool {
        ||| self.year < other.year
        ||| self.year == other.year && self.month < other.month
        ||| self.year == other.year && self.month == other.month && self.day < other.day
        ||| self.year == other.year && self.month == other.month && self.day == other.day
            && self.hour < other.hour
        ||| self.year == other.year && self.month == other.month && self.day == other.day
            && self.hour == other.hour && self.minute < other.minute
        ||| self.year == other.year && self.month == other.month && self.day == other.day
            && self.hour == other.hour && self.minute == other.minute && self.second
            < other.second
    }

    /// `self` does not come after `other` in calendar order.
    pub open spec fn not_later_than(self, other: CivilTime) -> bool {
        self == other || self.earlier_than(other)
    }
}

/// The valid reading that lies `seconds` seconds after the epoch.
pub open spec fn civil_at(seconds: int) -> CivilTime {
    choose|c: CivilTime| c.valid() && c.epoch_seconds() == seconds
}

/// The start of a year in closed form: 365 days for each year since 1970,
/// and one more for each leap year among them. There are
/// `n / 4 - n / 100 + n / 400` leap years from year 1 to year `n`, and 477
/// of them up to 1969.
pub proof fn lemma_days_before_year_closed_form(year: int)
    requires
        year >= 1970,
    ensures
        days_before_year(year) == 365 * (year - 1970) + (year - 1) / 4 - (year - 1) / 100 + (year
            - 1) / 400 - 477,
    decreases year,
{
    if year > 1970 {
        lemma_days_before_year_closed_form(year - 1);
    }
}

/// A year from 1970 on starts between 365 and 366 days per year after the
/// epoch, and the next year starts when it has run its length.
pub proof fn lemma_days_before_year_bounds(year: int)
    requires
        year >= 1970,
    ensures
        365 * (year - 1970) <= days_before_year(year) <= 366 * (year - 1970),
        days_before_year(year + 1) == days_before_year(year) + year_length(year),
{
    lemma_days_before_year_closed_form(year);
}

/// Later years start later: the whole of `first` lies before the start of
/// any year after it.
pub proof fn lemma_days_before_year_increases(first: int, second: int)
    requires
        1970 <= first < second,
    ensures
        days_before_year(first) + year_length(first) <= days_before_year(second),
    decreases second,
{
    if first + 1 < second {
        lemma_days_before_year_increases(first, second - 1);
    }
}

/// The start of each month, counted in days from the start of its year.
/// The thirteenth entry is the length of the year.
pub proof fn lemma_days_before_month_table(year: int)
    ensures
        days_before_month(1, year) == 0,
        days_before_month(2, year) == 31,
        days_before_month(3, year) == year_length(year) - 306,
        days_before_month(4, year) == year_length(year) - 275,
        days_before_month(5, year) == year_length(year) - 245,
        days_before_month(6, year) == year_length(year) - 214,
        days_before_month(7, year) == year_length(year) - 184,
        days_before_month(8, year) == year_length(year) - 153,
        days_before_month(9, year) == year_length(year) - 122,
        days_before_month(10, year) == year_length(year) - 92,
        days_before_month(11, year) == year_length(year) - 61,
        days_before_month(12, year) == year_length(year) - 31,
        days_before_month(13, year) == year_length(year),
{
    reveal_with_fuel(days_before_month, 14);
}

/// Later months start later: the whole of month `first` lies before the
/// start of any later month of the same year.
pub proof fn lemma_days_before_month_increases(first: int, second: int, year: int)
    requires
        1 <= first < second <= 13,
    ensures
        days_before_month(first, year) + month_length(first, year) <= days_before_month(
            second,
            year,
        ),
    decreases second,
{
    if first + 1 < second {
        lemma_days_before_month_increases(first, second - 1, year);
    }
}

/// A valid reading lies inside its own year and inside its own day.
pub proof fn lemma_valid_ranges(c: CivilTime)
    requires
        c.valid(),
    ensures
        0 <= c.second_of_day() < 86400,
        days_before_year(c.year) <= c.epoch_days() < days_before_year(c.year) + year_length(
            c.year,
        ),
        days_before_month(c.month, c.year) <= c.epoch_days() - days_before_year(c.year)
            < days_before_month(c.month, c.year) + month_length(c.month, c.year),
        c.epoch_seconds() >= 0,
{
    lemma_days_before_month_table(c.year);
    lemma_days_before_year_bounds(c.year);
    if c.month < 12 {
        lemma_days_before_month_increases(c.month, 13, c.year);
    }
}

/// The calendar order agrees with the order of instants: a valid reading
/// that comes earlier in the calendar lies fewer seconds after the epoch.
pub proof fn lemma_earlier_has_fewer_seconds(a: CivilTime, b: CivilTime)
    requires
        a.valid(),
        b.valid(),
        a.earlier_than(b),
    ensures
        a.epoch_seconds() < b.epoch_seconds(),
{
    lemma_valid_ranges(a);
    lemma_valid_ranges(b);
    if a.year < b.year {
        lemma_days_before_year_increases(a.year, b.year);
        assert(a.epoch_days() < b.epoch_days());
    } else if a.month < b.month {
        lemma_days_before_month_increases(a.month, b.month, a.year);
        assert(a.epoch_days() < b.epoch_days());
    } else if a.day < b.day {
        assert(a.epoch_days() < b.epoch_days());
    } else {
        assert(a.epoch_days() == b.epoch_days());
        assert(a.second_of_day() < b.second_of_day());
    }
}

/// Any two readings are equal or one comes earlier than the other.
pub proof fn lemma_calendar_order_total(a: CivilTime, b: CivilTime)
    ensures
        a == b || a.earlier_than(b) || b.earlier_than(a),
{
}

/// Two valid readings that lie equally far after the epoch are the same
/// reading: an instant has one calendar representation.
pub proof fn lemma_reading_unique(a: CivilTime, b: CivilTime)
    requires
        a.valid(),
        b.valid(),
        a.epoch_seconds() == b.epoch_seconds(),
    ensures
        a == b,
{
    lemma_calendar_order_total(a, b);
    if a.earlier_than(b) {
        lemma_earlier_has_fewer_seconds(a, b);
    }
    if b.earlier_than(a) {
        lemma_earlier_has_fewer_seconds(b, a);
    }
}

/// Of two valid readings, the one that lies no more seconds after the epoch
/// does not come later in the calendar.
pub proof fn lemma_fewer_seconds_not_later(a: CivilTime, b: CivilTime)
    requires
        a.valid(),
        b.valid(),
        a.epoch_seconds() <= b.epoch_seconds(),
    ensures
        a.not_later_than(b),
        a.epoch_seconds() < b.epoch_seconds() ==> a.earlier_than(b),
{
    lemma_calendar_order_total(a, b);
    if b.earlier_than(a) {
        lemma_earlier_has_fewer_seconds(b, a);
    }
}

/// Finds, from `from` onward, the year that holds day number `days`.
proof fn lemma_year_holding_day(days: int, from: int) -> (year: int)
    requires
        from >= 1970,
        days_before_year(from) <= days,
    ensures
        year >= from,
        days_before_year(year) <= days < days_before_year(year) + year_length(year),
    decreases days - days_before_year(from),
{
    lemma_days_before_year_bounds(from);
    if days < days_before_year(from) + year_length(from) {
        from
    } else {
        lemma_year_holding_day(days, from + 1)
    }
}

/// Finds, from `from` onward, the month of `year` that holds the day lying
/// `day_of_year` days after the year's first.
proof fn lemma_month_holding_day(day_of_year: int, year: int, from: int) -> (month: int)
    requires
        1 <= from <= 12,
        days_before_month(from, year) <= day_of_year < year_length(year),
    ensures
        from <= month <= 12,
        days_before_month(month, year) <= day_of_year < days_before_month(month, year)
            + month_length(month, year),
    decreases 12 - from,
{
    lemma_days_before_month_table(year);
    if day_of_year < days_before_month(from, year) + month_length(from, year) {
        from
    } else {
        assert(days_before_month(from + 1, year) == days_before_month(from, year) + month_length(
            from,
            year,
        ));
        lemma_month_holding_day(day_of_year, year, from + 1)
    }
}

/// Every instant at or after the epoch has a calendar reading, and
/// [`civil_at`] is that reading.
pub proof fn lemma_civil_at(seconds: int)
    requires
        seconds >= 0,
    ensures
        civil_at(seconds).valid(),
        civil_at(seconds).epoch_seconds() == seconds,
{
    let days = seconds / 86400;
    let rest = seconds % 86400;
    let year = lemma_year_holding_day(days, 1970);
    let day_of_year = days - days_before_year(year);
    let month = lemma_month_holding_day(day_of_year, year, 1);
    let c = CivilTime {
        year,
        month,
        day: day_of_year - days_before_month(month, year) + 1,
        hour: rest / 3600,
        minute: (rest % 3600) / 60,
        second: rest % 60,
    };
    assert(c.valid());
    assert(c.epoch_days() == days);
    assert(c.second_of_day() == rest);
    assert(c.epoch_seconds() == seconds);
}

/// [`civil_at`] undoes [`CivilTime::epoch_seconds`] on valid readings.
pub proof fn lemma_civil_at_inverse(c: CivilTime)
    requires
        c.valid(),
    ensures
        civil_at(c.epoch_seconds()) == c,
{
    lemma_valid_ranges(c);
    lemma_civil_at(c.epoch_seconds());
    lemma_reading_unique(civil_at(c.epoch_seconds()), c);
}

/// Time does not run backwards on the calendar: the reading of an earlier
/// instant does not come after the reading of a later one.
pub proof fn lemma_civil_at_monotonic(first: int, second: int)
    requires
        0 <= first <= second,
    ensures
        civil_at(first).not_later_than(civil_at(second)),
        first < second ==> civil_at(first).earlier_than(civil_at(second)),
{
    lemma_civil_at(first);
    lemma_civil_at(second);
    lemma_fewer_seconds_not_later(civil_at(first), civil_at(second));
}


} // verus!
