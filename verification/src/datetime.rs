//! The executable date-time type and its operations.

use crate::calendar::{
    civil_at, days_before_month, days_before_year, is_leap, lemma_civil_at,
    lemma_civil_at_inverse, lemma_civil_at_monotonic, lemma_days_before_month_table,
    lemma_days_before_year_bounds, lemma_valid_ranges, month_length, year_length, CivilTime,
};
use crate::clock::duration_since_epoch;
use crate::text::{display_text, push_decimal, push_two_digits};
use std::time::SystemTime;
use vstd::prelude::*;
use vstd::string::StringExecFns;

verus! {

/// Why an operation of this module failed.
#[derive(Debug, Clone, Copy, PartialEq, Eq, Structural)]
pub enum DateTimeError {
    /// The timestamp, once the UTC offset is applied, lies before the epoch.
    /// Carries the adjusted count of seconds, which is negative.
    InvalidTimestamp { adjusted_seconds: i128 },
    /// A month number outside 1..=12 was given. Carries that number.
    InvalidMonth { month: u64 },
    /// The host clock reported a time before the epoch.
    ClockError,
}

impl DateTimeError {
    /// The text of [`DateTimeError::message`].
    pub open spec fn message_text(self) -> Seq<char> {
        match self {
            DateTimeError::InvalidTimestamp { .. } => {
                "Некорректная временная метка после учета смещения UTC."@
            },
            DateTimeError::InvalidMonth { .. } => "Неверный номер месяца"@,
            DateTimeError::ClockError => "second time provided was later than self"@,
        }
    }

    /// A description of the error for people to read.
    pub fn message(&self) -> (text: String)
        ensures
            text@ == self.message_text(),
    {
        match self {
            DateTimeError::InvalidTimestamp { .. } => {
                "Некорректная временная метка после учета смещения UTC.".to_owned()
            },
            DateTimeError::InvalidMonth { .. } => "Неверный номер месяца".to_owned(),
            DateTimeError::ClockError => "second time provided was later than self".to_owned(),
        }
    }
}

/// A calendar date and time of day.
///
/// The fields are plain numbers; a value `d` names a real point of the
/// calendar at or after 1970-01-01 00:00:00 exactly when `d@.valid()`, and
/// every date-time that this module returns does.
#[derive(Debug, Clone, Copy, PartialEq, Eq, Structural)]
pub struct AxDateTime {
    pub year: u64,
    pub month: u64,
    pub day: u64,
    pub hour: u64,
    pub minute: u64,
    pub second: u64,
}

impl View for AxDateTime {
    type V = CivilTime;

    open spec fn view(&self) -> CivilTime {
        CivilTime {
            year: self.year as int,
            month: self.month as int,
            day: self.day as int,
            hour: self.hour as int,
            minute: self.minute as int,
            second: self.second as int,
        }
    }
}

pub const SECONDS_PER_HOUR: u64 = 3600;

/// The instant that `timestamp` names once `utc_offset_hours` hours are
/// added to it, in seconds after the epoch. Negative where the offset
/// reaches back before the epoch.
pub open spec fn adjusted_seconds(timestamp: u64, utc_offset_hours: i64) -> int {
    timestamp as int + utc_offset_hours as int * SECONDS_PER_HOUR as int
}

impl AxDateTime {
    /// The date-time whose fields are those of the reading `c`.
    pub open spec fn of_reading(c: CivilTime) -> AxDateTime {
        AxDateTime {
            year: c.year as u64,
            month: c.month as u64,
            day: c.day as u64,
            hour: c.hour as u64,
            minute: c.minute as u64,
            second: c.second as u64,
        }
    }

    /// What [`AxDateTime::from_timestamp`] returns, as a function of its
    /// arguments.
    pub open spec fn spec_from_timestamp(timestamp: u64, utc_offset_hours: i64) -> Result<
        AxDateTime,
        DateTimeError,
    > {
        let adjusted = adjusted_seconds(timestamp, utc_offset_hours);
        if adjusted < 0 {
            Err(DateTimeError::InvalidTimestamp { adjusted_seconds: adjusted as i128 })
        } else {
            Ok(Self::of_reading(civil_at(adjusted)))
        }
    }

    /// Decodes a Unix timestamp, shifted by a UTC offset in whole hours,
    /// into its calendar date and time of day.
    ///
    /// Fails exactly when the shifted instant lies before the epoch.
    /// Otherwise the result is the one valid calendar reading of that
    /// instant; being a function of the arguments alone, two calls on the
    /// same arguments agree.
    pub fn from_timestamp(timestamp: u64, utc_offset_hours: i64) -> (result: Result<
        AxDateTime,
        DateTimeError,
    >)
        ensures
            result == Self::spec_from_timestamp(timestamp, utc_offset_hours),
            result is Ok <==> adjusted_seconds(timestamp, utc_offset_hours) >= 0,
            result matches Ok(date_time) ==> date_time@.valid() && date_time@.epoch_seconds()
                == adjusted_seconds(timestamp, utc_offset_hours),
    {
        let seconds_offset: i128 = utc_offset_hours as i128 * SECONDS_PER_HOUR as i128;
        let adjusted_timestamp: i128 = timestamp as i128 + seconds_offset;

        if adjusted_timestamp < 0 {
            return Err(DateTimeError::InvalidTimestamp { adjusted_seconds: adjusted_timestamp });
        }
        let mut remaining_seconds: u128 = adjusted_timestamp as u128;

        let second: u64 = (remaining_seconds % 60) as u64;
        remaining_seconds = remaining_seconds / 60;

        let minute: u64 = (remaining_seconds % 60) as u64;
        remaining_seconds = remaining_seconds / 60;

        let hour: u64 = (remaining_seconds % 24) as u64;
        remaining_seconds = remaining_seconds / 24;

        assert(remaining_seconds < 0x1000_0000_0000_0000);
        let total_days: u64 = remaining_seconds as u64;
        assert(total_days * 86400 + hour * 3600 + minute * 60 + second == adjusted_timestamp);

        let mut year: u64 = 1970;
        let mut days_passed: u64 = 0;

        while days_passed <= total_days
            invariant
                total_days < 0x1000_0000_0000_0000,
                year >= 1970,
                days_passed == days_before_year(year as int),
                365 * (year - 1970) <= days_passed <= total_days,
            ensures
                year >= 1970,
                days_passed == days_before_year(year as int),
                days_passed <= total_days < days_passed + year_length(year as int),
            decreases total_days - days_passed,
        {
            let days_in_current_year: u64 = if Self::is_leap_year(year) {
                366
            } else {
                365
            };
            if days_passed + days_in_current_year > total_days {
                break ;
            }
            proof {
                lemma_days_before_year_bounds(year as int);
            }
            days_passed += days_in_current_year;
            year += 1;
        }

        let remaining_days_in_year: u64 = total_days - days_passed;

        let mut month: u64 = 1;
        let mut days_left: u64 = remaining_days_in_year;

        loop
            invariant
                1 <= month <= 12,
                remaining_days_in_year < year_length(year as int),
                days_left + days_before_month(month as int, year as int)
                    == remaining_days_in_year,
            ensures
                1 <= month <= 12,
                days_left + days_before_month(month as int, year as int)
                    == remaining_days_in_year,
                days_left < month_length(month as int, year as int),
            decreases 12 - month,
        {
            // `month` stays within 1..=12, so the lookup cannot fail; the
            // failure is handed on all the same, should the loop ever change.
            let days_in_current_month: u64 = match Self::days_in_month(month, year) {
                Ok(days) => days,
                Err(error) => {
                    return Err(error);
                },
            };
            if days_left < days_in_current_month {
                break ;
            }
            proof {
                lemma_days_before_month_table(year as int);
                assert(days_before_month(month + 1, year as int) == days_before_month(
                    month as int,
                    year as int,
                ) + month_length(month as int, year as int));
            }
            days_left -= days_in_current_month;
            month += 1;
        }

        let day: u64 = days_left + 1;

        let date_time = AxDateTime { second, minute, hour, day, month, year };
        proof {
            assert(date_time@.epoch_days() == total_days);
            assert(date_time@.second_of_day() == hour * 3600 + minute * 60 + second);
            lemma_civil_at_inverse(date_time@);
        }
        Ok(date_time)
    }

    /// What [`AxDateTime::from_clock_reading`] returns, as a function of its
    /// arguments.
    pub open spec fn spec_from_clock_reading(
        seconds_since_epoch: Option<u64>,
        utc_offset_hours: i64,
    ) -> Result<AxDateTime, DateTimeError> {
        match seconds_since_epoch {
            Some(timestamp) => Self::spec_from_timestamp(timestamp, utc_offset_hours),
            None => Err(DateTimeError::ClockError),
        }
    }

    /// Turns a reading of the clock into a date-time under the given UTC
    /// offset. The reading is the count of whole seconds since the epoch, or
    /// `None` where the clock stood before the epoch.
    ///
    /// A missing reading gives `ClockError`; a present one is decoded as
    /// [`AxDateTime::from_timestamp`] decodes it.
    pub fn from_clock_reading(seconds_since_epoch: Option<u64>, utc_offset_hours: i64) -> (result:
        Result<AxDateTime, DateTimeError>)
        ensures
            result == Self::spec_from_clock_reading(seconds_since_epoch, utc_offset_hours),
            result is Ok <==> (seconds_since_epoch matches Some(timestamp) && adjusted_seconds(
                timestamp,
                utc_offset_hours,
            ) >= 0),
            result matches Ok(date_time) ==> (seconds_since_epoch matches Some(timestamp)
                && date_time@.valid() && date_time@.epoch_seconds() == adjusted_seconds(
                timestamp,
                utc_offset_hours,
            )),
    {
        match seconds_since_epoch {
            Some(timestamp) => Self::from_timestamp(timestamp, utc_offset_hours),
            None => Err(DateTimeError::ClockError),
        }
    }

    /// The current date and time of day under the given UTC offset.
    ///
    /// Reads the host clock, so nothing fixes which instant is decoded; the
    /// result is what [`AxDateTime::from_clock_reading`] gives for the
    /// reading that the clock returned.
    pub fn now(utc_offset_hours: i64) -> (result: Result<AxDateTime, DateTimeError>)
        ensures
            exists|reading: Option<u64>|
                result == Self::spec_from_clock_reading(reading, utc_offset_hours),
            result matches Ok(date_time) ==> date_time@.valid(),
            result matches Err(error) ==> error is ClockError || error is InvalidTimestamp,
    {
        let now = SystemTime::now();
        let reading: Option<u64> = match duration_since_epoch(&now) {
            Ok(since_the_epoch) => Some(since_the_epoch.as_secs()),
            Err(_) => None,
        };
        Self::from_clock_reading(reading, utc_offset_hours)
    }

    /// Writes the date-time as `YYYY-MM-DD HH:MM:SS`: the year as it is,
    /// every other field with at least two digits.
    pub fn display_string(&self) -> (text: String)
        ensures
            text@ == display_text(self@),
    {
        proof {
            reveal_strlit("-");
            reveal_strlit(" ");
            reveal_strlit(":");
        }
        let mut text = String::new();
        push_decimal(&mut text, self.year);
        text.append("-");
        push_two_digits(&mut text, self.month);
        text.append("-");
        push_two_digits(&mut text, self.day);
        text.append(" ");
        push_two_digits(&mut text, self.hour);
        text.append(":");
        push_two_digits(&mut text, self.minute);
        text.append(":");
        push_two_digits(&mut text, self.second);
        assert(text@ =~= display_text(self@));
        text
    }

    /// Tells whether `year` is a leap year of the Gregorian calendar.
    pub fn is_leap_year(year: u64) -> (leap: bool)
        ensures
            leap == is_leap(year as int),
    {
        (year % 4 == 0 && year % 100 != 0) || (year % 400 == 0)
    }

    /// Number of days in month `month` (1 = January) of `year`.
    ///
    /// Fails exactly when `month` is not one of 1 to 12.
    pub fn days_in_month(month: u64, year: u64) -> (result: Result<u64, DateTimeError>)
        ensures
            1 <= month <= 12 ==> result == Ok::<u64, DateTimeError>(
                month_length(month as int, year as int) as u64,
            ),
            !(1 <= month <= 12) ==> result == Err::<u64, DateTimeError>(
                (DateTimeError::InvalidMonth { month }),
            ),
    {
        match month {
            1 | 3 | 5 | 7 | 8 | 10 | 12 => Ok(31),
            4 | 6 | 9 | 11 => Ok(30),
            2 => {
                if Self::is_leap_year(year) {
                    Ok(29)
                } else {
                    Ok(28)
                }
            },
            _ => Err(DateTimeError::InvalidMonth { month }),
        }
    }
}

/// Every instant that a timestamp and an offset can name at or after the
/// epoch has a reading whose fields fit the date-time's fields, so that
/// [`AxDateTime::of_reading`] loses nothing on it.
pub proof fn lemma_reading_fits(timestamp: u64, utc_offset_hours: i64)
    requires
        adjusted_seconds(timestamp, utc_offset_hours) >= 0,
    ensures
        AxDateTime::of_reading(civil_at(adjusted_seconds(timestamp, utc_offset_hours)))@
            == civil_at(adjusted_seconds(timestamp, utc_offset_hours)),
{
    let reading = civil_at(adjusted_seconds(timestamp, utc_offset_hours));
    lemma_civil_at(adjusted_seconds(timestamp, utc_offset_hours));
    lemma_valid_ranges(reading);
    lemma_days_before_year_bounds(reading.year);
}

/// A date-time that is a valid reading of the instant named by `timestamp`
/// and `utc_offset_hours` is the only such date-time, and it is the one that
/// [`AxDateTime::from_timestamp`] returns: the same arguments always decode
/// to the same value.
pub proof fn lemma_decoding_unique(timestamp: u64, utc_offset_hours: i64, date_time: AxDateTime)
    requires
        date_time@.valid(),
        date_time@.epoch_seconds() == adjusted_seconds(timestamp, utc_offset_hours),
    ensures
        AxDateTime::spec_from_timestamp(timestamp, utc_offset_hours) == Ok::<
            AxDateTime,
            DateTimeError,
        >(date_time),
{
    lemma_valid_ranges(date_time@);
    lemma_civil_at_inverse(date_time@);
}

/// Decoding keeps the order of time: of two timestamps decoded under the
/// same offset, the earlier one gives a date-time that comes earlier in
/// calendar order (year, then month, day, hour, minute, second), and so not
/// a later one. Where the earlier timestamp decodes, the later one does too.
pub proof fn lemma_from_timestamp_monotonic(earlier: u64, later: u64, utc_offset_hours: i64)
    requires
        earlier < later,
    ensures
        AxDateTime::spec_from_timestamp(earlier, utc_offset_hours) is Ok
            ==> AxDateTime::spec_from_timestamp(later, utc_offset_hours) is Ok,
        AxDateTime::spec_from_timestamp(earlier, utc_offset_hours) matches Ok(first) ==> (
        AxDateTime::spec_from_timestamp(later, utc_offset_hours) matches Ok(second)
            && first@.earlier_than(second@) && first@.not_later_than(second@)),
{
    if adjusted_seconds(earlier, utc_offset_hours) >= 0 {
        lemma_reading_fits(earlier, utc_offset_hours);
        lemma_reading_fits(later, utc_offset_hours);
        lemma_civil_at_monotonic(
            adjusted_seconds(earlier, utc_offset_hours),
            adjusted_seconds(later, utc_offset_hours),
        );
    }
}


} // verus!
