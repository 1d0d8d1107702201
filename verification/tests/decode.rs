use ax_datetime::datetime::{AxDateTime, DateTimeError};

fn at(year: u64, month: u64, day: u64, hour: u64, minute: u64, second: u64) -> AxDateTime {
    AxDateTime { year, month, day, hour, minute, second }
}

fn fields(d: &AxDateTime) -> (u64, u64, u64, u64, u64, u64) {
    (d.year, d.month, d.day, d.hour, d.minute, d.second)
}

#[test]
fn epoch_decodes_to_first_instant_of_1970() {
    assert_eq!(AxDateTime::from_timestamp(0, 0), Ok(at(1970, 1, 1, 0, 0, 0)));
}

#[test]
fn positive_offset_moves_the_clock_forward() {
    assert_eq!(AxDateTime::from_timestamp(0, 3), Ok(at(1970, 1, 1, 3, 0, 0)));
}

#[test]
fn negative_offset_before_epoch_is_rejected() {
    assert_eq!(
        AxDateTime::from_timestamp(0, -1),
        Err(DateTimeError::InvalidTimestamp { adjusted_seconds: -3600 })
    );
    assert_eq!(
        AxDateTime::from_timestamp(3599, -1),
        Err(DateTimeError::InvalidTimestamp { adjusted_seconds: -1 })
    );
}

#[test]
fn negative_offset_reaching_exactly_the_epoch_is_accepted() {
    assert_eq!(AxDateTime::from_timestamp(3600, -1), Ok(at(1970, 1, 1, 0, 0, 0)));
    assert_eq!(AxDateTime::from_timestamp(5 * 3600 + 61, -5), Ok(at(1970, 1, 1, 0, 1, 1)));
}

#[test]
fn offset_can_cross_midnight() {
    assert_eq!(AxDateTime::from_timestamp(23 * 3600, 3), Ok(at(1970, 1, 2, 2, 0, 0)));
    assert_eq!(AxDateTime::from_timestamp(86400 + 3600, -2), Ok(at(1970, 1, 1, 23, 0, 0)));
}

#[test]
fn leap_day_and_the_second_after_it() {
    let last_second_of_leap_day: u64 = 1_709_251_199;
    assert_eq!(
        AxDateTime::from_timestamp(last_second_of_leap_day, 0),
        Ok(at(2024, 2, 29, 23, 59, 59))
    );
    assert_eq!(
        AxDateTime::from_timestamp(last_second_of_leap_day + 1, 0),
        Ok(at(2024, 3, 1, 0, 0, 0))
    );
}

#[test]
fn february_of_a_common_year_rolls_after_the_28th() {
    // 2023-02-28 23:59:59
    assert_eq!(AxDateTime::from_timestamp(1_677_628_799, 0), Ok(at(2023, 2, 28, 23, 59, 59)));
    assert_eq!(AxDateTime::from_timestamp(1_677_628_800, 0), Ok(at(2023, 3, 1, 0, 0, 0)));
}

#[test]
fn first_year_rolls_into_1971() {
    let last_second_of_1970: u64 = 365 * 86400 - 1;
    assert_eq!(
        AxDateTime::from_timestamp(last_second_of_1970, 0),
        Ok(at(1970, 12, 31, 23, 59, 59))
    );
    assert_eq!(
        AxDateTime::from_timestamp(last_second_of_1970 + 1, 0),
        Ok(at(1971, 1, 1, 0, 0, 0))
    );
}

#[test]
fn leap_year_rolls_after_366_days() {
    // 1972 is the first leap year after the epoch.
    let start_of_1972: u64 = (365 + 365) * 86400;
    assert_eq!(AxDateTime::from_timestamp(start_of_1972, 0), Ok(at(1972, 1, 1, 0, 0, 0)));
    assert_eq!(
        AxDateTime::from_timestamp(start_of_1972 + 365 * 86400, 0),
        Ok(at(1972, 12, 31, 0, 0, 0))
    );
    assert_eq!(
        AxDateTime::from_timestamp(start_of_1972 + 366 * 86400, 0),
        Ok(at(1973, 1, 1, 0, 0, 0))
    );
}

#[test]
fn well_known_instants() {
    assert_eq!(AxDateTime::from_timestamp(951_782_400, 0), Ok(at(2000, 2, 29, 0, 0, 0)));
    assert_eq!(AxDateTime::from_timestamp(951_868_800, 0), Ok(at(2000, 3, 1, 0, 0, 0)));
    assert_eq!(AxDateTime::from_timestamp(1_000_000_000, 0), Ok(at(2001, 9, 9, 1, 46, 40)));
    assert_eq!(AxDateTime::from_timestamp(2_147_483_647, 0), Ok(at(2038, 1, 19, 3, 14, 7)));
    assert_eq!(AxDateTime::from_timestamp(4_107_542_400, 0), Ok(at(2100, 3, 1, 0, 0, 0)));
    assert_eq!(AxDateTime::from_timestamp(253_402_300_799, 0), Ok(at(9999, 12, 31, 23, 59, 59)));
}

#[test]
fn century_that_is_not_a_leap_year_has_no_29th_of_february() {
    // 2100-02-28 00:00:00 and the day after it.
    assert_eq!(AxDateTime::from_timestamp(4_107_456_000, 0), Ok(at(2100, 2, 28, 0, 0, 0)));
    assert_eq!(AxDateTime::from_timestamp(4_107_456_000 + 86400, 0), Ok(at(2100, 3, 1, 0, 0, 0)));
}

#[test]
fn every_month_start_of_2023_decodes() {
    let lengths: [u64; 12] = [31, 28, 31, 30, 31, 30, 31, 31, 30, 31, 30, 31];
    let mut start: u64 = 1_672_531_200; // 2023-01-01 00:00:00
    for (index, length) in lengths.iter().enumerate() {
        let month = index as u64 + 1;
        assert_eq!(AxDateTime::from_timestamp(start, 0), Ok(at(2023, month, 1, 0, 0, 0)));
        assert_eq!(
            AxDateTime::from_timestamp(start + length * 86400 - 1, 0),
            Ok(at(2023, month, *length, 23, 59, 59))
        );
        start += length * 86400;
    }
    assert_eq!(AxDateTime::from_timestamp(start, 0), Ok(at(2024, 1, 1, 0, 0, 0)));
}

#[test]
fn offsets_too_large_for_64_bit_seconds_are_handled() {
    let hours = i64::MIN;
    assert_eq!(
        AxDateTime::from_timestamp(0, hours),
        Err(DateTimeError::InvalidTimestamp { adjusted_seconds: (hours as i128) * 3600 })
    );
    assert_eq!(
        AxDateTime::from_timestamp(u64::MAX, hours),
        Err(DateTimeError::InvalidTimestamp {
            adjusted_seconds: u64::MAX as i128 + (hours as i128) * 3600
        })
    );
}

#[test]
fn timestamp_above_the_signed_range_is_not_negative() {
    // 2^63 seconds, pulled back by an offset to a nearby instant.
    let timestamp: u64 = 1 << 63;
    let hours: i64 = -((timestamp / 3600) as i64);
    let adjusted = timestamp - (timestamp / 3600) * 3600;
    assert_eq!(adjusted, 1_808);
    assert_eq!(AxDateTime::from_timestamp(timestamp, hours), Ok(at(1970, 1, 1, 0, 30, 8)));
}

#[test]
fn large_positive_offset_is_added_in_full() {
    // 1_000_000 hours are 41_666 days and 16 hours.
    assert_eq!(AxDateTime::from_timestamp(0, 1_000_000), Ok(at(2084, 1, 29, 16, 0, 0)));
}

#[test]
fn decoding_twice_gives_the_same_value() {
    for timestamp in [0u64, 1, 86_399, 86_400, 1_709_251_199, 2_147_483_647] {
        for hours in [-1i64, 0, 3, 14] {
            assert_eq!(
                AxDateTime::from_timestamp(timestamp, hours),
                AxDateTime::from_timestamp(timestamp, hours)
            );
        }
    }
}

#[test]
fn later_timestamps_never_decode_to_earlier_date_times() {
    let hours: i64 = 5;
    let mut timestamp: u64 = 0;
    let mut previous = fields(&AxDateTime::from_timestamp(timestamp, hours).unwrap());
    // An odd stride walks through every field's roll-over within a few years.
    while timestamp < 200_000_000 {
        timestamp += 86_400 * 3 + 3_661 * 7 + 13;
        let current = fields(&AxDateTime::from_timestamp(timestamp, hours).unwrap());
        assert!(previous < current, "{:?} then {:?}", previous, current);
        previous = current;
    }
}

#[test]
fn consecutive_seconds_decode_in_strict_order() {
    let start: u64 = 1_709_251_199 - 50;
    let mut previous = fields(&AxDateTime::from_timestamp(start, 0).unwrap());
    for step in 1..=100u64 {
        let current = fields(&AxDateTime::from_timestamp(start + step, 0).unwrap());
        assert!(previous < current);
        previous = current;
    }
}

#[test]
fn decoded_fields_stay_in_range() {
    let mut timestamp: u64 = 0;
    while timestamp < 3_000_000_000 {
        let d = AxDateTime::from_timestamp(timestamp, 0).unwrap();
        assert!(d.year >= 1970);
        assert!((1..=12).contains(&d.month));
        assert!(d.day >= 1 && d.day <= AxDateTime::days_in_month(d.month, d.year).unwrap());
        assert!(d.hour < 24 && d.minute < 60 && d.second < 60);
        timestamp += 7_654_321;
    }
}

#[test]
fn clock_reading_is_decoded_like_a_timestamp() {
    assert_eq!(AxDateTime::from_clock_reading(Some(0), 0), Ok(at(1970, 1, 1, 0, 0, 0)));
    assert_eq!(
        AxDateTime::from_clock_reading(Some(1_709_251_199), 3),
        AxDateTime::from_timestamp(1_709_251_199, 3)
    );
    assert_eq!(
        AxDateTime::from_clock_reading(Some(10), -1),
        Err(DateTimeError::InvalidTimestamp { adjusted_seconds: 10 - 3600 })
    );
}

#[test]
fn missing_clock_reading_is_a_clock_error() {
    assert_eq!(AxDateTime::from_clock_reading(None, 0), Err(DateTimeError::ClockError));
    assert_eq!(AxDateTime::from_clock_reading(None, -7), Err(DateTimeError::ClockError));
}

#[test]
fn now_gives_a_valid_date_time() {
    let utc = AxDateTime::now(0).unwrap();
    assert!(utc.year >= 1970);
    assert!((1..=12).contains(&utc.month));
    assert!(utc.day >= 1 && utc.day <= AxDateTime::days_in_month(utc.month, utc.year).unwrap());
    assert!(utc.hour < 24 && utc.minute < 60 && utc.second < 60);
}

#[test]
fn now_applies_the_offset() {
    let before = fields(&AxDateTime::now(0).unwrap());
    let shifted = fields(&AxDateTime::now(24 * 400).unwrap());
    let after = fields(&AxDateTime::now(24 * 401).unwrap());
    assert!(before < shifted);
    assert!(shifted < after);
    assert!(shifted.0 == before.0 + 1 || shifted.0 == before.0 + 2);
}

#[test]
fn now_before_the_epoch_is_rejected() {
    match AxDateTime::now(-1_000_000_000) {
        Err(DateTimeError::InvalidTimestamp { adjusted_seconds }) => assert!(adjusted_seconds < 0),
        other => panic!("unexpected result {:?}", other),
    }
}
