use ax_datetime::datetime::{AxDateTime, DateTimeError};

#[test]
fn leap_year_table() {
    assert!(AxDateTime::is_leap_year(2000));
    assert!(!AxDateTime::is_leap_year(1900));
    assert!(AxDateTime::is_leap_year(2004));
    assert!(!AxDateTime::is_leap_year(2023));
}

#[test]
fn leap_year_rule_at_its_edges() {
    assert!(AxDateTime::is_leap_year(0));
    assert!(!AxDateTime::is_leap_year(1));
    assert!(AxDateTime::is_leap_year(4));
    assert!(!AxDateTime::is_leap_year(100));
    assert!(AxDateTime::is_leap_year(400));
    assert!(!AxDateTime::is_leap_year(1970));
    assert!(AxDateTime::is_leap_year(1972));
    assert!(!AxDateTime::is_leap_year(2100));
    assert!(AxDateTime::is_leap_year(2400));
    assert!(!AxDateTime::is_leap_year(u64::MAX));
}

#[test]
fn leap_years_per_400_year_cycle() {
    let count = (2000u64..2400).filter(|year| AxDateTime::is_leap_year(*year)).count();
    assert_eq!(count, 97);
}

#[test]
fn invalid_months_are_rejected() {
    assert_eq!(AxDateTime::days_in_month(0, 2024), Err(DateTimeError::InvalidMonth { month: 0 }));
    assert_eq!(
        AxDateTime::days_in_month(13, 2024),
        Err(DateTimeError::InvalidMonth { month: 13 })
    );
    assert_eq!(
        AxDateTime::days_in_month(u64::MAX, 2024),
        Err(DateTimeError::InvalidMonth { month: u64::MAX })
    );
}

#[test]
fn february_follows_the_leap_year_rule() {
    assert_eq!(AxDateTime::days_in_month(2, 2024), Ok(29));
    assert_eq!(AxDateTime::days_in_month(2, 2023), Ok(28));
    assert_eq!(AxDateTime::days_in_month(2, 2000), Ok(29));
    assert_eq!(AxDateTime::days_in_month(2, 1900), Ok(28));
}

#[test]
fn month_length_table() {
    let common: [u64; 12] = [31, 28, 31, 30, 31, 30, 31, 31, 30, 31, 30, 31];
    for (index, length) in common.iter().enumerate() {
        assert_eq!(AxDateTime::days_in_month(index as u64 + 1, 2023), Ok(*length));
    }
    let total: u64 = (1..=12u64).map(|m| AxDateTime::days_in_month(m, 2023).unwrap()).sum();
    assert_eq!(total, 365);
    let total_leap: u64 = (1..=12u64).map(|m| AxDateTime::days_in_month(m, 2024).unwrap()).sum();
    assert_eq!(total_leap, 366);
}
