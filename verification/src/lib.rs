//! Conversion of Unix timestamps into proleptic Gregorian calendar date-times
//! under a fixed UTC offset given in whole hours.
//!
//! [`calendar`] holds the mathematical model: the leap-year rule, month and
//! year lengths, the count of seconds that a civil time lies after the epoch,
//! and the theorems relating that count to the calendar order.
//! [`clock`] declares the host clock that [`datetime::AxDateTime::now`] reads.
//! [`text`] defines the written form of numbers and date-times.
//! [`datetime`] holds the executable type [`datetime::AxDateTime`] and its
//! verified operations.

pub mod calendar;
pub mod clock;
pub mod datetime;
pub mod text;
