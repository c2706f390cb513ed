//! Business-day calendars.
//!
//! A [`calendar::Calendar`] holds a set of working weekdays, a set of holiday
//! dates and a set of extra working dates, and answers whether a given date is
//! a business day. On top of that membership test it offers rolling to the
//! nearest business day, stepping to the strictly next or previous business
//! day, and adding or subtracting a count of business days.
//!
//! Dates are plain day counts from a fixed epoch (see [`date::Date`]), so the
//! whole calendar arithmetic is ordinary integer arithmetic with proved
//! contracts.

pub mod calendar;
pub mod date;
pub mod laws;

pub use calendar::Calendar;
pub use calendar::CalendarConfig;
pub use calendar::ValidationError;
pub use date::Date;
pub use date::IntoDate;
pub use date::Weekday;
