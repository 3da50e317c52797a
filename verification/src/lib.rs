//! A daily prayer-times pipeline: parse `HH:MM` clock values, pick the next
//! upcoming time, extract an embedded schedule object from a web page's
//! markup, and keep a date-stamped local cache of the decoded schedule.

pub mod cache;
pub mod calculator;
pub mod clock;
pub mod extract;
pub mod schedule;
pub mod text;
pub mod timeofday;
