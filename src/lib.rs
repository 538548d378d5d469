//! The event pipeline of a backlight notification daemon: reading a
//! device's brightness files, coalescing bursts of readings into one settled
//! value, and shaping the notification that shows it.

pub mod coalesce;
pub mod fraction;
pub mod level;
pub mod notice;
