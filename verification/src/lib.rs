//! A world clock that shows the current time in several zones at once, laid
//! out as a near-square grid of tiles, with optional local-time alarms that
//! highlight every displayed clock for the matching minute until dismissed.
//!
//! The render cycle is verified: alarm evaluation and dismissal
//! ([`alarm`]), grid layout ([`grid`]), the per-tick step and input handling
//! ([`render`]), time and date formatting ([`time`]), and the choice and
//! construction of the displayed clocks ([`zones`]). Wall-clock and zone
//! conversions come from chrono and chrono-tz through the trusted wrappers in
//! [`timesource`].

pub mod alarm;
pub mod grid;
pub mod render;
pub mod time;
pub mod timesource;
pub mod zones;
