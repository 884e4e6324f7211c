//! Verified core of the `today` event calendar: dates and rules, categories,
//! event filters, and the record handling shared by the event providers.

pub mod calendar;
pub mod text;
pub mod events;
pub mod filters;
pub mod config;
pub mod providers;
