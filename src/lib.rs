//! Battery-level notification daemon: the threshold engine, the rules it
//! runs on, and the small text formats it reads and writes.

pub mod battery;
pub mod command;
pub mod config;
pub mod engine;
pub mod laws;
pub mod notification;

pub use battery::{ChargingStatus, SamplerError};
pub use engine::{check_notify_full_battery, find_lowest_threshold, reset_other_notifications};
