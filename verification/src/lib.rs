//! A threshold waveshaper with a smoothed, remotely controlled threshold.

pub mod bridge;
pub mod command;
pub mod decimal;
pub mod json;
pub mod parameter;
pub mod plugin;
pub mod processor;
pub mod range;
pub mod smoother;
pub mod units;
