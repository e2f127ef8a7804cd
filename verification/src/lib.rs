//! Collects dated events from several sources and selects the ones that
//! match a filter (month and day, categories, text).

pub mod birthday;
pub mod chars;
pub mod cli;
pub mod config;
pub mod date;
pub mod event;
pub mod filter;
pub mod listing;
pub mod providers;

pub use config::{Config, ProviderConfig};
