//! Verified core of pi-switch: model-catalog enrichment, failover chains and
//! the recovery monitor's plan, daemon start/stop/status decisions, raw
//! capture capping, masking and log views, web auth and query parsing, and
//! the terminal UI's data shaping, wrapping and placement.

pub mod config;
pub mod daemon;
pub mod layout;
pub mod models;
pub mod monitor;
pub mod rawlog;
pub mod text;
pub mod tui;
pub mod web;
