//! Event-driven trading core: market-data books, order state, positions, risk and
//! signal rules, with their contracts proved.
//!
//! Prices and sizes are integers in micro-units (millionths). Products of two such
//! numbers are in units of 1e-12, and money is kept in units of 1e-18.
pub mod auth;
pub mod bus;
pub mod clock;
pub mod collector;
pub mod datetime;
pub mod event;
pub mod executor;
pub mod fixed;
pub mod json;
pub mod ladder;
pub mod live;
pub mod model;
pub mod module;
pub mod numeral;
pub mod processor;
pub mod recorder;
pub mod replay;
pub mod ring;
pub mod strmap;
pub mod text;
