//! Order execution: plans, venues, positions, risk, and the trade state machines.
pub mod config;
pub mod engine;
pub mod mirror;
pub mod order_manager;
pub mod order_manager_kalshi;
pub mod plan;
pub mod position;
pub mod reconciler;
pub mod report;
pub mod risk;
pub mod sampler;
pub mod slot;
pub mod startup;
pub mod types;
pub mod venue;
pub mod venue_kalshi;
pub mod venue_spec;
