//! From market data to signals.
pub mod calib;
pub mod exceed;
pub mod fair_ride;
pub mod features;
pub mod hist;
pub mod lake;
pub mod module;
pub mod ob_feats;
pub mod probe;
pub mod rule;
pub mod shape;
pub mod state;
pub mod window;
