//! Market data: what the feeds send, and the books that come out of it.

pub mod binance;
pub mod cryptospot;
pub mod databento;
pub mod kalshi;
pub mod kalshi_markets;
pub mod net;
pub mod phase;
pub mod polymarket;
pub mod polymarket_markets;
pub mod venuelat;
