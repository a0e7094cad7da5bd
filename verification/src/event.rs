//! The bus envelope.
use vstd::prelude::*;
use crate::model::{
    BookUpdate, CalibUpdate, ExecReport, LatencySample, Liquidation, MarketMeta, PositionSnapshot,
    TradeRecord, TradeSignal, TradeTick,
};

verus! {

/// Dotted topic key, such as `market.binance.usdt_perp.BTCUSDT.book`.
pub type Topic = String;

/// One published message.
#[derive(Debug)]
pub struct Event {
    pub topic: Topic,
    pub source: &'static str,
    pub ts_ns: i64,
    pub seq: u64,
    pub payload: Payload,
}

/// What a message carries.
#[derive(Debug)]
pub enum Payload {
    Book(BookUpdate),
    Trade(TradeTick),
    Liq(Liquidation),
    Meta(MarketMeta),
    Signal(TradeSignal),
    Latency(LatencySample),
    ExecReport(ExecReport),
    TradeRecord(TradeRecord),
    Position(PositionSnapshot),
    Calib(CalibUpdate),
}

impl Event {
    /// An event with these parts.
    pub fn new(topic: Topic, source: &'static str, ts_ns: i64, seq: u64, payload: Payload) -> (r:
        Event)
        ensures
            r == (Event { topic, source, ts_ns, seq, payload }),
    {
        Event { topic, source, ts_ns, seq, payload }
    }
}

} // verus!
