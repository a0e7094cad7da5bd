//! The processor: it keeps the state of the markets, shows every event to the rules, and
//! publishes what they fire.
use vstd::prelude::*;
use crate::collector::net::nxt;
use crate::event::{Event, Payload};
use crate::fixed;
use crate::fixed::sat;
use crate::model::{LatencySample, TradeSignal};
use crate::text::joined;

verus! {

/// The processor's settings.
#[derive(Debug)]
pub struct ProcCfg {
    pub reference: String,
    pub strategy: String,
    pub link_kind: String,
    pub window_ms: u64,
    /// Millionths of a basis point.
    pub threshold_bps: i64,
    pub yes_bucket: (i64, i64),
    pub cooldown_ms: u64,
    pub min_tte_ms: i64,
    pub hold_ms: u64,
    pub ttl_ms: u64,
    pub ring_cap: usize,
    pub ring_horizon_ms: u64,
}

impl Default for ProcCfg {
    fn default() -> (r: ProcCfg)
        ensures
            r.reference@ == "binance.usdt_perp.BTCUSDT"@,
            r.strategy@ == "perp_move"@,
            r.link_kind@ == "5m_updown"@,
            r.window_ms == 1000,
            r.threshold_bps == 3_000_000,
            r.yes_bucket == (50_000i64, 950_000i64),
            r.cooldown_ms == 2000,
            r.min_tte_ms == 15000,
            r.hold_ms == 1000,
            r.ttl_ms == 1000,
            r.ring_cap == 512,
            r.ring_horizon_ms == 5000,
    {
        ProcCfg {
            reference: "binance.usdt_perp.BTCUSDT".to_string(),
            strategy: "perp_move".to_string(),
            link_kind: "5m_updown".to_string(),
            window_ms: 1000,
            threshold_bps: 3_000_000,
            yes_bucket: (50_000, 950_000),
            cooldown_ms: 2000,
            min_tte_ms: 15000,
            hold_ms: 1000,
            ttl_ms: 1000,
            ring_cap: 512,
            ring_horizon_ms: 5000,
        }
    }
}

/// Whether an event is the latency sample of a signal: how long it took from the book that
/// made it fire.
pub open spec fn is_latency_of(e: Event, s: TradeSignal, now: i64) -> bool {
    &&& e.topic@ == "latency.processor.book_to_signal"@
    &&& e.source@ == "processor"@
    &&& e.ts_ns == now
    &&& match e.payload {
        Payload::Latency(l) => {
            &&& l.name@ == "book_to_signal"@
            &&& l.latency_ns == fixed::clamp64(now - s.ts_ns)
            &&& l.origin_ts_ns == s.ts_ns
            &&& l.strategy@ == s.strategy@
            &&& l.target@ == s.target@
        },
        _ => false,
    }
}

/// Whether an event carries a signal.
pub open spec fn carries(e: Event, s: TradeSignal) -> bool {
    &&& e.topic@ == "signal."@ + s.strategy@
    &&& e.source@ == "processor"@
    &&& e.ts_ns == s.ts_ns
    &&& e.payload == Payload::Signal(s)
}

/// The latency sample of a signal, and the signal itself.
pub fn signal_events(s: TradeSignal, now: i64, seq: &mut u64) -> (r: (Event, Event))
    ensures
        is_latency_of(r.0, s, now),
        carries(r.1, s),
        r.0.seq == *old(seq),
        *old(seq) < u64::MAX - 1 ==> r.1.seq == *old(seq) + 1 && *final(seq) == *old(seq) + 2,
{
    let lat = Event {
        topic: "latency.processor.book_to_signal".to_string(),
        source: "processor",
        ts_ns: now,
        seq: nxt(seq),
        payload: Payload::Latency(
            LatencySample {
                name: "book_to_signal".to_string(),
                latency_ns: sat(now as i128 - s.ts_ns as i128),
                origin_ts_ns: s.ts_ns,
                strategy: s.strategy.clone(),
                target: s.target.clone(),
            },
        ),
    };
    let sig = Event {
        topic: joined("signal.", s.strategy.as_str()),
        source: "processor",
        ts_ns: s.ts_ns,
        seq: nxt(seq),
        payload: Payload::Signal(s),
    };
    (lat, sig)
}

/// What is published of a signal: the signal under its strategy, and how long it took from
/// the book that made it fire.
pub proof fn law_signals_are_published_with_their_latency(e: Event, l: Event, s: TradeSignal, now: i64)
    requires
        carries(e, s),
        is_latency_of(l, s, now),
        i64::MIN <= now - s.ts_ns <= i64::MAX,
    ensures
        e.payload == Payload::Signal(s),
        e.topic@ == "signal."@ + s.strategy@,
        e.ts_ns == s.ts_ns,
        l.ts_ns == now,
        l.payload matches Payload::Latency(x) && x.latency_ns == now - s.ts_ns && x.origin_ts_ns
            == s.ts_ns && x.target@ == s.target@ && x.strategy@ == s.strategy@,
{
}

} // verus!
