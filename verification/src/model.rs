//! The payloads that cross the bus. Prices and sizes are in micro-units.
use vstd::prelude::*;
use crate::fixed;
use crate::fixed::{div_floor, sat};

verus! {

/// Which way an order or a trade goes.
#[derive(Clone, Copy, Debug, PartialEq, Eq, Structural)]
pub enum Side {
    Buy,
    Sell,
}

/// Lifecycle phase of a prediction market.
#[derive(Clone, Copy, Debug, PartialEq, Eq, Structural)]
pub enum MarketStatus {
    Upcoming,
    Live,
    Expired,
    Resolved,
}

/// A top-N book snapshot. `bids` highest first, `asks` lowest first; each level is a
/// price and a size.
#[derive(Debug)]
pub struct BookUpdate {
    pub instrument: String,
    pub bids: Vec<(i64, i64)>,
    pub asks: Vec<(i64, i64)>,
    pub update_id: Option<u64>,
    pub exch_ts_ns: i64,
    pub recv_ts_ns: i64,
}

/// One public trade.
#[derive(Debug)]
pub struct TradeTick {
    pub instrument: String,
    pub price: i64,
    pub qty: i64,
    pub side: Side,
    pub exch_ts_ns: i64,
    pub recv_ts_ns: i64,
}

/// One forced liquidation.
#[derive(Debug)]
pub struct Liquidation {
    pub instrument: String,
    pub price: i64,
    pub qty: i64,
    pub side: Side,
    pub recv_ts_ns: i64,
}

/// A catalog entry of a prediction market.
#[derive(Debug)]
pub struct MarketMeta {
    pub instrument: String,
    pub kind: String,
    pub status: MarketStatus,
    pub start_ts_ns: Option<i64>,
    pub expiry_ts_ns: Option<i64>,
    pub winner: Option<String>,
    /// The venue's own economics for the market, where its catalog gave them.
    pub min_order_size: Option<i64>,
    pub tick_size: Option<i64>,
    pub fee_rate: Option<i64>,
    /// The settlement level of the market.
    pub strike: Option<i64>,
}

/// What made a signal fire.
#[derive(Clone, Copy, Debug, PartialEq, Eq, Structural)]
pub struct Trigger {
    /// Millionths of a basis point.
    pub move_bps: i64,
    pub window_ms: u64,
    /// In halves of a micro-unit.
    pub yes_price: i64,
    /// The target's own move over the same window, in millionths of a cent; `None`
    /// where its book does not span the window.
    pub target_move_c: Option<i64>,
}

/// A rule's call to trade.
#[derive(Debug)]
pub struct TradeSignal {
    pub strategy: String,
    pub ts_ns: i64,
    /// What made it fire, for a reader.
    pub reason: String,
    pub reference: String,
    pub target: String,
    pub direction: i8,
    pub trigger: Trigger,
    pub hold_ms: u64,
    pub ttl_ms: u64,
}

/// The last trade seen on an instrument.
#[derive(Clone, Copy, Debug, PartialEq, Eq, Structural)]
pub struct LastTrade {
    pub price: i64,
    pub qty: i64,
    pub side: Side,
    pub ts_ns: i64,
}

/// One latency sample.
#[derive(Debug)]
pub struct LatencySample {
    pub name: String,
    pub latency_ns: i64,
    pub origin_ts_ns: i64,
    pub strategy: String,
    pub target: String,
}

/// How a round trip ended.
#[derive(Clone, Copy, Debug, PartialEq, Eq, Structural)]
pub enum TradeOutcome {
    /// Entered and fully exited.
    Closed,
    /// The entry never filled.
    Abandoned,
    /// Held to resolution and paid out.
    Settled,
    /// Still long at the exit deadline.
    PendingResolution,
}

/// The fills of one leg of a round trip.
#[derive(Clone, Copy, Debug, PartialEq, Eq, Structural)]
pub struct LegSummary {
    pub qty: i64,
    /// The sum of size times price, in units of 1e-12.
    pub notional: i128,
    pub fees: i64,
    pub n_fills: u32,
    pub first_ts_ns: i64,
    pub last_ts_ns: i64,
}

impl LegSummary {
    /// A leg without fills.
    pub open spec fn empty() -> LegSummary {
        LegSummary { qty: 0, notional: 0, fees: 0, n_fills: 0, first_ts_ns: 0, last_ts_ns: 0 }
    }

    /// The average price, rounded down; zero for a leg without fills.
    pub open spec fn vwap_spec(self) -> int {
        if self.qty > 0 {
            fixed::clamp64(self.notional as int / self.qty as int)
        } else {
            0
        }
    }

    /// The average price, rounded down; zero for a leg without fills.
    pub fn vwap(&self) -> (r: i64)
        ensures
            r == self.vwap_spec(),
    {
        if self.qty > 0 {
            sat(div_floor(self.notional, self.qty as i128))
        } else {
            0
        }
    }
}

impl Default for LegSummary {
    fn default() -> (r: LegSummary)
        ensures
            r == LegSummary::empty(),
    {
        LegSummary { qty: 0, notional: 0, fees: 0, n_fills: 0, first_ts_ns: 0, last_ts_ns: 0 }
    }
}

/// The record of one round trip.
#[derive(Debug)]
pub struct TradeRecord {
    pub trade_id: String,
    pub outcome: TradeOutcome,
    pub direction: i8,
    pub instrument: String,
    pub signal_ts_ns: i64,
    pub trigger: Trigger,
    pub entry: LegSummary,
    pub exit: LegSummary,
    pub hold_actual_ms: u64,
    /// Profit before and after fees, in units of 1e-12.
    pub pnl_gross: i128,
    pub pnl_net: i128,
    /// The entry's average price over the ask at the signal.
    pub slippage_entry: i64,
    /// The bid at the exit over the exit's average price; zero without an exit.
    pub slippage_exit: i64,
    pub lat_signal_to_submit_ns: i64,
}

/// One transition of a trade or an order.
#[derive(Debug)]
pub struct ExecReport {
    pub trade_id: String,
    pub instrument: String,
    pub state: String,
    pub detail: String,
    pub ts_ns: i64,
}

/// What is held of one instrument.
#[derive(Debug)]
pub struct PositionSnapshot {
    pub instrument: String,
    pub qty: i64,
    /// Average cost, in units of 1e-12.
    pub avg_cost: i128,
    /// Money, in units of 1e-18.
    pub realized_pnl: i128,
    /// Fees, in micro-units.
    pub fees_paid: i128,
    pub mark_px: Option<i64>,
    pub upnl: i128,
    pub status: String,
    pub cash_usdc: i128,
}

/// A fit of one market's surface parameters. `seq` names the fitted numbers; the last three
/// are those numbers and the loss, each as the bits of a 64-bit float, for what is recorded.
#[derive(Debug)]
pub struct CalibUpdate {
    pub instrument: String,
    pub reference: String,
    pub seq: u64,
    pub ts_ns: i64,
    pub fitted_at_tte_ms: i64,
    pub rows: u32,
    pub model_hash: u64,
    pub d_b_bits: u64,
    pub d_rho_bits: u64,
    pub bce_bits: u64,
}

/// A copy of a ladder.
pub fn copy_levels(v: &Vec<(i64, i64)>) -> (r: Vec<(i64, i64)>)
    ensures
        r@ == v@,
{
    let mut r: Vec<(i64, i64)> = Vec::new();
    let mut i: usize = 0;
    while i < v.len()
        invariant
            i <= v@.len(),
            r@ == v@.take(i as int),
        decreases v@.len() - i,
    {
        r.push(v[i]);
        assert(v@.take(i + 1) =~= v@.take(i as int).push(v@[i as int]));
        i = i + 1;
    }
    assert(v@.take(v@.len() as int) =~= v@);
    r
}

/// The average price of a leg times its size is what it came to, up to rounding down; a leg
/// without fills has none.
pub proof fn law_averages_come_to_the_notional(l: LegSummary)
    requires
        0 <= l.notional <= i64::MAX * l.qty || l.qty <= 0,
    ensures
        l.qty > 0 ==> l.vwap_spec() * l.qty <= l.notional < (l.vwap_spec() + 1) * l.qty,
        l.qty <= 0 ==> l.vwap_spec() == 0,
{
    if l.qty > 0 {
        let n = l.notional as int;
        let q = l.qty as int;
        vstd::arithmetic::div_mod::lemma_fundamental_div_mod(n, q);
        let p = n / q;
        assert(p * q <= n < (p + 1) * q) by (nonlinear_arith)
            requires
                n == q * p + n % q,
                0 <= n % q < q,
        ;
        assert(0 <= p <= i64::MAX) by (nonlinear_arith)
            requires
                p * q <= n < (p + 1) * q,
                0 <= n <= i64::MAX * q,
                q > 0,
        ;
    }
}

} // verus!
