//! Plans, order intents and fills. Prices and sizes are in micro-units.
use vstd::prelude::*;
use crate::model::{Side, Trigger};

verus! {

/// The tolerance under which a size counts as nothing: one micro-unit.
pub const EPS: i64 = 1;

/// Per-market economics.
#[derive(Clone, Copy, Debug, PartialEq, Eq, Structural)]
pub struct MarketParams {
    pub min_order_size: i64,
    pub tick_size: i64,
    pub fee_rate: i64,
}

/// The shapes that an order can take.
#[derive(Clone, Copy, Debug, PartialEq, Eq, Structural)]
pub enum IntentKind {
    /// Marketable limit: immediate, accepts partials, rests nothing.
    TakeNow,
    /// Passive limit, good until a date.
    RestUntil { expiry_ns: i64 },
    /// Cancel by order id.
    Cancel,
}

/// One venue order attempt.
#[derive(Debug)]
pub struct OrderIntent {
    /// `{trade_id}:{leg}:{attempt}`.
    pub client_id: String,
    pub instrument: String,
    pub token_id: String,
    pub side: Side,
    /// Worst acceptable price: cap on a buy, floor on a sell.
    pub price: i64,
    pub size: i64,
    pub kind: IntentKind,
    pub params: MarketParams,
    /// When the market resolves.
    pub expiry_ns: i64,
}

/// An order attempt, as the contracts see it.
pub struct IntentV {
    pub client_id: Seq<char>,
    pub instrument: Seq<char>,
    pub token_id: Seq<char>,
    pub side: Side,
    pub price: i64,
    pub size: i64,
    pub kind: IntentKind,
    pub params: MarketParams,
    pub expiry_ns: i64,
}

impl View for OrderIntent {
    type V = IntentV;

    open spec fn view(&self) -> IntentV {
        IntentV {
            client_id: self.client_id@,
            instrument: self.instrument@,
            token_id: self.token_id@,
            side: self.side,
            price: self.price,
            size: self.size,
            kind: self.kind,
            params: self.params,
            expiry_ns: self.expiry_ns,
        }
    }
}

/// How far a fill has settled.
#[derive(Clone, Copy, Debug, PartialEq, Eq, Structural)]
pub enum FillStatus {
    Matched,
    Confirmed,
    Failed,
}

/// One match. `qty` is what was received.
#[derive(Debug)]
pub struct Fill {
    pub venue_trade_id: String,
    pub order_id: String,
    pub client_id: String,
    pub instrument: String,
    pub status: FillStatus,
    pub side: Side,
    pub qty: i64,
    pub px: i64,
    pub fee: i64,
    pub ts_ns: i64,
}

impl Clone for Fill {
    fn clone(&self) -> (r: Fill)
        ensures
            r == *self,
    {
        Fill {
            venue_trade_id: self.venue_trade_id.clone(),
            order_id: self.order_id.clone(),
            client_id: self.client_id.clone(),
            instrument: self.instrument.clone(),
            status: self.status,
            side: self.side,
            qty: self.qty,
            px: self.px,
            fee: self.fee,
            ts_ns: self.ts_ns,
        }
    }
}

/// A match, as the contracts see it.
pub struct MatchV {
    pub venue_trade_id: Seq<char>,
    pub order_id: Seq<char>,
    pub client_id: Seq<char>,
    pub instrument: Seq<char>,
    pub status: FillStatus,
    pub side: Side,
    pub qty: i64,
    pub px: i64,
    pub fee: i64,
    pub ts_ns: i64,
}

impl View for Fill {
    type V = MatchV;

    open spec fn view(&self) -> MatchV {
        MatchV {
            venue_trade_id: self.venue_trade_id@,
            order_id: self.order_id@,
            client_id: self.client_id@,
            instrument: self.instrument@,
            status: self.status,
            side: self.side,
            qty: self.qty,
            px: self.px,
            fee: self.fee,
            ts_ns: self.ts_ns,
        }
    }
}

/// The top of a book.
#[derive(Clone, Copy, Debug, PartialEq, Eq, Structural)]
pub struct BookTop {
    pub best_bid: i64,
    pub bid_sz: i64,
    pub best_ask: i64,
    pub ask_sz: i64,
    pub recv_ts_ns: i64,
}

/// A top-N ladder: `bids` highest first, `asks` lowest first.
#[derive(Debug)]
pub struct BookDepth {
    pub bids: Vec<(i64, i64)>,
    pub asks: Vec<(i64, i64)>,
    pub recv_ts_ns: i64,
}

/// What a venue answers to an order.
#[derive(Debug)]
pub enum VenueOutcome {
    /// Taken, with zero or more fills.
    Acked { order_id: String, fills: Vec<Fill> },
    /// Refused.
    Rejected(String),
}

/// What a venue answers to a cancel.
#[derive(Clone, Copy, Debug, PartialEq, Eq, Structural)]
pub enum CancelOutcome {
    /// Off the book; so much of the order was left.
    Canceled { reduced_by: i64 },
    /// The order was no longer on the book.
    Gone,
}

/// The plan made from a signal that passed the gates.
#[derive(Debug)]
pub struct TradePlan {
    pub trade_id: String,
    pub instrument: String,
    pub token_id: String,
    pub direction: i8,
    pub size_shares: i64,
    pub hold_ms: u64,
    pub exit_deadline_ns: i64,
    pub signal_ts_ns: i64,
    pub trigger: Trigger,
    /// The traded token's ask when the plan was made.
    pub signal_ask: i64,
    pub params: MarketParams,
    pub expiry_ns: i64,
}

} // verus!
