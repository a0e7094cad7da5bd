//! What our orders and positions are right now, as the venue's reports, our own writes and
//! periodic polls tell it. Counts and prices are in micro-units.
//!
//! Cumulative fill counts never decrease and each fill counts once; a side with an order
//! whose state is not settled is locked; a polled position replaces the estimate.
use vstd::prelude::*;
use std::collections::VecDeque;
use vstd::hash_set::StringHashSet;
use crate::executor::types::CancelOutcome;
use crate::fixed;
use crate::fixed::{max64, min64, sat};
use crate::ring;
use crate::ring::drop_before;
use crate::strmap;
use crate::strmap::StrMap;
use crate::text;
use crate::text::{joined, same};

verus! {

/// A side of the yes book. A fill on the bid raises the position, one on the ask lowers it.
#[derive(Clone, Copy, Debug, PartialEq, Eq, Hash, Structural)]
pub enum BookSide {
    Bid,
    Ask,
}

impl BookSide {
    /// The position change that a count filled on this side makes.
    pub open spec fn sign_of(self, count: int) -> int {
        match self {
            BookSide::Bid => count,
            BookSide::Ask => -count,
        }
    }

    /// The position change that `count` filled on this side makes.
    pub fn signed(self, count: i64) -> (r: i128)
        ensures
            r == self.sign_of(count as int),
    {
        match self {
            BookSide::Bid => count as i128,
            BookSide::Ask => -(count as i128),
        }
    }

    /// The side that a report names, either directly or by outcome and action.
    pub open spec fn named(
        book_side: Option<Seq<char>>,
        side: Option<Seq<char>>,
        action: Option<Seq<char>>,
    ) -> Option<BookSide> {
        if book_side == Some("bid"@) {
            Some(BookSide::Bid)
        } else if book_side == Some("ask"@) {
            Some(BookSide::Ask)
        } else if (side == Some("yes"@) && action == Some("buy"@)) || (side == Some("no"@)
            && action == Some("sell"@)) {
            Some(BookSide::Bid)
        } else if (side == Some("yes"@) && action == Some("sell"@)) || (side == Some("no"@)
            && action == Some("buy"@)) {
            Some(BookSide::Ask)
        } else {
            None
        }
    }

    /// The side that a report names: from `book_side`, else from `side` and `action`.
    pub fn parse(book_side: Option<&str>, side: Option<&str>, action: Option<&str>) -> (r: Option<
        BookSide,
    >)
        ensures
            r == BookSide::named(text_of(book_side), text_of(side), text_of(action)),
    {
        if let Some(b) = book_side {
            if same(b, "bid") {
                return Some(BookSide::Bid);
            }
            if same(b, "ask") {
                return Some(BookSide::Ask);
            }
        }
        proof {
            reveal_strlit("yes");
            reveal_strlit("no");
            reveal_strlit("buy");
            reveal_strlit("sell");
            assert("yes"@.len() == 3 && "no"@.len() == 2);
            assert("buy"@.len() == 3 && "sell"@.len() == 4);
        }
        match (side, action) {
            (Some(s), Some(a)) => {
                let yes: bool = same(s, "yes");
                let no: bool = same(s, "no");
                let buy: bool = same(a, "buy");
                let sell: bool = same(a, "sell");
                if (yes && buy) || (no && sell) {
                    Some(BookSide::Bid)
                } else if (yes && sell) || (no && buy) {
                    Some(BookSide::Ask)
                } else {
                    None
                }
            },
            _ => None,
        }
    }
}

/// The characters of an optional text.
pub open spec fn text_of(s: Option<&str>) -> Option<Seq<char>> {
    match s {
        Some(t) => Some(t@),
        None => None,
    }
}

/// Where an order stands.
#[derive(Clone, Copy, Debug, PartialEq, Eq, Structural)]
pub enum OrderStatus {
    /// Sent, not yet acknowledged.
    Pending,
    Resting,
    /// A cancel was sent; its outcome is not known.
    Canceling,
    /// Fully filled.
    Executed,
    Canceled,
    /// Not established: it may rest or be gone.
    Unknown,
}

impl OrderStatus {
    /// Whether the order may still be on the book.
    pub open spec fn open_spec(self) -> bool {
        self != OrderStatus::Executed && self != OrderStatus::Canceled
    }

    /// Whether the order's state is not settled.
    pub open spec fn locks(self) -> bool {
        self == OrderStatus::Pending || self == OrderStatus::Canceling || self
            == OrderStatus::Unknown
    }

    /// Whether the order may still be on the book.
    pub fn is_open(self) -> (r: bool)
        ensures
            r == self.open_spec(),
    {
        self == OrderStatus::Pending || self == OrderStatus::Resting || self
            == OrderStatus::Canceling || self == OrderStatus::Unknown
    }

    /// Whether the order's side is locked: its state is not settled.
    pub fn locks_side(self) -> (r: bool)
        ensures
            r == self.locks(),
    {
        self == OrderStatus::Pending || self == OrderStatus::Canceling || self
            == OrderStatus::Unknown
    }
}

/// One order.
#[derive(Debug)]
pub struct OrderRec {
    pub order_id: String,
    pub client_id: String,
    pub ticker: String,
    pub side: BookSide,
    pub yes_price: i64,
    pub initial: i64,
    pub filled: i64,
    pub remaining: i64,
    pub status: OrderStatus,
    pub created_ms: i64,
    pub updated_ms: i64,
    /// Placed through this manager. Only managed orders lock a side.
    pub managed: bool,
    /// The sum of the fills seen for this order.
    pub fills_sum: i64,
}

/// One order, as the contracts see it.
pub struct OrderV {
    pub order_id: Seq<char>,
    pub client_id: Seq<char>,
    pub ticker: Seq<char>,
    pub side: BookSide,
    pub yes_price: i64,
    pub initial: i64,
    pub filled: i64,
    pub remaining: i64,
    pub status: OrderStatus,
    pub created_ms: i64,
    pub updated_ms: i64,
    pub managed: bool,
    pub fills_sum: i64,
}

impl View for OrderRec {
    type V = OrderV;

    open spec fn view(&self) -> OrderV {
        OrderV {
            order_id: self.order_id@,
            client_id: self.client_id@,
            ticker: self.ticker@,
            side: self.side,
            yes_price: self.yes_price,
            initial: self.initial,
            filled: self.filled,
            remaining: self.remaining,
            status: self.status,
            created_ms: self.created_ms,
            updated_ms: self.updated_ms,
            managed: self.managed,
            fills_sum: self.fills_sum,
        }
    }
}

impl Clone for OrderRec {
    fn clone(&self) -> (r: OrderRec)
        ensures
            r == *self,
    {
        OrderRec {
            order_id: self.order_id.clone(),
            client_id: self.client_id.clone(),
            ticker: self.ticker.clone(),
            side: self.side,
            yes_price: self.yes_price,
            initial: self.initial,
            filled: self.filled,
            remaining: self.remaining,
            status: self.status,
            created_ms: self.created_ms,
            updated_ms: self.updated_ms,
            managed: self.managed,
            fills_sum: self.fills_sum,
        }
    }
}

/// The position in one market.
#[derive(Clone, Copy, Debug, PartialEq, Eq, Structural)]
pub struct PositionRec {
    /// The venue's own number.
    pub auth: i64,
    pub auth_ts_ms: i64,
    /// The venue's number and the fills seen since.
    pub est: i64,
    pub est_ts_ms: i64,
}

/// A position not yet heard of.
pub open spec fn no_position() -> PositionRec {
    PositionRec { auth: 0, auth_ts_ms: 0, est: 0, est_ts_ms: 0 }
}

/// What a reader gets of a position.
#[derive(Clone, Copy, Debug, PartialEq, Eq, Structural)]
pub struct PositionView {
    pub auth: i64,
    pub auth_age_ms: i64,
    pub est: i64,
}

/// One fill.
#[derive(Debug)]
pub struct FillRec {
    pub fill_id: String,
    pub order_id: String,
    pub ticker: String,
    pub side: BookSide,
    pub count: i64,
    pub yes_price: i64,
    pub is_taker: bool,
    pub fee: i64,
    pub ts_ms: i64,
}

impl Clone for FillRec {
    fn clone(&self) -> (r: FillRec)
        ensures
            r == *self,
    {
        FillRec {
            fill_id: self.fill_id.clone(),
            order_id: self.order_id.clone(),
            ticker: self.ticker.clone(),
            side: self.side,
            count: self.count,
            yes_price: self.yes_price,
            is_taker: self.is_taker,
            fee: self.fee,
            ts_ms: self.ts_ms,
        }
    }
}

/// One report of an order's state.
#[derive(Debug)]
pub struct OrderMsg {
    pub order_id: String,
    pub client_id: String,
    pub ticker: String,
    pub side: BookSide,
    pub yes_price: i64,
    pub initial: i64,
    pub filled: i64,
    /// Negative where the report does not give it.
    pub remaining: i64,
    pub status: String,
    pub updated_ms: i64,
}

/// What a change of state tells the outside.
#[derive(Debug)]
pub enum OmsEvent {
    OrderUpdate(OrderRec),
    Fill(FillRec),
    Position { ticker: String, auth: i64, ts_ms: i64 },
    Unknown { order_id: String },
    Resolved(OrderRec),
    WsUp,
    WsDown,
    Synced { resting: usize, positions: usize },
}

/// An event, as the contracts see it.
pub enum EventV {
    OrderUpdate(OrderV),
    Fill(FillRec),
    Position { ticker: Seq<char>, auth: i64, ts_ms: i64 },
    Unknown { order_id: Seq<char> },
    Resolved(OrderV),
    WsUp,
    WsDown,
    Synced { resting: nat, positions: nat },
}

impl View for OmsEvent {
    type V = EventV;

    open spec fn view(&self) -> EventV {
        match *self {
            OmsEvent::OrderUpdate(r) => EventV::OrderUpdate(r@),
            OmsEvent::Fill(f) => EventV::Fill(f),
            OmsEvent::Position { ticker, auth, ts_ms } => EventV::Position {
                ticker: ticker@,
                auth,
                ts_ms,
            },
            OmsEvent::Unknown { order_id } => EventV::Unknown { order_id: order_id@ },
            OmsEvent::Resolved(r) => EventV::Resolved(r@),
            OmsEvent::WsUp => EventV::WsUp,
            OmsEvent::WsDown => EventV::WsDown,
            OmsEvent::Synced { resting, positions } => EventV::Synced {
                resting: resting as nat,
                positions: positions as nat,
            },
        }
    }
}

/// The views of a run of events.
pub open spec fn event_views(s: Seq<OmsEvent>) -> Seq<EventV> {
    Seq::new(s.len(), |i: int| s[i]@)
}

/// How the manager is doing.
#[derive(Clone, Copy, Debug, PartialEq, Eq, Structural)]
pub struct OmsHealth {
    pub ws_up: bool,
    pub ws_age_ms: i64,
    pub sync_age_ms: i64,
    pub open_orders: usize,
    pub unknown_orders: usize,
    pub positions: usize,
}

/// How many fill ids are remembered.
pub const SEEN_FILLS_CAP: usize = 20_000;

/// The state, as the contracts see it.
pub struct OmsV {
    pub orders: Map<Seq<char>, OrderV>,
    pub by_client: Map<Seq<char>, Seq<char>>,
    pub positions: Map<Seq<char>, PositionRec>,
    /// The remembered fill ids, oldest first.
    pub seen: Seq<Seq<char>>,
    pub ws_up: bool,
    pub last_ws_ms: i64,
    pub last_sync_ms: i64,
    pub last_fill_ms: i64,
    pub actions: Seq<(i64, ())>,
}

/// The status that a report gives an order; a resting report does not clear a cancel in
/// flight, and an unknown word changes nothing.
pub open spec fn status_after(s: Seq<char>, current: OrderStatus) -> OrderStatus {
    if s == "resting"@ {
        if current == OrderStatus::Canceling {
            OrderStatus::Canceling
        } else {
            OrderStatus::Resting
        }
    } else if s == "canceled"@ || s == "cancelled"@ {
        OrderStatus::Canceled
    } else if s == "executed"@ {
        OrderStatus::Executed
    } else {
        current
    }
}

/// The status that a report gives an order.
pub fn map_status(s: &str, current: OrderStatus) -> (r: OrderStatus)
    ensures
        r == status_after(s@, current),
{
    if same(s, "resting") {
        if current == OrderStatus::Canceling {
            OrderStatus::Canceling
        } else {
            OrderStatus::Resting
        }
    } else if same(s, "canceled") || same(s, "cancelled") {
        OrderStatus::Canceled
    } else if same(s, "executed") {
        OrderStatus::Executed
    } else {
        current
    }
}

/// The key of the order that two ids lead to: by order id first, then by client id.
pub open spec fn key_of(v: OmsV, order_id: Seq<char>, client_id: Seq<char>) -> Option<Seq<char>> {
    if order_id.len() > 0 && v.orders.contains_key(order_id) {
        Some(order_id)
    } else if client_id.len() > 0 && v.by_client.contains_key(client_id) {
        Some(v.by_client[client_id])
    } else {
        None
    }
}

/// One order of two records of it: `r`, which comes to an id, and `s`, which stands there
/// already because a fill or a report was quicker. The larger filled count holds, the
/// fills seen of both add up, and what is left and the status follow from that. What `s`
/// knows of the status holds against an order that still waits for its acknowledgement,
/// and where it is over.
pub open spec fn spliced(r: OrderV, s: OrderV) -> OrderV {
    let sum = fixed::clamp64(r.fills_sum + s.fills_sum);
    let filled = fixed::larger(fixed::larger(r.filled as int, s.filled as int), sum);
    let initial = if r.initial > 0 {
        r.initial
    } else {
        s.initial
    };
    let left = left_of(initial, filled);
    let st = if !s.status.open_spec() || (r.status == OrderStatus::Pending && s.status
        != OrderStatus::Unknown) {
        s.status
    } else {
        r.status
    };
    OrderV {
        initial,
        filled: filled as i64,
        remaining: if initial <= 0 {
            r.remaining
        } else if 0 <= r.remaining < left {
            r.remaining
        } else {
            left as i64
        },
        status: if initial > 0 && left <= 0 && st != OrderStatus::Canceled {
            OrderStatus::Executed
        } else {
            st
        },
        updated_ms: fixed::larger(r.updated_ms as int, s.updated_ms as int) as i64,
        managed: r.managed || s.managed,
        fills_sum: sum as i64,
        ..r
    }
}

/// The order at `old_key` moved to `new_key`, its client id with it. Where a record stands
/// at `new_key` already, the two become one.
pub open spec fn rekeyed(v: OmsV, old_key: Seq<char>, new_key: Seq<char>) -> OmsV {
    if old_key == new_key || new_key.len() == 0 || !v.orders.contains_key(old_key) {
        v
    } else {
        let moved = OrderV { order_id: new_key, ..v.orders[old_key] };
        let r = if v.orders.contains_key(new_key) {
            spliced(moved, v.orders[new_key])
        } else {
            moved
        };
        OmsV {
            orders: v.orders.remove(old_key).insert(new_key, r),
            by_client: if r.client_id.len() > 0 {
                v.by_client.insert(r.client_id, new_key)
            } else {
                v.by_client
            },
            ..v
        }
    }
}

/// The key that an order waits under for its acknowledgement.
pub open spec fn pending_key(client_id: Seq<char>) -> Seq<char> {
    "pending:"@ + client_id
}

/// An order that is about to be sent.
pub open spec fn pending_order(
    client_id: Seq<char>,
    ticker: Seq<char>,
    side: BookSide,
    yes_price: i64,
    size: i64,
    now_ms: i64,
) -> OrderV {
    OrderV {
        order_id: Seq::empty(),
        client_id,
        ticker,
        side,
        yes_price,
        initial: size,
        filled: 0,
        remaining: size,
        status: OrderStatus::Pending,
        created_ms: now_ms,
        updated_ms: now_ms,
        managed: true,
        fills_sum: 0,
    }
}

/// The state with one order more, in place of what was at its key.
pub open spec fn with_order(v: OmsV, k: Seq<char>, r: OrderV) -> OmsV {
    OmsV { orders: v.orders.insert(k, r), ..v }
}

/// An order once its placement is acknowledged.
pub open spec fn acked(r: OrderV, now_ms: i64) -> OrderV {
    OrderV {
        status: if r.status == OrderStatus::Pending {
            OrderStatus::Resting
        } else {
            r.status
        },
        updated_ms: fixed::larger(r.updated_ms as int, now_ms as int) as i64,
        ..r
    }
}

/// An order once the venue says how much of it a cancel took off the book.
pub open spec fn cancelled(r: OrderV, reduced_by: i64, now_ms: i64) -> OrderV {
    let filled = fixed::larger(
        fixed::larger(fixed::clamp64(r.initial - reduced_by), r.filled as int),
        0,
    );
    OrderV {
        filled: filled as i64,
        remaining: 0,
        status: if filled >= r.initial {
            OrderStatus::Executed
        } else {
            OrderStatus::Canceled
        },
        updated_ms: now_ms,
        ..r
    }
}

/// An order whose state is not established.
pub open spec fn lost(r: OrderV, now_ms: i64) -> OrderV {
    OrderV { status: OrderStatus::Unknown, updated_ms: now_ms, ..r }
}

/// What is left of an order of this size with this much filled.
pub open spec fn left_of(initial: i64, filled: int) -> int {
    fixed::clamp64(fixed::larger(initial - filled, 0))
}

/// An order with a report's numbers and status merged in. The filled count only grows.
pub open spec fn merged(r: OrderV, m: OrderMsg) -> OrderV {
    let initial = if m.initial > 0 {
        m.initial
    } else {
        r.initial
    };
    let filled = fixed::larger(
        fixed::larger(r.filled as int, m.filled as int),
        r.fills_sum as int,
    );
    let left = left_of(initial, filled);
    let remaining = if m.remaining >= 0 {
        fixed::smaller(m.remaining as int, left)
    } else {
        left
    };
    let st = status_after(m.status@, r.status);
    OrderV {
        initial,
        filled: filled as i64,
        remaining: remaining as i64,
        yes_price: if m.yes_price > 0 {
            m.yes_price
        } else {
            r.yes_price
        },
        status: if st == OrderStatus::Resting && remaining <= 0 && initial > 0 {
            OrderStatus::Executed
        } else {
            st
        },
        updated_ms: m.updated_ms,
        ..r
    }
}

/// An order first heard of through a report.
pub open spec fn discovered(m: OrderMsg, managed: bool) -> OrderV {
    OrderV {
        order_id: m.order_id@,
        client_id: m.client_id@,
        ticker: m.ticker@,
        side: m.side,
        yes_price: m.yes_price,
        initial: m.initial,
        filled: 0,
        remaining: m.remaining,
        status: OrderStatus::Resting,
        created_ms: m.updated_ms,
        updated_ms: 0,
        managed,
        fills_sum: 0,
    }
}

/// The state and the key once a report's ids are linked to an order: moved to the
/// report's order id where it was known otherwise, or newly made. No key means that the
/// report names no order.
pub open spec fn linked(v: OmsV, m: OrderMsg, managed: bool) -> (OmsV, Option<Seq<char>>) {
    match key_of(v, m.order_id@, m.client_id@) {
        Some(k) => if k != m.order_id@ && m.order_id@.len() > 0 {
            (rekeyed(v, k, m.order_id@), Some(m.order_id@))
        } else {
            (v, Some(k))
        },
        None => if m.order_id@.len() == 0 {
            (v, None)
        } else {
            (
                OmsV {
                    orders: v.orders.insert(m.order_id@, discovered(m, managed)),
                    by_client: if m.client_id@.len() > 0 {
                        v.by_client.insert(m.client_id@, m.order_id@)
                    } else {
                        v.by_client
                    },
                    ..v
                },
                Some(m.order_id@),
            )
        },
    }
}

/// Whether a linked report applies: there is such an order, and the report is not older
/// than what is known.
pub open spec fn applies(v: OmsV, k: Option<Seq<char>>, m: OrderMsg) -> bool {
    k is Some && v.orders.contains_key(k->0) && m.updated_ms >= v.orders[k->0].updated_ms
}

/// The state after a report.
pub open spec fn observed(v: OmsV, m: OrderMsg, managed: bool) -> OmsV {
    let (w, k) = linked(v, m, managed);
    if applies(w, k, m) {
        with_order(w, k->0, merged(w.orders[k->0], m))
    } else {
        w
    }
}

/// What a report tells the outside.
pub open spec fn observed_events(v: OmsV, m: OrderMsg, managed: bool) -> Seq<EventV> {
    let (w, k) = linked(v, m, managed);
    if applies(w, k, m) {
        let r = w.orders[k->0];
        let r1 = merged(r, m);
        if r.status == OrderStatus::Unknown && !r1.status.locks() {
            seq![EventV::OrderUpdate(r1), EventV::Resolved(r1)]
        } else {
            seq![EventV::OrderUpdate(r1)]
        }
    } else {
        Seq::empty()
    }
}

/// An order first heard of through a fill: its size is not known.
pub open spec fn order_of_fill(f: FillRec) -> OrderV {
    OrderV {
        order_id: f.order_id@,
        client_id: Seq::empty(),
        ticker: f.ticker@,
        side: f.side,
        yes_price: f.yes_price,
        initial: 0,
        filled: 0,
        remaining: -1_000_000i64,
        status: OrderStatus::Unknown,
        created_ms: f.ts_ms,
        updated_ms: 0,
        managed: false,
        fills_sum: 0,
    }
}

/// An order with one fill more.
pub open spec fn with_fill(r: OrderV, f: FillRec) -> OrderV {
    let sum = fixed::clamp64(r.fills_sum + f.count);
    let filled = fixed::larger(r.filled as int, sum);
    let left = left_of(r.initial, filled);
    OrderV {
        fills_sum: sum as i64,
        filled: filled as i64,
        remaining: if r.initial > 0 {
            left as i64
        } else {
            r.remaining
        },
        status: if r.initial > 0 && left <= 0 && r.status != OrderStatus::Canceled {
            OrderStatus::Executed
        } else {
            r.status
        },
        updated_ms: fixed::larger(r.updated_ms as int, f.ts_ms as int) as i64,
        ..r
    }
}

/// The fill ids remembered after one more.
pub open spec fn remembered(seen: Seq<Seq<char>>, id: Seq<char>) -> Seq<Seq<char>> {
    if seen.len() >= SEEN_FILLS_CAP {
        seen.push(id).skip(1)
    } else {
        seen.push(id)
    }
}

/// Whether a fill is new: it has an id, and that id is not remembered.
pub open spec fn is_new(v: OmsV, f: FillRec) -> bool {
    f.fill_id@.len() > 0 && !v.seen.contains(f.fill_id@)
}

/// The order that a fill belongs to, or what is known of it from the fill alone.
pub open spec fn filled_order(v: OmsV, f: FillRec) -> OrderV {
    with_fill(
        if v.orders.contains_key(f.order_id@) {
            v.orders[f.order_id@]
        } else {
            order_of_fill(f)
        },
        f,
    )
}

/// The position in a market.
pub open spec fn position_in(v: OmsV, ticker: Seq<char>) -> PositionRec {
    if v.positions.contains_key(ticker) {
        v.positions[ticker]
    } else {
        no_position()
    }
}

/// The state after a fill: nothing where it is not new; else its id is remembered, its
/// order grows by it, and the estimate of its market moves by it.
pub open spec fn after_fill(v: OmsV, f: FillRec) -> OmsV {
    if !is_new(v, f) {
        v
    } else {
        let p = position_in(v, f.ticker@);
        OmsV {
            orders: if f.order_id@.len() > 0 {
                v.orders.insert(f.order_id@, filled_order(v, f))
            } else {
                v.orders
            },
            positions: v.positions.insert(
                f.ticker@,
                PositionRec {
                    est: fixed::clamp64(p.est + f.side.sign_of(f.count as int)) as i64,
                    est_ts_ms: fixed::larger(p.est_ts_ms as int, f.ts_ms as int) as i64,
                    ..p
                },
            ),
            seen: remembered(v.seen, f.fill_id@),
            last_fill_ms: fixed::larger(v.last_fill_ms as int, f.ts_ms as int) as i64,
            ..v
        }
    }
}

/// What a fill tells the outside.
pub open spec fn fill_events(v: OmsV, f: FillRec) -> Seq<EventV> {
    if !is_new(v, f) {
        Seq::empty()
    } else if f.order_id@.len() > 0 {
        seq![EventV::Fill(f), EventV::OrderUpdate(filled_order(v, f))]
    } else {
        seq![EventV::Fill(f)]
    }
}

/// The state after the venue gave a position: its number replaces the estimate too. One
/// older than the last is passed over.
pub open spec fn positioned(v: OmsV, ticker: Seq<char>, position: i64, ts_ms: i64) -> OmsV {
    let p = position_in(v, ticker);
    OmsV {
        positions: v.positions.insert(
            ticker,
            if ts_ms < p.auth_ts_ms {
                p
            } else {
                PositionRec { auth: position, auth_ts_ms: ts_ms, est: position, est_ts_ms: ts_ms }
            },
        ),
        ..v
    }
}

/// What a position tells the outside.
pub open spec fn position_events(v: OmsV, ticker: Seq<char>, position: i64, ts_ms: i64) -> Seq<
    EventV,
> {
    if ts_ms < position_in(v, ticker).auth_ts_ms {
        Seq::empty()
    } else {
        seq![EventV::Position { ticker, auth: position, ts_ms }]
    }
}

/// The state after a list of reports, one after the other.
pub open spec fn observed_all(v: OmsV, rows: Seq<OrderMsg>) -> OmsV
    decreases rows.len(),
{
    if rows.len() == 0 {
        v
    } else {
        observed(observed_all(v, rows.drop_last()), rows.last(), false)
    }
}

/// What a list of reports tells the outside.
pub open spec fn observed_all_events(v: OmsV, rows: Seq<OrderMsg>) -> Seq<EventV>
    decreases rows.len(),
{
    if rows.len() == 0 {
        Seq::empty()
    } else {
        observed_all_events(v, rows.drop_last()) + observed_events(
            observed_all(v, rows.drop_last()),
            rows.last(),
            false,
        )
    }
}

/// Whether some report is of this order id.
pub open spec fn listed(rows: Seq<OrderMsg>, k: Seq<char>) -> bool {
    exists|i: int| 0 <= i < rows.len() && (#[trigger] rows[i]).order_id@ == k
}

/// Whether a poll of the resting orders leaves an order's state open: a managed one that
/// is not listed though it should rest, and was quiet for the grace time; or one that was
/// never acknowledged within that time (at least five seconds).
pub open spec fn vanished(k: Seq<char>, r: OrderV, rows: Seq<OrderMsg>, now_ms: i64, grace_ms: i64) -> bool {
    r.managed && (((r.status == OrderStatus::Resting || r.status == OrderStatus::Canceling)
        && !listed(rows, k) && now_ms - r.updated_ms > grace_ms) || (r.status
        == OrderStatus::Pending && now_ms - r.created_ms > fixed::larger(grace_ms as int, 5_000)))
}

/// The state after a poll of the resting orders.
pub open spec fn synced(v: OmsV, rows: Seq<OrderMsg>, now_ms: i64, grace_ms: i64) -> OmsV {
    let w = observed_all(v, rows);
    OmsV {
        orders: Map::new(
            |k: Seq<char>| w.orders.contains_key(k),
            |k: Seq<char>|
                if vanished(k, w.orders[k], rows, now_ms, grace_ms) {
                    lost(w.orders[k], now_ms)
                } else {
                    w.orders[k]
                },
        ),
        last_sync_ms: now_ms,
        ..w
    }
}

/// The state after a list of positions, one after the other.
pub open spec fn positioned_all(v: OmsV, rows: Seq<(String, i64)>, now_ms: i64) -> OmsV
    decreases rows.len(),
{
    if rows.len() == 0 {
        v
    } else {
        positioned(
            positioned_all(v, rows.drop_last(), now_ms),
            rows.last().0@,
            rows.last().1,
            now_ms,
        )
    }
}

/// Whether some row is of this ticker.
pub open spec fn has_row(rows: Seq<(String, i64)>, t: Seq<char>) -> bool {
    exists|i: int| 0 <= i < rows.len() && (#[trigger] rows[i]).0@ == t
}

/// The state after a poll of all positions: the rows hold, and a market without a row is
/// flat.
pub open spec fn positions_synced(v: OmsV, rows: Seq<(String, i64)>, now_ms: i64) -> OmsV {
    let w = positioned_all(v, rows, now_ms);
    OmsV {
        positions: Map::new(
            |t: Seq<char>| w.positions.contains_key(t),
            |t: Seq<char>|
                if has_row(rows, t) {
                    w.positions[t]
                } else {
                    positioned(w, t, 0, now_ms).positions[t]
                },
        ),
        ..w
    }
}

/// Whether an order is over and old enough to forget.
pub open spec fn is_dead(r: OrderV, now_ms: i64, keep_ms: i64) -> bool {
    !r.status.open_spec() && now_ms - r.updated_ms > keep_ms
}

/// Whether some managed order of this market and side is not settled.
pub open spec fn locked(v: OmsV, ticker: Seq<char>, side: BookSide) -> bool {
    exists|k: Seq<char>| #[trigger]
        v.orders.contains_key(k) && v.orders[k].managed && v.orders[k].ticker == ticker
            && v.orders[k].side == side && v.orders[k].status.locks()
}

/// The write actions of the last second.
pub open spec fn recent_actions(v: OmsV, now_ms: i64) -> Seq<(i64, ())> {
    ring::dropped(v.actions, now_ms - 1000)
}

/// Whether one more write action keeps within `max_per_s` (in micro-units) a second.
pub open spec fn within_budget(v: OmsV, now_ms: i64, max_per_s: i64) -> bool {
    recent_actions(v, now_ms).len() * 1_000_000 < max_per_s
}

/// The state after a write action was asked for: those of the last second are kept, and
/// the new one with them where it is within the budget.
pub open spec fn budgeted(v: OmsV, now_ms: i64, max_per_s: i64) -> OmsV {
    OmsV {
        actions: if within_budget(v, now_ms, max_per_s) {
            recent_actions(v, now_ms).push((now_ms, ()))
        } else {
            recent_actions(v, now_ms)
        },
        ..v
    }
}

/// The state after a cancel was sent: an order that may still be on the book is being
/// canceled.
pub open spec fn cancel_sent(v: OmsV, order_id: Seq<char>, now_ms: i64) -> OmsV {
    if v.orders.contains_key(order_id) && v.orders[order_id].status.open_spec() {
        with_order(
            v,
            order_id,
            OrderV { status: OrderStatus::Canceling, updated_ms: now_ms, ..v.orders[order_id] },
        )
    } else {
        v
    }
}

/// One order of two records of it: `r`, which comes to an id, and `s`, which stands there
/// already.
fn splice(r: OrderRec, s: &OrderRec) -> (out: OrderRec)
    ensures
        out@ == spliced(r@, s@),
{
    let mut out = r;
    let sum: i64 = sat(out.fills_sum as i128 + s.fills_sum as i128);
    let filled: i64 = max64(max64(out.filled, s.filled), sum);
    if !s.status.is_open() || (out.status == OrderStatus::Pending && s.status
        != OrderStatus::Unknown) {
        out.status = s.status;
    }
    if out.initial <= 0 {
        out.initial = s.initial;
    }
    if out.initial > 0 {
        let gap: i128 = out.initial as i128 - filled as i128;
        let left: i64 = sat(if gap >= 0 {
            gap
        } else {
            0
        });
        if !(0 <= out.remaining && out.remaining < left) {
            out.remaining = left;
        }
        if left <= 0 && out.status != OrderStatus::Canceled {
            out.status = OrderStatus::Executed;
        }
    }
    out.filled = filled;
    out.fills_sum = sum;
    out.updated_ms = max64(out.updated_ms, s.updated_ms);
    out.managed = out.managed || s.managed;
    out
}

/// The order and position state.
pub struct OmsState {
    orders: StrMap<OrderRec>,
    by_client: StrMap<String>,
    positions: StrMap<PositionRec>,
    seen_fills: StringHashSet,
    seen_q: VecDeque<String>,
    ws_up: bool,
    last_ws_ms: i64,
    last_sync_ms: i64,
    last_fill_ms: i64,
    actions: VecDeque<(i64, ())>,
}

/// No id twice.
pub open spec fn no_repeats(s: Seq<Seq<char>>) -> bool {
    forall|i: int, j: int| #![trigger s[i], s[j]] 0 <= i < j < s.len() ==> s[i] != s[j]
}

impl Default for OmsState {
    fn default() -> (r: OmsState)
        ensures
            r.wf(),
            r@.orders == Map::<Seq<char>, OrderV>::empty(),
            r@.by_client == Map::<Seq<char>, Seq<char>>::empty(),
            r@.positions == Map::<Seq<char>, PositionRec>::empty(),
            r@.seen == Seq::<Seq<char>>::empty(),
            !r@.ws_up,
            r@.last_ws_ms == 0,
            r@.last_sync_ms == 0,
            r@.last_fill_ms == 0,
            r@.actions == Seq::<(i64, ())>::empty(),
    {
        OmsState::new()
    }
}

impl View for OmsState {
    type V = OmsV;

    closed spec fn view(&self) -> OmsV {
        OmsV {
            orders: self.orders@.map_values(|r: OrderRec| r@),
            by_client: self.by_client@.map_values(|k: String| k@),
            positions: self.positions@,
            seen: text::views(self.seen_q@),
            ws_up: self.ws_up,
            last_ws_ms: self.last_ws_ms,
            last_sync_ms: self.last_sync_ms,
            last_fill_ms: self.last_fill_ms,
            actions: self.actions@,
        }
    }
}

impl OmsState {
    /// The remembered fill ids are kept both as a queue and as a set, and are few enough.
    pub closed spec fn wf(&self) -> bool {
        &&& no_repeats(self@.seen)
        &&& self@.seen.len() <= SEEN_FILLS_CAP
        &&& forall|id: Seq<char>| #[trigger]
            self.seen_fills@.contains(id) <==> self@.seen.contains(id)
    }

    /// The orders with their keys, in some order, each once.
    pub closed spec fn listing(&self) -> Seq<(String, OrderRec)> {
        self.orders.pairs()
    }

    /// Nothing known.
    pub fn new() -> (r: OmsState)
        ensures
            r.wf(),
            r@.orders == Map::<Seq<char>, OrderV>::empty(),
            r@.by_client == Map::<Seq<char>, Seq<char>>::empty(),
            r@.positions == Map::<Seq<char>, PositionRec>::empty(),
            r@.seen == Seq::<Seq<char>>::empty(),
            !r@.ws_up,
            r@.last_ws_ms == 0,
            r@.last_sync_ms == 0,
            r@.last_fill_ms == 0,
            r@.actions == Seq::<(i64, ())>::empty(),
    {
        let r = OmsState {
            orders: StrMap::new(),
            by_client: StrMap::new(),
            positions: StrMap::new(),
            seen_fills: StringHashSet::new(),
            seen_q: VecDeque::new(),
            ws_up: false,
            last_ws_ms: 0,
            last_sync_ms: 0,
            last_fill_ms: 0,
            actions: VecDeque::new(),
        };
        assert(r@.orders =~= Map::<Seq<char>, OrderV>::empty());
        assert(r@.by_client =~= Map::<Seq<char>, Seq<char>>::empty());
        assert(r@.seen =~= Seq::<Seq<char>>::empty());
        r
    }

    fn key_for(&self, order_id: &str, client_id: &str) -> (r: Option<String>)
        ensures
            match r {
                Some(k) => key_of(self@, order_id@, client_id@) == Some(k@),
                None => key_of(self@, order_id@, client_id@) is None,
            },
    {
        if !order_id.is_empty() && self.orders.contains(order_id) {
            return Some(order_id.to_string());
        }
        if !client_id.is_empty() {
            if let Some(k) = self.by_client.get(client_id) {
                return Some(k.clone());
            }
        }
        None
    }

    /// Puts an order at `k`.
    fn put(&mut self, k: String, r: OrderRec)
        ensures
            final(self)@ == with_order(old(self)@, k@, r@),
            old(self).wf() ==> final(self).wf(),
    {
        let ghost v = self@;
        self.orders.insert(k, r);
        assert(self@.orders =~= v.orders.insert(k@, r@));
    }

    /// Notes which order a client id stands for.
    fn link(&mut self, client_id: String, k: String)
        ensures
            final(self)@ == (OmsV {
                by_client: old(self)@.by_client.insert(client_id@, k@),
                ..old(self)@
            }),
            old(self).wf() ==> final(self).wf(),
    {
        let ghost v = self@;
        self.by_client.insert(client_id, k);
        assert(self@.by_client =~= v.by_client.insert(client_id@, k@));
    }

    fn rekey(&mut self, old_key: &str, new_key: &str)
        ensures
            final(self)@ == rekeyed(old(self)@, old_key@, new_key@),
            old(self).wf() ==> final(self).wf(),
    {
        if same(old_key, new_key) || new_key.is_empty() {
            return ;
        }
        let ghost v = self@;
        if let Some(mut r) = self.orders.remove(old_key) {
            assert(self@.orders =~= v.orders.remove(old_key@));
            let ghost r0 = r@;
            r.order_id = new_key.to_string();
            assert(r@ == (OrderV { order_id: new_key@, ..r0 }));
            if !r.client_id.as_str().is_empty() {
                self.link(r.client_id.clone(), new_key.to_string());
            }
            let met: Option<OrderRec> = self.order(new_key);
            let ghost moved = r@;
            let r = match met {
                Some(s) => {
                    assert(v.orders.contains_key(new_key@) && v.orders[new_key@] == s@);
                    splice(r, &s)
                },
                None => {
                    assert(!v.orders.contains_key(new_key@));
                    r
                },
            };
            assert(r@ == if v.orders.contains_key(new_key@) {
                spliced(moved, v.orders[new_key@])
            } else {
                moved
            });
            self.put(new_key.to_string(), r);
            assert(self@.orders == rekeyed(v, old_key@, new_key@).orders);
            assert(self@.by_client == rekeyed(v, old_key@, new_key@).by_client);
        } else {
            assert(self@.orders =~= v.orders);
        }
    }

    /// Notes an order that is about to be sent.
    pub fn register_pending(
        &mut self,
        client_id: &str,
        ticker: &str,
        side: BookSide,
        yes_price: i64,
        size: i64,
        now_ms: i64,
    )
        requires
            old(self).wf(),
        ensures
            final(self).wf(),
            final(self)@ == (OmsV {
                orders: old(self)@.orders.insert(
                    pending_key(client_id@),
                    pending_order(client_id@, ticker@, side, yes_price, size, now_ms),
                ),
                by_client: old(self)@.by_client.insert(client_id@, pending_key(client_id@)),
                ..old(self)@
            }),
    {
        let key = joined("pending:", client_id);
        let rec = OrderRec {
            order_id: String::new(),
            client_id: client_id.to_string(),
            ticker: ticker.to_string(),
            side,
            yes_price,
            initial: size,
            filled: 0,
            remaining: size,
            status: OrderStatus::Pending,
            created_ms: now_ms,
            updated_ms: now_ms,
            managed: true,
            fills_sum: 0,
        };
        self.link(client_id.to_string(), key.clone());
        self.put(key, rec);
    }

    /// The venue gave our placement an order id.
    pub fn on_place_ack(&mut self, client_id: &str, order_id: &str, now_ms: i64) -> (ev: Vec<
        OmsEvent,
    >)
        requires
            old(self).wf(),
        ensures
            final(self).wf(),
            match key_of(old(self)@, Seq::empty(), client_id@) {
                None => final(self)@ == old(self)@ && ev@.len() == 0,
                Some(k) => {
                    let w = rekeyed(old(self)@, k, order_id@);
                    if w.orders.contains_key(order_id@) {
                        let r = acked(w.orders[order_id@], now_ms);
                        final(self)@ == with_order(w, order_id@, r) && event_views(ev@) == seq![
                            EventV::OrderUpdate(r),
                        ]
                    } else {
                        final(self)@ == w && ev@.len() == 0
                    }
                },
            },
    {
        let mut ev: Vec<OmsEvent> = Vec::new();
        proof {
            reveal_strlit("");
            assert(""@ =~= Seq::<char>::empty());
        }
        let key = match self.key_for("", client_id) {
            Some(k) => k,
            None => {
                return ev;
            },
        };
        self.rekey(key.as_str(), order_id);
        let found: Option<OrderRec> = match self.orders.get(order_id) {
            Some(r) => Some(r.clone()),
            None => None,
        };
        if let Some(mut r) = found {
            if r.status == OrderStatus::Pending {
                r.status = OrderStatus::Resting;
            }
            r.updated_ms = max64(r.updated_ms, now_ms);
            let out = r.clone();
            self.put(order_id.to_string(), r);
            ev.push(OmsEvent::OrderUpdate(out));
            assert(event_views(ev@) =~= seq![EventV::OrderUpdate(out@)]);
        }
        ev
    }

    /// The placement failed: for certain, then the order does not exist; else it may, and
    /// its state is not known.
    pub fn on_place_reject(&mut self, client_id: &str, definite: bool, now_ms: i64) -> (ev: Vec<
        OmsEvent,
    >)
        requires
            old(self).wf(),
        ensures
            final(self).wf(),
            match key_of(old(self)@, Seq::empty(), client_id@) {
                None => final(self)@ == old(self)@ && ev@.len() == 0,
                Some(k) => if definite {
                    final(self)@ == (OmsV {
                        orders: old(self)@.orders.remove(k),
                        by_client: old(self)@.by_client.remove(client_id@),
                        ..old(self)@
                    }) && ev@.len() == 0
                } else if old(self)@.orders.contains_key(k) {
                    final(self)@ == with_order(old(self)@, k, lost(old(self)@.orders[k], now_ms))
                        && event_views(ev@) == seq![EventV::Unknown { order_id: k }]
                } else {
                    final(self)@ == old(self)@ && ev@.len() == 0
                },
            },
    {
        let mut ev: Vec<OmsEvent> = Vec::new();
        let ghost v = self@;
        proof {
            reveal_strlit("");
            assert(""@ =~= Seq::<char>::empty());
        }
        let key = match self.key_for("", client_id) {
            Some(k) => k,
            None => {
                return ev;
            },
        };
        if definite {
            let _ = self.orders.remove(key.as_str());
            let _ = self.by_client.remove(client_id);
            assert(self@.orders =~= v.orders.remove(key@));
            assert(self@.by_client =~= v.by_client.remove(client_id@));
            return ev;
        }
        let found: Option<OrderRec> = match self.orders.get(key.as_str()) {
            Some(r) => Some(r.clone()),
            None => None,
        };
        if let Some(mut r) = found {
            r.status = OrderStatus::Unknown;
            r.updated_ms = now_ms;
            self.put(key.clone(), r);
            ev.push(OmsEvent::Unknown { order_id: key });
            assert(event_views(ev@) =~= seq![EventV::Unknown { order_id: key@ }]);
        }
        ev
    }

    /// A cancel was sent.
    pub fn on_cancel_sent(&mut self, order_id: &str, now_ms: i64)
        requires
            old(self).wf(),
        ensures
            final(self).wf(),
            final(self)@ == cancel_sent(old(self)@, order_id@, now_ms),
    {
        let found: Option<OrderRec> = match self.orders.get(order_id) {
            Some(r) => Some(r.clone()),
            None => None,
        };
        if let Some(mut r) = found {
            if r.status.is_open() {
                r.status = OrderStatus::Canceling;
                r.updated_ms = now_ms;
                self.put(order_id.to_string(), r);
            }
        }
    }

    /// The outcome of a cancel: how much came off the book, or that the order was gone, or
    /// nothing. Only the first settles the order.
    pub fn on_cancel_outcome(
        &mut self,
        order_id: &str,
        outcome: Option<CancelOutcome>,
        now_ms: i64,
    ) -> (ev: Vec<OmsEvent>)
        requires
            old(self).wf(),
        ensures
            final(self).wf(),
            if old(self)@.orders.contains_key(order_id@) {
                let r = old(self)@.orders[order_id@];
                match outcome {
                    Some(CancelOutcome::Canceled { reduced_by }) => final(self)@ == with_order(
                        old(self)@,
                        order_id@,
                        cancelled(r, reduced_by, now_ms),
                    ) && event_views(ev@) == seq![
                        EventV::OrderUpdate(cancelled(r, reduced_by, now_ms)),
                    ],
                    _ => final(self)@ == with_order(old(self)@, order_id@, lost(r, now_ms))
                        && event_views(ev@) == seq![EventV::Unknown { order_id: order_id@ }],
                }
            } else {
                final(self)@ == old(self)@ && ev@.len() == 0
            },
    {
        let mut ev: Vec<OmsEvent> = Vec::new();
        let found: Option<OrderRec> = match self.orders.get(order_id) {
            Some(r) => Some(r.clone()),
            None => None,
        };
        if let Some(mut r) = found {
            r.updated_ms = now_ms;
            match outcome {
                Some(CancelOutcome::Canceled { reduced_by }) => {
                    let off: i64 = sat(r.initial as i128 - reduced_by as i128);
                    let filled: i64 = max64(max64(off, r.filled), 0);
                    r.filled = filled;
                    r.remaining = 0;
                    r.status = if filled >= r.initial {
                        OrderStatus::Executed
                    } else {
                        OrderStatus::Canceled
                    };
                    let out = r.clone();
                    self.put(order_id.to_string(), r);
                    ev.push(OmsEvent::OrderUpdate(out));
                    assert(event_views(ev@) =~= seq![EventV::OrderUpdate(out@)]);
                },
                _ => {
                    r.status = OrderStatus::Unknown;
                    self.put(order_id.to_string(), r);
                    ev.push(OmsEvent::Unknown { order_id: order_id.to_string() });
                    assert(event_views(ev@) =~= seq![EventV::Unknown { order_id: order_id@ }]);
                },
            }
        }
        ev
    }

    /// Links a report's ids to an order.
    fn link_msg(&mut self, m: &OrderMsg, managed_hint: bool) -> (r: Option<String>)
        ensures
            old(self).wf() ==> final(self).wf(),
            ({
                let (w, k) = linked(old(self)@, *m, managed_hint);
                final(self)@ == w && match r {
                    Some(s) => k == Some(s@),
                    None => k is None,
                }
            }),
    {
        match self.key_for(m.order_id.as_str(), m.client_id.as_str()) {
            Some(k) => {
                if !same(k.as_str(), m.order_id.as_str()) && !m.order_id.as_str().is_empty() {
                    self.rekey(k.as_str(), m.order_id.as_str());
                    Some(m.order_id.clone())
                } else {
                    Some(k)
                }
            },
            None => {
                if m.order_id.as_str().is_empty() {
                    return None;
                }
                let rec = OrderRec {
                    order_id: m.order_id.clone(),
                    client_id: m.client_id.clone(),
                    ticker: m.ticker.clone(),
                    side: m.side,
                    yes_price: m.yes_price,
                    initial: m.initial,
                    filled: 0,
                    remaining: m.remaining,
                    status: OrderStatus::Resting,
                    created_ms: m.updated_ms,
                    updated_ms: 0,
                    managed: managed_hint,
                    fills_sum: 0,
                };
                if !m.client_id.as_str().is_empty() {
                    self.link(m.client_id.clone(), m.order_id.clone());
                }
                self.put(m.order_id.clone(), rec);
                Some(m.order_id.clone())
            },
        }
    }

    /// Takes a report of an order's state.
    pub fn on_order_msg(&mut self, m: &OrderMsg, managed_hint: bool) -> (ev: Vec<OmsEvent>)
        requires
            old(self).wf(),
        ensures
            final(self).wf(),
            final(self)@ == observed(old(self)@, *m, managed_hint),
            event_views(ev@) == observed_events(old(self)@, *m, managed_hint),
    {
        let mut ev: Vec<OmsEvent> = Vec::new();
        let ghost v0 = self@;
        let key = match self.link_msg(m, managed_hint) {
            Some(k) => k,
            None => {
                assert(event_views(ev@) =~= Seq::<EventV>::empty());
                return ev;
            },
        };
        let ghost w = self@;
        let found: Option<OrderRec> = match self.orders.get(key.as_str()) {
            Some(r) => Some(r.clone()),
            None => None,
        };
        let mut r: OrderRec = match found {
            Some(r) => r,
            None => {
                assert(event_views(ev@) =~= Seq::<EventV>::empty());
                return ev;
            },
        };
        let ghost r0 = r@;
        assert(r0 == w.orders[key@]);
        if m.updated_ms < r.updated_ms {
            assert(event_views(ev@) =~= Seq::<EventV>::empty());
            return ev;
        }
        if m.initial > 0 {
            r.initial = m.initial;
        }
        r.filled = max64(max64(r.filled, m.filled), r.fills_sum);
        let gap: i128 = r.initial as i128 - r.filled as i128;
        let left: i64 = sat(if gap >= 0 {
            gap
        } else {
            0
        });
        r.remaining = if m.remaining >= 0 {
            min64(m.remaining, left)
        } else {
            left
        };
        if m.yes_price > 0 {
            r.yes_price = m.yes_price;
        }
        let was_unknown: bool = r.status == OrderStatus::Unknown;
        r.status = map_status(m.status.as_str(), r.status);
        if r.status == OrderStatus::Resting && r.remaining <= 0 && r.initial > 0 {
            r.status = OrderStatus::Executed;
        }
        r.updated_ms = m.updated_ms;
        assert(r@ == merged(r0, *m));
        let settled: bool = !r.status.locks_side();
        let out = r.clone();
        let again = r.clone();
        self.put(key, r);
        ev.push(OmsEvent::OrderUpdate(out));
        if was_unknown && settled {
            ev.push(OmsEvent::Resolved(again));
        }
        assert(event_views(ev@) =~= observed_events(v0, *m, managed_hint));
        ev
    }

    /// Remembers a fill id, and forgets the oldest where there are too many.
    fn remember(&mut self, id: &String)
        requires
            old(self).wf(),
            !old(self)@.seen.contains(id@),
        ensures
            final(self).wf(),
            final(self)@ == (OmsV { seen: remembered(old(self)@.seen, id@), ..old(self)@ }),
    {
        let ghost s0 = self@.seen;
        let full: bool = self.seen_q.len() >= SEEN_FILLS_CAP;
        let _ = self.seen_fills.insert(id.clone());
        self.seen_q.push_back(id.clone());
        let ghost s1 = s0.push(id@);
        assert(self@.seen =~= s1);
        proof {
            assert forall|x: Seq<char>| self.seen_fills@.contains(x) <==> s1.contains(x) by {
                if s0.contains(x) {
                    let i = choose|i: int| 0 <= i < s0.len() && s0[i] == x;
                    assert(s1[i] == x);
                }
                if x == id@ {
                    assert(s1[s0.len() as int] == x);
                }
                if s1.contains(x) && x != id@ {
                    let i = choose|i: int| 0 <= i < s1.len() && s1[i] == x;
                    assert(s0[i] == x);
                }
            }
            assert(no_repeats(s1)) by {
                assert forall|i: int, j: int|
                    #![trigger s1[i], s1[j]]
                    0 <= i < j < s1.len() implies s1[i] != s1[j] by {
                    if j == s0.len() {
                        assert(s0.contains(s0[i]));
                    }
                }
            }
        }
        if full {
            let ghost q1 = self.seen_q@;
            if let Some(old_id) = self.seen_q.pop_front() {
                let _ = self.seen_fills.remove(old_id.as_str());
                let ghost s2 = s1.skip(1);
                proof {
                    assert(old_id@ == s1[0]);
                    assert(self@.seen =~= s2);
                    assert forall|x: Seq<char>| self.seen_fills@.contains(x) <==> s2.contains(
                        x,
                    ) by {
                        if s2.contains(x) {
                            let i = choose|i: int| 0 <= i < s2.len() && s2[i] == x;
                            assert(s1[i + 1] == x);
                            assert(s1[0] != s1[i + 1]);
                            assert(s1.contains(x));
                        }
                        if s1.contains(x) && x != s1[0] {
                            let i = choose|i: int| 0 <= i < s1.len() && s1[i] == x;
                            assert(s2[i - 1] == x);
                        }
                    }
                    assert(no_repeats(s2)) by {
                        assert forall|i: int, j: int|
                            #![trigger s2[i], s2[j]]
                            0 <= i < j < s2.len() implies s2[i] != s2[j] by {
                            assert(s1[i + 1] != s1[j + 1]);
                        }
                    }
                }
            }
        }
    }

    /// Takes one fill. Each id counts once.
    pub fn on_fill(&mut self, f: &FillRec) -> (ev: Vec<OmsEvent>)
        requires
            old(self).wf(),
        ensures
            final(self).wf(),
            final(self)@ == after_fill(old(self)@, *f),
            event_views(ev@) == fill_events(old(self)@, *f),
    {
        let mut ev: Vec<OmsEvent> = Vec::new();
        let ghost v0 = self@;
        if f.fill_id.as_str().is_empty() || self.seen_fills.contains(f.fill_id.as_str()) {
            assert(event_views(ev@) =~= Seq::<EventV>::empty());
            return ev;
        }
        self.remember(&f.fill_id);
        self.last_fill_ms = max64(self.last_fill_ms, f.ts_ms);
        ev.push(OmsEvent::Fill(f.clone()));
        if !f.order_id.as_str().is_empty() {
            let mut r: OrderRec = match self.orders.get(f.order_id.as_str()) {
                Some(r) => r.clone(),
                None => OrderRec {
                    order_id: f.order_id.clone(),
                    client_id: String::new(),
                    ticker: f.ticker.clone(),
                    side: f.side,
                    yes_price: f.yes_price,
                    initial: 0,
                    filled: 0,
                    remaining: -1_000_000,
                    status: OrderStatus::Unknown,
                    created_ms: f.ts_ms,
                    updated_ms: 0,
                    managed: false,
                    fills_sum: 0,
                },
            };
            r.fills_sum = sat(r.fills_sum as i128 + f.count as i128);
            r.filled = max64(r.filled, r.fills_sum);
            if r.initial > 0 {
                let gap: i128 = r.initial as i128 - r.filled as i128;
                r.remaining = sat(if gap >= 0 {
                    gap
                } else {
                    0
                });
                if r.remaining <= 0 && r.status != OrderStatus::Canceled {
                    r.status = OrderStatus::Executed;
                }
            }
            r.updated_ms = max64(r.updated_ms, f.ts_ms);
            assert(r@ == filled_order(v0, *f));
            let out = r.clone();
            self.put(f.order_id.clone(), r);
            ev.push(OmsEvent::OrderUpdate(out));
        }
        let mut p: PositionRec = match self.positions.get(f.ticker.as_str()) {
            Some(p) => *p,
            None => PositionRec { auth: 0, auth_ts_ms: 0, est: 0, est_ts_ms: 0 },
        };
        p.est = sat(p.est as i128 + f.side.signed(f.count));
        p.est_ts_ms = max64(p.est_ts_ms, f.ts_ms);
        self.positions.insert(f.ticker.clone(), p);
        assert(event_views(ev@) =~= fill_events(v0, *f));
        ev
    }

    /// Takes the venue's own number for one market.
    pub fn on_position(&mut self, ticker: &str, position: i64, ts_ms: i64) -> (ev: Vec<OmsEvent>)
        requires
            old(self).wf(),
        ensures
            final(self).wf(),
            final(self)@ == positioned(old(self)@, ticker@, position, ts_ms),
            event_views(ev@) == position_events(old(self)@, ticker@, position, ts_ms),
    {
        let mut ev: Vec<OmsEvent> = Vec::new();
        let ghost v0 = self@;
        let p: PositionRec = match self.positions.get(ticker) {
            Some(p) => *p,
            None => PositionRec { auth: 0, auth_ts_ms: 0, est: 0, est_ts_ms: 0 },
        };
        if ts_ms < p.auth_ts_ms {
            self.positions.insert(ticker.to_string(), p);
            assert(event_views(ev@) =~= Seq::<EventV>::empty());
            return ev;
        }
        self.positions.insert(
            ticker.to_string(),
            PositionRec { auth: position, auth_ts_ms: ts_ms, est: position, est_ts_ms: ts_ms },
        );
        ev.push(OmsEvent::Position { ticker: ticker.to_string(), auth: position, ts_ms });
        assert(event_views(ev@) =~= position_events(v0, ticker@, position, ts_ms));
        ev
    }
}

impl OmsState {
    /// Takes a poll of the resting orders. The events of the rows come first, in their
    /// order; then one for each order whose state the poll leaves open.
    pub fn on_rest_orders(&mut self, rows: &Vec<OrderMsg>, now_ms: i64, grace_ms: i64) -> (ev: Vec<
        OmsEvent,
    >)
        requires
            old(self).wf(),
        ensures
            final(self).wf(),
            final(self)@ == synced(old(self)@, rows@, now_ms, grace_ms),
            ({
                let w = observed_all(old(self)@, rows@);
                let head = observed_all_events(old(self)@, rows@);
                let all = event_views(ev@);
                &&& all.len() >= head.len()
                &&& all.take(head.len() as int) == head
                &&& tail_is_vanished(all.skip(head.len() as int), w, rows@, now_ms, grace_ms)
            }),
    {
        let ghost v0 = self@;
        let mut ev: Vec<OmsEvent> = Vec::new();
        let mut i: usize = 0;
        proof {
            assert(rows@.take(0) =~= Seq::<OrderMsg>::empty());
            assert(event_views(ev@) =~= Seq::<EventV>::empty());
        }
        while i < rows.len()
            invariant
                i <= rows@.len(),
                self.wf(),
                self@ == observed_all(v0, rows@.take(i as int)),
                event_views(ev@) == observed_all_events(v0, rows@.take(i as int)),
            decreases rows@.len() - i,
        {
            let ghost before = ev@;
            assert(rows@.take(i + 1).drop_last() =~= rows@.take(i as int));
            let mut more = self.on_order_msg(&rows[i], false);
            let ghost got = more@;
            ev.append(&mut more);
            proof {
                assert(ev@ =~= before + got);
                assert(event_views(ev@) =~= event_views(before) + event_views(got));
            }
            i = i + 1;
        }
        assert(rows@.take(rows@.len() as int) =~= rows@);
        let ghost w = self@;
        let ghost head = event_views(ev@);
        let keys = self.vanished_keys(rows, now_ms, grace_ms);
        let mut j: usize = 0;
        proof {
            assert(head.skip(head.len() as int) =~= Seq::<EventV>::empty());
            assert(self@.orders =~= swept(w, rows@, views_set(keys@, 0), now_ms));
        }
        while j < keys.len()
            invariant
                j <= keys@.len(),
                self.wf(),
                w == observed_all(v0, rows@),
                head == observed_all_events(v0, rows@),
                no_repeats(text::views(keys@)),
                forall|k: Seq<char>| #[trigger]
                    text::views(keys@).contains(k) <==> w.orders.contains_key(k) && vanished(
                        k,
                        w.orders[k],
                        rows@,
                        now_ms,
                        grace_ms,
                    ),
                self@ == (OmsV {
                    orders: swept(w, rows@, views_set(keys@, j as int), now_ms),
                    ..w
                }),
                event_views(ev@).len() == head.len() + j,
                event_views(ev@).take(head.len() as int) == head,
                forall|m: int|
                    0 <= m < j ==> #[trigger] event_views(ev@)[head.len() + m] == (
                    EventV::Unknown { order_id: keys@[m]@ }),
            decreases keys@.len() - j,
        {
            let ghost before = event_views(ev@);
            let ghost before_orders = self@.orders;
            let k = &keys[j];
            proof {
                assert(text::views(keys@)[j as int] == k@);
                assert(text::views(keys@).contains(k@));
                assert(!views_set(keys@, j as int).contains(k@)) by {
                    if views_set(keys@, j as int).contains(k@) {
                        let m = choose|m: int| 0 <= m < j && keys@[m]@ == k@;
                        assert(text::views(keys@)[m] != text::views(keys@)[j as int]);
                    }
                }
                assert(self@.orders.contains_key(k@));
                assert(self@.orders[k@] == w.orders[k@]);
            }
            let found: Option<OrderRec> = match self.orders.get(k.as_str()) {
                Some(r) => Some(r.clone()),
                None => None,
            };
            if let Some(mut r) = found {
                r.status = OrderStatus::Unknown;
                r.updated_ms = now_ms;
                assert(r@ == lost(w.orders[k@], now_ms));
                self.put(k.clone(), r);
                ev.push(OmsEvent::Unknown { order_id: k.clone() });
                proof {
                    assert(event_views(ev@) =~= before.push(EventV::Unknown { order_id: k@ }));
                    assert forall|x: Seq<char>|
                        views_set(keys@, j + 1).contains(x) <==> views_set(
                            keys@,
                            j as int,
                        ).contains(x) || x == k@ by {
                        if views_set(keys@, j as int).contains(x) {
                            let m = choose|m: int| 0 <= m < j && keys@[m]@ == x;
                            assert(keys@[m]@ == x && 0 <= m < j + 1);
                        }
                        if x == k@ {
                            assert(keys@[j as int]@ == x);
                        }
                    }
                    assert(self@.orders =~= swept(w, rows@, views_set(keys@, j + 1), now_ms));
                    assert(event_views(ev@).take(head.len() as int) =~= head);
                }
            }
            j = j + 1;
        }
        self.last_sync_ms = now_ms;
        proof {
            let n = keys@.len() as int;
            let full = views_set(keys@, n);
            assert forall|k: Seq<char>|
                full.contains(k) <==> w.orders.contains_key(k) && vanished(
                    k,
                    w.orders[k],
                    rows@,
                    now_ms,
                    grace_ms,
                ) by {
                let vs = text::views(keys@);
                assert(full.contains(k) <==> vs.contains(k)) by {
                    if full.contains(k) {
                        let m = choose|m: int| 0 <= m < n && keys@[m]@ == k;
                        assert(vs[m] == k);
                    }
                    if vs.contains(k) {
                        let m = choose|m: int| 0 <= m < vs.len() && vs[m] == k;
                        assert(keys@[m]@ == k);
                    }
                }
            }
            assert(self@.orders =~= synced(v0, rows@, now_ms, grace_ms).orders);
            let all = event_views(ev@);
            let tail = all.skip(head.len() as int);
            assert forall|m: int| 0 <= m < tail.len() implies #[trigger] tail[m] == (
            EventV::Unknown { order_id: text::views(keys@)[m] }) by {
                assert(tail[m] == all[head.len() + m]);
            }
            lemma_tail(tail, text::views(keys@), w, rows@, now_ms, grace_ms);
        }
        ev
    }

    /// The keys of the orders whose state a poll leaves open.
    fn vanished_keys(&self, rows: &Vec<OrderMsg>, now_ms: i64, grace_ms: i64) -> (keys: Vec<String>)
        ensures
            no_repeats(text::views(keys@)),
            forall|k: Seq<char>| #[trigger]
                text::views(keys@).contains(k) <==> self@.orders.contains_key(k) && vanished(
                    k,
                    self@.orders[k],
                    rows@,
                    now_ms,
                    grace_ms,
                ),
    {
        self.orders.entries_ok();
        let ghost ps = self.orders.pairs();
        proof {
            strmap::lemma_map_of(ps);
        }
        let mut keys: Vec<String> = Vec::new();
        let mut i: usize = 0;
        let n: usize = self.orders.len();
        while i < n
            invariant
                n == ps.len(),
                i <= n,
                ps == self.orders.pairs(),
                strmap::distinct_keys(ps),
                no_repeats(text::views(keys@)),
                forall|k: Seq<char>| #[trigger]
                    text::views(keys@).contains(k) <==> exists|j: int|
                        0 <= j < i && (#[trigger] ps[j]).0@ == k && vanished(
                            k,
                            ps[j].1@,
                            rows@,
                            now_ms,
                            grace_ms,
                        ),
            decreases n - i,
        {
            let (k, r) = self.orders.at(i);
            let ghost before = text::views(keys@);
            let gone: bool = r.managed && (((r.status == OrderStatus::Resting || r.status
                == OrderStatus::Canceling) && !is_listed(rows, k.as_str()) && now_ms as i128
                - r.updated_ms as i128 > grace_ms as i128) || (r.status == OrderStatus::Pending
                && now_ms as i128 - r.created_ms as i128 > max64(grace_ms, 5_000) as i128));
            assert(gone == vanished(k@, r@, rows@, now_ms, grace_ms));
            if gone {
                keys.push(k.clone());
                let ghost after = text::views(keys@);
                proof {
                    assert(after =~= before.push(k@));
                    assert(!before.contains(k@)) by {
                        if before.contains(k@) {
                            let j = choose|j: int|
                                0 <= j < i && (#[trigger] ps[j]).0@ == k@ && vanished(
                                    k@,
                                    ps[j].1@,
                                    rows@,
                                    now_ms,
                                    grace_ms,
                                );
                            assert(ps[j].0@ != ps[i as int].0@);
                        }
                    }
                    lemma_push_no_repeats(before, k@);
                }
            }
            proof {
                let after = text::views(keys@);
                assert forall|x: Seq<char>| #[trigger] after.contains(x) <==> exists|j: int|
                    0 <= j < i + 1 && (#[trigger] ps[j]).0@ == x && vanished(
                        x,
                        ps[j].1@,
                        rows@,
                        now_ms,
                        grace_ms,
                    ) by {
                    if gone {
                        lemma_push_contains(before, k@, x);
                    }
                    if before.contains(x) {
                        let j = choose|j: int|
                            0 <= j < i && (#[trigger] ps[j]).0@ == x && vanished(
                                x,
                                ps[j].1@,
                                rows@,
                                now_ms,
                                grace_ms,
                            );
                        assert(ps[j].0@ == x && 0 <= j < i + 1);
                    }
                    if gone && x == k@ {
                        assert(ps[i as int].0@ == x);
                    }
                    if exists|j: int|
                        0 <= j < i + 1 && (#[trigger] ps[j]).0@ == x && vanished(
                            x,
                            ps[j].1@,
                            rows@,
                            now_ms,
                            grace_ms,
                        ) {
                        let j = choose|j: int|
                            0 <= j < i + 1 && (#[trigger] ps[j]).0@ == x && vanished(
                                x,
                                ps[j].1@,
                                rows@,
                                now_ms,
                                grace_ms,
                            );
                        if j < i {
                            assert(before.contains(x));
                        }
                    }
                }
            }
            i = i + 1;
        }
        proof {
            assert forall|k: Seq<char>| #[trigger] text::views(keys@).contains(k) <==>
                self@.orders.contains_key(k) && vanished(
                k,
                self@.orders[k],
                rows@,
                now_ms,
                grace_ms,
            ) by {
                if self@.orders.contains_key(k) {
                    assert(self.orders@.contains_key(k));
                    let j = choose|j: int| 0 <= j < ps.len() && (#[trigger] ps[j]).0@ == k;
                    assert(self@.orders[k] == ps[j].1@);
                }
                if text::views(keys@).contains(k) {
                    let j = choose|j: int|
                        0 <= j < n && (#[trigger] ps[j]).0@ == k && vanished(
                            k,
                            ps[j].1@,
                            rows@,
                            now_ms,
                            grace_ms,
                        );
                    assert(self.orders@.contains_key(ps[j].0@));
                }
            }
        }
        keys
    }
}

fn is_listed(rows: &Vec<OrderMsg>, k: &str) -> (r: bool)
    ensures
        r == listed(rows@, k@),
{
    let mut i: usize = 0;
    while i < rows.len()
        invariant
            i <= rows@.len(),
            forall|j: int| 0 <= j < i ==> (#[trigger] rows@[j]).order_id@ != k@,
        decreases rows@.len() - i,
    {
        if same(rows[i].order_id.as_str(), k) {
            assert(rows@[i as int].order_id@ == k@);
            return true;
        }
        i = i + 1;
    }
    false
}

/// The texts among the first `n` strings.
spec fn views_set(v: Seq<String>, n: int) -> Set<Seq<char>> {
    Set::new(|k: Seq<char>| exists|m: int| 0 <= m < n && (#[trigger] v[m])@ == k)
}

/// The orders with those of `gone` lost.
spec fn swept(w: OmsV, rows: Seq<OrderMsg>, gone: Set<Seq<char>>, now_ms: i64) -> Map<
    Seq<char>,
    OrderV,
> {
    Map::new(
        |k: Seq<char>| w.orders.contains_key(k),
        |k: Seq<char>|
            if gone.contains(k) {
                lost(w.orders[k], now_ms)
            } else {
                w.orders[k]
            },
    )
}

proof fn lemma_push_contains(s: Seq<Seq<char>>, k: Seq<char>, x: Seq<char>)
    ensures
        s.push(k).contains(x) <==> s.contains(x) || x == k,
{
    let t = s.push(k);
    if s.contains(x) {
        let i = choose|i: int| 0 <= i < s.len() && s[i] == x;
        assert(t[i] == x);
    }
    if x == k {
        assert(t[s.len() as int] == x);
    }
    if t.contains(x) && x != k {
        let i = choose|i: int| 0 <= i < t.len() && t[i] == x;
        assert(s[i] == x);
    }
}

proof fn lemma_push_no_repeats(s: Seq<Seq<char>>, k: Seq<char>)
    requires
        no_repeats(s),
        !s.contains(k),
    ensures
        no_repeats(s.push(k)),
{
    let t = s.push(k);
    assert forall|i: int, j: int|
        #![trigger t[i], t[j]]
        0 <= i < j < t.len() implies t[i] != t[j] by {
        if j == s.len() {
            assert(s.contains(s[i]));
        }
    }
}

/// The events that tell of lost orders: one for each order that a poll leaves open, each
/// once.
pub open spec fn tail_is_vanished(
    tail: Seq<EventV>,
    w: OmsV,
    rows: Seq<OrderMsg>,
    now_ms: i64,
    grace_ms: i64,
) -> bool {
    &&& forall|i: int|
        0 <= i < tail.len() ==> (#[trigger] tail[i]) is Unknown && w.orders.contains_key(
            tail[i]->order_id,
        ) && vanished(
            tail[i]->order_id,
            w.orders[tail[i]->order_id],
            rows,
            now_ms,
            grace_ms,
        )
    &&& forall|i: int, j: int|
        #![trigger tail[i], tail[j]]
        0 <= i < j < tail.len() ==> tail[i]->order_id != tail[j]->order_id
    &&& forall|k: Seq<char>|
        w.orders.contains_key(k) && #[trigger] vanished(k, w.orders[k], rows, now_ms, grace_ms)
            ==> tail.contains(EventV::Unknown { order_id: k })
}

proof fn lemma_tail(
    tail: Seq<EventV>,
    ks: Seq<Seq<char>>,
    w: OmsV,
    rows: Seq<OrderMsg>,
    now_ms: i64,
    grace_ms: i64,
)
    requires
        tail.len() == ks.len(),
        forall|m: int|
            0 <= m < tail.len() ==> #[trigger] tail[m] == (EventV::Unknown { order_id: ks[m] }),
        no_repeats(ks),
        forall|k: Seq<char>| #[trigger]
            ks.contains(k) <==> w.orders.contains_key(k) && vanished(
                k,
                w.orders[k],
                rows,
                now_ms,
                grace_ms,
            ),
    ensures
        tail_is_vanished(tail, w, rows, now_ms, grace_ms),
{
    assert forall|i: int| 0 <= i < tail.len() implies (#[trigger] tail[i]) is Unknown
        && w.orders.contains_key(tail[i]->order_id) && vanished(
        tail[i]->order_id,
        w.orders[tail[i]->order_id],
        rows,
        now_ms,
        grace_ms,
    ) by {
        assert(ks.contains(ks[i]));
    }
    assert forall|i: int, j: int|
        #![trigger tail[i], tail[j]]
        0 <= i < j < tail.len() implies tail[i]->order_id != tail[j]->order_id by {
        assert(ks[i] != ks[j]);
    }
    assert forall|k: Seq<char>|
        w.orders.contains_key(k) && #[trigger] vanished(
            k,
            w.orders[k],
            rows,
            now_ms,
            grace_ms,
        ) implies tail.contains(EventV::Unknown { order_id: k }) by {
        assert(ks.contains(k));
        let m = choose|m: int| 0 <= m < ks.len() && ks[m] == k;
        assert(tail[m] == (EventV::Unknown { order_id: k }));
    }
}

/// Whether a list of orders with their keys is the whole of a map, each key once.
pub open spec fn enumerates(list: Seq<(String, OrderRec)>, orders: Map<Seq<char>, OrderV>) -> bool {
    &&& strmap::distinct_keys(list)
    &&& forall|i: int|
        0 <= i < list.len() ==> orders.contains_key((#[trigger] list[i]).0@)
            && orders[list[i].0@] == list[i].1@
    &&& forall|k: Seq<char>| #[trigger]
        orders.contains_key(k) ==> exists|i: int|
            0 <= i < list.len() && (#[trigger] list[i]).0@ == k
}

/// Whether an entry is a managed order that rests.
pub open spec fn is_resting(e: (String, OrderRec)) -> bool {
    e.1.managed && e.1.status == OrderStatus::Resting
}

/// The managed orders that rest.
pub open spec fn resting_of(list: Seq<(String, OrderRec)>) -> Seq<(String, OrderRec)> {
    list.filter(|e: (String, OrderRec)| is_resting(e))
}

/// Whether a market with a position has no row.
pub open spec fn absent(w: OmsV, rows: Seq<(String, i64)>, t: Seq<char>) -> bool {
    w.positions.contains_key(t) && !has_row(rows, t)
}

/// Whether these are the markets that a poll of positions newly finds flat, each once:
/// those with a position, without a row, and with nothing later known of them.
pub open spec fn are_flat(ts: Seq<Seq<char>>, w: OmsV, rows: Seq<(String, i64)>, now_ms: i64) -> bool {
    &&& no_repeats(ts)
    &&& forall|t: Seq<char>| #[trigger]
        ts.contains(t) <==> absent(w, rows, t) && w.positions[t].auth_ts_ms <= now_ms
}

/// One event a market: its position is zero.
pub open spec fn flat_events(ts: Seq<Seq<char>>, now_ms: i64) -> Seq<EventV> {
    Seq::new(ts.len(), |i: int| EventV::Position { ticker: ts[i], auth: 0, ts_ms: now_ms })
}

/// What a list of positions tells the outside.
pub open spec fn positioned_all_events(v: OmsV, rows: Seq<(String, i64)>, now_ms: i64) -> Seq<EventV>
    decreases rows.len(),
{
    if rows.len() == 0 {
        Seq::empty()
    } else {
        positioned_all_events(v, rows.drop_last(), now_ms) + position_events(
            positioned_all(v, rows.drop_last(), now_ms),
            rows.last().0@,
            rows.last().1,
            now_ms,
        )
    }
}

fn is_row(rows: &Vec<(String, i64)>, t: &str) -> (r: bool)
    ensures
        r == has_row(rows@, t@),
{
    let mut i: usize = 0;
    while i < rows.len()
        invariant
            i <= rows@.len(),
            forall|j: int| 0 <= j < i ==> (#[trigger] rows@[j]).0@ != t@,
        decreases rows@.len() - i,
    {
        if same(rows[i].0.as_str(), t) {
            assert(rows@[i as int].0@ == t@);
            return true;
        }
        i = i + 1;
    }
    false
}

impl OmsState {
    /// The tickers that a poll of positions has no row for.
    fn absent_tickers(&self, rows: &Vec<(String, i64)>) -> (r: Vec<String>)
        ensures
            no_repeats(text::views(r@)),
            forall|t: Seq<char>| #[trigger]
                text::views(r@).contains(t) <==> absent(self@, rows@, t),
    {
        self.positions.entries_ok();
        let ghost ps = self.positions.pairs();
        proof {
            strmap::lemma_map_of(ps);
        }
        let mut out: Vec<String> = Vec::new();
        let mut i: usize = 0;
        let n: usize = self.positions.len();
        while i < n
            invariant
                n == ps.len(),
                i <= n,
                ps == self.positions.pairs(),
                strmap::distinct_keys(ps),
                no_repeats(text::views(out@)),
                forall|t: Seq<char>| #[trigger]
                    text::views(out@).contains(t) <==> exists|j: int|
                        0 <= j < i && (#[trigger] ps[j]).0@ == t && !has_row(rows@, t),
            decreases n - i,
        {
            let (k, _p) = self.positions.at(i);
            let ghost before = text::views(out@);
            let gone: bool = !is_row(rows, k.as_str());
            if gone {
                out.push(k.clone());
                proof {
                    assert(text::views(out@) =~= before.push(k@));
                    assert(!before.contains(k@)) by {
                        if before.contains(k@) {
                            let j = choose|j: int|
                                0 <= j < i && (#[trigger] ps[j]).0@ == k@ && !has_row(rows@, k@);
                            assert(ps[j].0@ != ps[i as int].0@);
                        }
                    }
                    lemma_push_no_repeats(before, k@);
                }
            }
            proof {
                let after = text::views(out@);
                assert forall|x: Seq<char>| #[trigger] after.contains(x) <==> exists|j: int|
                    0 <= j < i + 1 && (#[trigger] ps[j]).0@ == x && !has_row(rows@, x) by {
                    if gone {
                        lemma_push_contains(before, k@, x);
                    }
                    if before.contains(x) {
                        let j = choose|j: int|
                            0 <= j < i && (#[trigger] ps[j]).0@ == x && !has_row(rows@, x);
                        assert(ps[j].0@ == x && 0 <= j < i + 1);
                    }
                    if gone && x == k@ {
                        assert(ps[i as int].0@ == x);
                    }
                    if exists|j: int|
                        0 <= j < i + 1 && (#[trigger] ps[j]).0@ == x && !has_row(rows@, x) {
                        let j = choose|j: int|
                            0 <= j < i + 1 && (#[trigger] ps[j]).0@ == x && !has_row(rows@, x);
                        if j < i {
                            assert(before.contains(x));
                        }
                    }
                }
            }
            i = i + 1;
        }
        proof {
            assert forall|t: Seq<char>| #[trigger] text::views(out@).contains(t) <==> absent(
                self@,
                rows@,
                t,
            ) by {
                if self@.positions.contains_key(t) {
                    let j = choose|j: int| 0 <= j < ps.len() && (#[trigger] ps[j]).0@ == t;
                    assert(ps[j].0@ == t);
                }
                if text::views(out@).contains(t) {
                    let j = choose|j: int|
                        0 <= j < n && (#[trigger] ps[j]).0@ == t && !has_row(rows@, t);
                    assert(self.positions@.contains_key(ps[j].0@));
                }
            }
        }
        out
    }

    /// Takes a poll of all positions: the rows hold, and a market without a row is flat.
    /// The events of the rows come first, then those of the markets without one, then a
    /// summary.
    pub fn on_rest_positions(&mut self, rows: &Vec<(String, i64)>, now_ms: i64) -> (ev: Vec<
        OmsEvent,
    >)
        requires
            old(self).wf(),
        ensures
            final(self).wf(),
            final(self)@ == positions_synced(old(self)@, rows@, now_ms),
            enumerates(final(self).listing(), final(self)@.orders),
            exists|ts: Seq<Seq<char>>| #[trigger]
                are_flat(ts, positioned_all(old(self)@, rows@, now_ms), rows@, now_ms)
                    && event_views(ev@) == positioned_all_events(old(self)@, rows@, now_ms)
                    + flat_events(ts, now_ms) + seq![
                    EventV::Synced {
                        resting: resting_of(final(self).listing()).len(),
                        positions: rows@.len(),
                    },
                ],
    {
        let ghost v0 = self@;
        let mut ev: Vec<OmsEvent> = Vec::new();
        let mut i: usize = 0;
        proof {
            assert(rows@.take(0) =~= Seq::<(String, i64)>::empty());
            assert(event_views(ev@) =~= Seq::<EventV>::empty());
        }
        while i < rows.len()
            invariant
                i <= rows@.len(),
                self.wf(),
                self@ == positioned_all(v0, rows@.take(i as int), now_ms),
                event_views(ev@) == positioned_all_events(v0, rows@.take(i as int), now_ms),
            decreases rows@.len() - i,
        {
            let ghost before = ev@;
            assert(rows@.take(i + 1).drop_last() =~= rows@.take(i as int));
            let mut more = self.on_position(rows[i].0.as_str(), rows[i].1, now_ms);
            let ghost got = more@;
            ev.append(&mut more);
            proof {
                assert(ev@ =~= before + got);
                assert(event_views(ev@) =~= event_views(before) + event_views(got));
            }
            i = i + 1;
        }
        assert(rows@.take(rows@.len() as int) =~= rows@);
        let ghost w = self@;
        let ghost head = event_views(ev@);
        let ts = self.absent_tickers(rows);
        let ghost mut told: Seq<Seq<char>> = Seq::empty();
        assert(head + flat_events(told, now_ms) =~= head);
        let mut j: usize = 0;
        assert(self@.positions =~= flattened(w, views_set(ts@, 0), now_ms));
        while j < ts.len()
            invariant
                j <= ts@.len(),
                self.wf(),
                w == positioned_all(v0, rows@, now_ms),
                head == positioned_all_events(v0, rows@, now_ms),
                no_repeats(text::views(ts@)),
                forall|t: Seq<char>| #[trigger]
                    text::views(ts@).contains(t) <==> absent(w, rows@, t),
                self@ == (OmsV {
                    positions: flattened(w, views_set(ts@, j as int), now_ms),
                    ..w
                }),
                event_views(ev@) == head + flat_events(told, now_ms),
                no_repeats(told),
                forall|t: Seq<char>| #[trigger]
                    told.contains(t) <==> views_set(ts@, j as int).contains(t)
                        && w.positions[t].auth_ts_ms <= now_ms,
            decreases ts@.len() - j,
        {
            let ghost before = ev@;
            let t = &ts[j];
            proof {
                assert(text::views(ts@)[j as int] == t@);
                assert(text::views(ts@).contains(t@));
                assert(!views_set(ts@, j as int).contains(t@)) by {
                    if views_set(ts@, j as int).contains(t@) {
                        let m = choose|m: int| 0 <= m < j && ts@[m]@ == t@;
                        assert(text::views(ts@)[m] != text::views(ts@)[j as int]);
                    }
                }
                assert(self@.positions[t@] == w.positions[t@]);
            }
            let ghost mid = self@;
            let mut more = self.on_position(t.as_str(), 0, now_ms);
            let ghost got = more@;
            ev.append(&mut more);
            proof {
                assert(ev@ =~= before + got);
                assert(event_views(ev@) =~= event_views(before) + event_views(got));
                let fresh = w.positions[t@].auth_ts_ms <= now_ms;
                let past = told;
                if fresh {
                    told = past.push(t@);
                    assert(!past.contains(t@));
                    lemma_push_no_repeats(past, t@);
                    assert(flat_events(told, now_ms) =~= flat_events(past, now_ms)
                        + event_views(got));
                }
                assert(event_views(ev@) =~= head + flat_events(told, now_ms));
                assert forall|x: Seq<char>|
                    views_set(ts@, j + 1).contains(x) <==> views_set(ts@, j as int).contains(x)
                        || x == t@ by {
                    if views_set(ts@, j as int).contains(x) {
                        let m = choose|m: int| 0 <= m < j && ts@[m]@ == x;
                        assert(ts@[m]@ == x && 0 <= m < j + 1);
                    }
                    if x == t@ {
                        assert(ts@[j as int]@ == x);
                    }
                }
                assert forall|x: Seq<char>| #[trigger] told.contains(x) <==> views_set(
                    ts@,
                    j + 1,
                ).contains(x) && w.positions[x].auth_ts_ms <= now_ms by {
                    if fresh {
                        lemma_push_contains(past, t@, x);
                    }
                }
                assert(self@.positions =~= flattened(w, views_set(ts@, j + 1), now_ms));
            }
            j = j + 1;
        }
        let n: usize = self.resting_count();
        let ghost pre = event_views(ev@);
        ev.push(OmsEvent::Synced { resting: n, positions: rows.len() });
        proof {
            assert(event_views(ev@) =~= pre + seq![
                EventV::Synced { resting: n as nat, positions: rows@.len() },
            ]);
            let full = views_set(ts@, ts@.len() as int);
            assert forall|t: Seq<char>| full.contains(t) <==> absent(w, rows@, t) by {
                let vs = text::views(ts@);
                if full.contains(t) {
                    let m = choose|m: int| 0 <= m < ts@.len() && ts@[m]@ == t;
                    assert(vs[m] == t);
                    assert(vs.contains(t));
                }
                if vs.contains(t) {
                    let m = choose|m: int| 0 <= m < vs.len() && vs[m] == t;
                    assert(ts@[m]@ == t);
                }
            }
            assert(self@.positions =~= positions_synced(v0, rows@, now_ms).positions);
            assert forall|t: Seq<char>| #[trigger] told.contains(t) <==> absent(w, rows@, t)
                && w.positions[t].auth_ts_ms <= now_ms by {}
            assert(are_flat(told, w, rows@, now_ms));
        }
        ev
    }

    /// Forgets the orders that are over and were quiet for `keep_ms`, with their client
    /// ids.
    pub fn gc(&mut self, now_ms: i64, keep_ms: i64)
        requires
            old(self).wf(),
        ensures
            final(self).wf(),
            forall|k: Seq<char>| #[trigger]
                final(self)@.orders.contains_key(k) <==> old(self)@.orders.contains_key(k)
                    && !is_dead(old(self)@.orders[k], now_ms, keep_ms),
            forall|k: Seq<char>| #[trigger]
                final(self)@.orders.contains_key(k) ==> final(self)@.orders[k]
                    == old(self)@.orders[k],
            forall|c: Seq<char>| #[trigger]
                final(self)@.by_client.contains_key(c) <==> old(self)@.by_client.contains_key(c)
                    && !(exists|k: Seq<char>| #[trigger]
                    old(self)@.orders.contains_key(k) && is_dead(
                        old(self)@.orders[k],
                        now_ms,
                        keep_ms,
                    ) && old(self)@.orders[k].client_id == c),
            forall|c: Seq<char>| #[trigger]
                final(self)@.by_client.contains_key(c) ==> final(self)@.by_client[c]
                    == old(self)@.by_client[c],
            final(self)@ == (OmsV {
                orders: final(self)@.orders,
                by_client: final(self)@.by_client,
                ..old(self)@
            }),
    {
        let ghost v0 = self@;
        let mut i: usize = 0;
        // the entries before `i` stay; a dead one at `i` is taken out
        while i < self.orders.len()
            invariant
                self.wf(),
                i <= self.listing().len(),
                self@ == (OmsV { orders: self@.orders, by_client: self@.by_client, ..v0 }),
                forall|k: Seq<char>| #[trigger]
                    self@.orders.contains_key(k) ==> v0.orders.contains_key(k)
                        && self@.orders[k] == v0.orders[k],
                forall|k: Seq<char>| #[trigger]
                    v0.orders.contains_key(k) && !self@.orders.contains_key(k) ==> is_dead(
                        v0.orders[k],
                        now_ms,
                        keep_ms,
                    ),
                forall|j: int|
                    0 <= j < i ==> !is_dead((#[trigger] self.listing()[j]).1@, now_ms, keep_ms),
                forall|c: Seq<char>| #[trigger]
                    self@.by_client.contains_key(c) ==> v0.by_client.contains_key(c)
                        && self@.by_client[c] == v0.by_client[c],
                forall|c: Seq<char>| #[trigger]
                    v0.by_client.contains_key(c) ==> (self@.by_client.contains_key(c) <==> !(
                    exists|k: Seq<char>| #[trigger]
                        v0.orders.contains_key(k) && !self@.orders.contains_key(k)
                            && v0.orders[k].client_id == c)),
            decreases self.listing().len() - i,
        {
            let (k, r) = self.orders.at(i);
            if !r.status.is_open() && now_ms as i128 - r.updated_ms as i128 > keep_ms as i128 {
                let key = k.clone();
                let client = r.client_id.clone();
                let ghost u = self@;
                let ghost l0 = self.listing();
                proof {
                    assert(u.orders.contains_key(key@));
                    assert(u.orders[key@] == r@);
                }
                self.orders.entries_ok();
                self.orders.take_at(i);
                let _ = self.by_client.remove(client.as_str());
                proof {
                    assert(self@.orders =~= u.orders.remove(key@));
                    assert(self@.by_client =~= u.by_client.remove(client@));
                    assert(self.listing() == l0.remove(i as int));
                    assert forall|j: int| 0 <= j < i implies !is_dead(
                        (#[trigger] self.listing()[j]).1@,
                        now_ms,
                        keep_ms,
                    ) by {
                        assert(self.listing()[j] == l0[j]);
                    }
                    assert forall|c: Seq<char>| #[trigger] v0.by_client.contains_key(c) implies (
                    self@.by_client.contains_key(c) <==> !(exists|k: Seq<char>| #[trigger]
                        v0.orders.contains_key(k) && !self@.orders.contains_key(k)
                            && v0.orders[k].client_id == c)) by {
                        if c == client@ {
                            assert(v0.orders.contains_key(key@) && !self@.orders.contains_key(key@)
                                && v0.orders[key@].client_id == c);
                        } else if exists|k: Seq<char>| #[trigger]
                            v0.orders.contains_key(k) && !self@.orders.contains_key(k)
                                && v0.orders[k].client_id == c {
                            let k = choose|k: Seq<char>| #[trigger]
                                v0.orders.contains_key(k) && !self@.orders.contains_key(k)
                                    && v0.orders[k].client_id == c;
                            assert(v0.orders.contains_key(k) && !u.orders.contains_key(k)
                                && v0.orders[k].client_id == c);
                        } else if u.by_client.contains_key(c) {
                        } else {
                            let k = choose|k: Seq<char>| #[trigger]
                                v0.orders.contains_key(k) && !u.orders.contains_key(k)
                                    && v0.orders[k].client_id == c;
                            assert(v0.orders.contains_key(k) && !self@.orders.contains_key(k)
                                && v0.orders[k].client_id == c);
                        }
                    }
                }
            } else {
                i = i + 1;
            }
        }
        self.orders.entries_ok();
        proof {
            let l = self.listing();
            strmap::lemma_map_of(l);
            assert forall|k: Seq<char>| #[trigger] self@.orders.contains_key(k) implies !is_dead(
                v0.orders[k],
                now_ms,
                keep_ms,
            ) by {
                assert(self.orders@.contains_key(k));
                let j = choose|j: int| 0 <= j < l.len() && (#[trigger] l[j]).0@ == k;
                assert(self@.orders[k] == l[j].1@);
            }
            assert forall|c: Seq<char>| #[trigger] self@.by_client.contains_key(c) <==>
                v0.by_client.contains_key(c) && !(exists|k: Seq<char>| #[trigger]
                v0.orders.contains_key(k) && is_dead(v0.orders[k], now_ms, keep_ms)
                    && v0.orders[k].client_id == c) by {
                if v0.by_client.contains_key(c) {
                    if exists|k: Seq<char>| #[trigger]
                        v0.orders.contains_key(k) && is_dead(v0.orders[k], now_ms, keep_ms)
                            && v0.orders[k].client_id == c {
                        let k = choose|k: Seq<char>| #[trigger]
                            v0.orders.contains_key(k) && is_dead(v0.orders[k], now_ms, keep_ms)
                                && v0.orders[k].client_id == c;
                        assert(!self@.orders.contains_key(k));
                    }
                    if exists|k: Seq<char>| #[trigger]
                        v0.orders.contains_key(k) && !self@.orders.contains_key(k)
                            && v0.orders[k].client_id == c {
                        let k = choose|k: Seq<char>| #[trigger]
                            v0.orders.contains_key(k) && !self@.orders.contains_key(k)
                                && v0.orders[k].client_id == c;
                        assert(is_dead(v0.orders[k], now_ms, keep_ms));
                    }
                }
            }
        }
    }

    /// The managed orders that rest in a market.
    pub fn resting(&self, ticker: &str) -> (out: Vec<OrderRec>)
        ensures
            enumerates(self.listing(), self@.orders),
            out@ == self.listing().filter(
                |e: (String, OrderRec)| is_resting(e) && e.1.ticker@ == ticker@,
            ).map_values(|e: (String, OrderRec)| e.1),
    {
        self.listing_ok();
        let ghost l = self.listing();
        let ghost pred = |e: (String, OrderRec)| is_resting(e) && e.1.ticker@ == ticker@;
        let ghost val = |e: (String, OrderRec)| e.1;
        let mut out: Vec<OrderRec> = Vec::new();
        let mut i: usize = 0;
        let n: usize = self.orders.len();
        proof {
            reveal(Seq::filter);
            assert(l.take(0).filter(pred).map_values(val) =~= Seq::<OrderRec>::empty());
        }
        while i < n
            invariant
                l == self.listing(),
                n == l.len(),
                i <= n,
                pred == (|e: (String, OrderRec)| is_resting(e) && e.1.ticker@ == ticker@),
                val == (|e: (String, OrderRec)| e.1),
                out@ == l.take(i as int).filter(pred).map_values(val),
            decreases n - i,
        {
            let (_k, r) = self.orders.at(i);
            proof {
                reveal(Seq::filter);
                assert(l.take(i + 1).drop_last() =~= l.take(i as int));
                assert(l.take(i + 1).last() == l[i as int]);
            }
            let ghost before = l.take(i as int).filter(pred);
            if r.managed && r.status == OrderStatus::Resting && same(r.ticker.as_str(), ticker) {
                out.push(r.clone());
                assert(before.push(l[i as int]).map_values(val) =~= before.map_values(val).push(
                    l[i as int].1,
                ));
            }
            i = i + 1;
        }
        assert(l.take(n as int) =~= l);
        out
    }

    /// How many managed orders rest.
    pub fn resting_count(&self) -> (r: usize)
        ensures
            r == resting_of(self.listing()).len(),
            enumerates(self.listing(), self@.orders),
    {
        self.listing_ok();
        let ghost l = self.listing();
        let ghost pred = |e: (String, OrderRec)| is_resting(e);
        let mut c: usize = 0;
        let mut i: usize = 0;
        let n: usize = self.orders.len();
        proof {
            reveal(Seq::filter);
            assert(l.take(0).filter(pred) =~= Seq::<(String, OrderRec)>::empty());
        }
        while i < n
            invariant
                l == self.listing(),
                n == l.len(),
                c <= i <= n,
                pred == (|e: (String, OrderRec)| is_resting(e)),
                c == l.take(i as int).filter(pred).len(),
            decreases n - i,
        {
            let (_k, r) = self.orders.at(i);
            proof {
                reveal(Seq::filter);
                assert(l.take(i + 1).drop_last() =~= l.take(i as int));
                assert(l.take(i + 1).last() == l[i as int]);
            }
            if r.managed && r.status == OrderStatus::Resting {
                c = c + 1;
            }
            i = i + 1;
        }
        assert(l.take(n as int) =~= l);
        assert(resting_of(l) == l.filter(pred));
        c
    }

    /// That the listing is the whole of the orders.
    fn listing_ok(&self)
        ensures
            enumerates(self.listing(), self@.orders),
    {
        self.orders.entries_ok();
        proof {
            let l = self.orders.pairs();
            strmap::lemma_map_of(l);
            assert forall|i: int| 0 <= i < l.len() implies self@.orders.contains_key(
                (#[trigger] l[i]).0@,
            ) && self@.orders[l[i].0@] == l[i].1@ by {
                assert(self.orders@.contains_key(l[i].0@));
            }
            assert forall|k: Seq<char>| #[trigger] self@.orders.contains_key(k) implies exists|
                i: int,
            | 0 <= i < l.len() && (#[trigger] l[i]).0@ == k by {
                assert(self.orders@.contains_key(k));
            }
        }
    }

    /// The keys of the orders whose state is not established and that have an order id.
    pub fn unknown_ids(&self) -> (out: Vec<String>)
        ensures
            enumerates(self.listing(), self@.orders),
            out@ == self.listing().filter(
                |e: (String, OrderRec)|
                    e.1.status == OrderStatus::Unknown && e.1.order_id@.len() > 0,
            ).map_values(|e: (String, OrderRec)| e.0),
    {
        self.listing_ok();
        let ghost l = self.listing();
        let ghost pred = |e: (String, OrderRec)|
            e.1.status == OrderStatus::Unknown && e.1.order_id@.len() > 0;
        let ghost val = |e: (String, OrderRec)| e.0;
        let mut out: Vec<String> = Vec::new();
        let mut i: usize = 0;
        let n: usize = self.orders.len();
        proof {
            reveal(Seq::filter);
            assert(l.take(0).filter(pred).map_values(val) =~= Seq::<String>::empty());
        }
        while i < n
            invariant
                l == self.listing(),
                n == l.len(),
                i <= n,
                pred == (|e: (String, OrderRec)|
                    e.1.status == OrderStatus::Unknown && e.1.order_id@.len() > 0),
                val == (|e: (String, OrderRec)| e.0),
                out@ == l.take(i as int).filter(pred).map_values(val),
            decreases n - i,
        {
            let (k, r) = self.orders.at(i);
            proof {
                reveal(Seq::filter);
                assert(l.take(i + 1).drop_last() =~= l.take(i as int));
                assert(l.take(i + 1).last() == l[i as int]);
            }
            let ghost before = l.take(i as int).filter(pred);
            if r.status == OrderStatus::Unknown && !r.order_id.as_str().is_empty() {
                out.push(k.clone());
                assert(before.push(l[i as int]).map_values(val) =~= before.map_values(val).push(
                    l[i as int].0,
                ));
            }
            i = i + 1;
        }
        assert(l.take(n as int) =~= l);
        out
    }

    /// Whether some managed order of this market and side is not settled.
    pub fn side_locked(&self, ticker: &str, side: BookSide) -> (r: bool)
        ensures
            r == locked(self@, ticker@, side),
    {
        self.listing_ok();
        let ghost l = self.listing();
        let mut i: usize = 0;
        let n: usize = self.orders.len();
        while i < n
            invariant
                l == self.listing(),
                n == l.len(),
                i <= n,
                enumerates(l, self@.orders),
                forall|j: int|
                    0 <= j < i ==> !((#[trigger] l[j]).1.managed && l[j].1.ticker@ == ticker@
                        && l[j].1.side == side && l[j].1.status.locks()),
            decreases n - i,
        {
            let (k, r) = self.orders.at(i);
            if r.managed && same(r.ticker.as_str(), ticker) && r.side == side
                && r.status.locks_side() {
                assert(self@.orders.contains_key(l[i as int].0@));
                return true;
            }
            i = i + 1;
        }
        proof {
            assert forall|k: Seq<char>| #[trigger] self@.orders.contains_key(k) implies !(
            self@.orders[k].managed && self@.orders[k].ticker == ticker@ && self@.orders[k].side
                == side && self@.orders[k].status.locks()) by {
                let j = choose|j: int| 0 <= j < l.len() && (#[trigger] l[j]).0@ == k;
                assert(self@.orders[k] == l[j].1@);
            }
        }
        false
    }

    /// An order by its key.
    pub fn order(&self, key: &str) -> (r: Option<OrderRec>)
        ensures
            match r {
                Some(o) => self@.orders.contains_key(key@) && o@ == self@.orders[key@],
                None => !self@.orders.contains_key(key@),
            },
    {
        match self.orders.get(key) {
            Some(o) => Some(o.clone()),
            None => None,
        }
    }

    /// What is known of a position: the venue's number and its age, and the estimate. A
    /// number never given has the largest age.
    pub fn position(&self, ticker: &str, now_ms: i64) -> (r: PositionView)
        ensures
            ({
                let p = position_in(self@, ticker@);
                &&& r.auth == p.auth
                &&& r.est == p.est
                &&& r.auth_age_ms == if p.auth_ts_ms > 0 {
                    fixed::clamp64(now_ms - p.auth_ts_ms)
                } else {
                    i64::MAX as int
                }
            }),
    {
        match self.positions.get(ticker) {
            Some(p) => PositionView {
                auth: p.auth,
                auth_age_ms: if p.auth_ts_ms > 0 {
                    sat(now_ms as i128 - p.auth_ts_ms as i128)
                } else {
                    i64::MAX
                },
                est: p.est,
            },
            None => PositionView { auth: 0, auth_age_ms: i64::MAX, est: 0 },
        }
    }

    /// Counts one write action where that keeps within `max_per_s` (in micro-units) a
    /// second.
    pub fn action_ok(&mut self, now_ms: i64, max_per_s: i64) -> (r: bool)
        requires
            old(self).wf(),
        ensures
            final(self).wf(),
            r == within_budget(old(self)@, now_ms, max_per_s),
            final(self)@ == budgeted(old(self)@, now_ms, max_per_s),
    {
        drop_before(&mut self.actions, now_ms as i128 - 1000);
        if (self.actions.len() as i128) * 1_000_000 < max_per_s as i128 {
            self.actions.push_back((now_ms, ()));
            true
        } else {
            false
        }
    }

    /// Notes that the feed is up or down.
    pub fn set_ws(&mut self, up: bool)
        requires
            old(self).wf(),
        ensures
            final(self).wf(),
            final(self)@ == (OmsV { ws_up: up, ..old(self)@ }),
    {
        self.ws_up = up;
    }

    /// Notes that something came in on the feed.
    pub fn touch_ws(&mut self, now_ms: i64)
        requires
            old(self).wf(),
        ensures
            final(self).wf(),
            final(self)@ == (OmsV { last_ws_ms: now_ms, ..old(self)@ }),
    {
        self.last_ws_ms = now_ms;
    }

    /// When the latest fill was.
    pub fn last_fill_ms(&self) -> (r: i64)
        ensures
            r == self@.last_fill_ms,
    {
        self.last_fill_ms
    }

    /// How the manager is doing.
    pub fn health(&self, now_ms: i64) -> (h: OmsHealth)
        ensures
            enumerates(self.listing(), self@.orders),
            h.ws_up == self@.ws_up,
            h.ws_age_ms == if self@.last_ws_ms > 0 {
                fixed::clamp64(now_ms - self@.last_ws_ms)
            } else {
                i64::MAX as int
            },
            h.sync_age_ms == if self@.last_sync_ms > 0 {
                fixed::clamp64(now_ms - self@.last_sync_ms)
            } else {
                i64::MAX as int
            },
            h.open_orders == self.listing().filter(
                |e: (String, OrderRec)| e.1.managed && e.1.status.open_spec(),
            ).len(),
            h.unknown_orders == self.listing().filter(
                |e: (String, OrderRec)| e.1.status == OrderStatus::Unknown,
            ).len(),
            h.positions == self.held_markets().len(),
    {
        self.listing_ok();
        let ghost l = self.listing();
        let ghost po = |e: (String, OrderRec)| e.1.managed && e.1.status.open_spec();
        let ghost pu = |e: (String, OrderRec)| e.1.status == OrderStatus::Unknown;
        let mut open: usize = 0;
        let mut unknown: usize = 0;
        let mut i: usize = 0;
        let n: usize = self.orders.len();
        proof {
            reveal(Seq::filter);
            assert(l.take(0).filter(po) =~= Seq::<(String, OrderRec)>::empty());
            assert(l.take(0).filter(pu) =~= Seq::<(String, OrderRec)>::empty());
        }
        while i < n
            invariant
                l == self.listing(),
                n == l.len(),
                open <= i <= n,
                unknown <= i,
                po == (|e: (String, OrderRec)| e.1.managed && e.1.status.open_spec()),
                pu == (|e: (String, OrderRec)| e.1.status == OrderStatus::Unknown),
                open == l.take(i as int).filter(po).len(),
                unknown == l.take(i as int).filter(pu).len(),
            decreases n - i,
        {
            let (_k, r) = self.orders.at(i);
            proof {
                reveal(Seq::filter);
                assert(l.take(i + 1).drop_last() =~= l.take(i as int));
                assert(l.take(i + 1).last() == l[i as int]);
            }
            if r.managed && r.status.is_open() {
                open = open + 1;
            }
            if r.status == OrderStatus::Unknown {
                unknown = unknown + 1;
            }
            i = i + 1;
        }
        assert(l.take(n as int) =~= l);
        OmsHealth {
            ws_up: self.ws_up,
            ws_age_ms: if self.last_ws_ms > 0 {
                sat(now_ms as i128 - self.last_ws_ms as i128)
            } else {
                i64::MAX
            },
            sync_age_ms: if self.last_sync_ms > 0 {
                sat(now_ms as i128 - self.last_sync_ms as i128)
            } else {
                i64::MAX
            },
            open_orders: open,
            unknown_orders: unknown,
            positions: self.held_count(),
        }
    }

    /// The markets in which the venue's number or the estimate is not zero.
    pub closed spec fn held_markets(&self) -> Seq<(String, PositionRec)> {
        self.positions.pairs().filter(|e: (String, PositionRec)| e.1.auth != 0 || e.1.est != 0)
    }

    fn held_count(&self) -> (c: usize)
        ensures
            c == self.held_markets().len(),
    {
        let ghost l = self.positions.pairs();
        let ghost pred = |e: (String, PositionRec)| e.1.auth != 0 || e.1.est != 0;
        let mut c: usize = 0;
        let mut i: usize = 0;
        let n: usize = self.positions.len();
        proof {
            reveal(Seq::filter);
            assert(l.take(0).filter(pred) =~= Seq::<(String, PositionRec)>::empty());
        }
        while i < n
            invariant
                l == self.positions.pairs(),
                n == l.len(),
                c <= i <= n,
                pred == (|e: (String, PositionRec)| e.1.auth != 0 || e.1.est != 0),
                c == l.take(i as int).filter(pred).len(),
            decreases n - i,
        {
            let (_k, p) = self.positions.at(i);
            proof {
                reveal(Seq::filter);
                assert(l.take(i + 1).drop_last() =~= l.take(i as int));
                assert(l.take(i + 1).last() == l[i as int]);
            }
            if p.auth != 0 || p.est != 0 {
                c = c + 1;
            }
            i = i + 1;
        }
        assert(l.take(n as int) =~= l);
        c
    }
}

/// The positions with those of `flat` polled as zero.
spec fn flattened(w: OmsV, flat: Set<Seq<char>>, now_ms: i64) -> Map<Seq<char>, PositionRec> {
    Map::new(
        |t: Seq<char>| w.positions.contains_key(t),
        |t: Seq<char>|
            if flat.contains(t) {
                positioned(w, t, 0, now_ms).positions[t]
            } else {
                w.positions[t]
            },
    )
}

/// Why an order is not placed.
#[derive(Debug)]
pub enum PlaceError {
    /// An order of this market and side is not settled.
    SideLocked,
    /// Too many write actions.
    Budget,
    /// The venue refused it: the order does not exist.
    Rejected(String),
    /// No answer: the order may exist.
    Unknown(String),
}

impl PlaceError {
    /// What a reader is told.
    pub fn text(&self) -> (r: String)
        ensures
            r@ == match *self {
                PlaceError::SideLocked => "side locked (order in pending/canceling/unknown)"@,
                PlaceError::Budget => "action budget exhausted"@,
                PlaceError::Rejected(e) => "rejected: "@ + e@,
                PlaceError::Unknown(e) => "unknown outcome: "@ + e@,
            },
    {
        match self {
            PlaceError::SideLocked => {
                "side locked (order in pending/canceling/unknown)".to_string()
            },
            PlaceError::Budget => "action budget exhausted".to_string(),
            PlaceError::Rejected(e) => joined("rejected: ", e.as_str()),
            PlaceError::Unknown(e) => joined("unknown outcome: ", e.as_str()),
        }
    }
}

/// Whether an error text says for certain that the venue refused the order.
pub open spec fn definite_text(e: Seq<char>) -> bool {
    text::contains(e, "post-only 4"@) || text::contains(e, "< 0.01"@) || text::contains(
        e,
        "no ticker"@,
    )
}

/// Whether an error text says for certain that the venue refused the order.
pub fn is_definite(e: &str) -> (r: bool)
    ensures
        r == definite_text(e@),
{
    text::contains_text(e, "post-only 4") || text::contains_text(e, "< 0.01")
        || text::contains_text(e, "no ticker")
}

/// The settings of the order manager.
#[derive(Clone, Copy, Debug, PartialEq, Eq, Structural)]
pub struct OrderManagerCfg {
    pub enabled: bool,
    /// Whether to listen to the private feed.
    pub ws: bool,
    pub sync_ms: u64,
    pub fills_sync_ms: u64,
    pub unknown_grace_ms: u64,
    /// Write actions a second, in micro-units.
    pub max_actions_per_s: i64,
    pub health_log_s: u64,
}

impl Default for OrderManagerCfg {
    fn default() -> (r: OrderManagerCfg)
        ensures
            r == (OrderManagerCfg {
                enabled: false,
                ws: true,
                sync_ms: 1000,
                fills_sync_ms: 5000,
                unknown_grace_ms: 2000,
                max_actions_per_s: 4_000_000,
                health_log_s: 30,
            }),
    {
        OrderManagerCfg {
            enabled: false,
            ws: true,
            sync_ms: 1000,
            fills_sync_ms: 5000,
            unknown_grace_ms: 2000,
            max_actions_per_s: 4_000_000,
            health_log_s: 30,
        }
    }
}

impl OmsState {
    /// Before an order is sent: refuses it where its side is locked or the budget is
    /// spent, else notes it as pending, so that a report which comes before the answer is
    /// linked to it.
    pub fn begin_place(
        &mut self,
        client_id: &str,
        ticker: &str,
        side: BookSide,
        yes_price: i64,
        size: i64,
        now_ms: i64,
        max_per_s: i64,
    ) -> (r: Result<(), PlaceError>)
        requires
            old(self).wf(),
        ensures
            final(self).wf(),
            match r {
                Err(PlaceError::SideLocked) => locked(old(self)@, ticker@, side) && final(self)@
                    == old(self)@,
                Err(PlaceError::Budget) => !locked(old(self)@, ticker@, side) && !within_budget(
                    old(self)@,
                    now_ms,
                    max_per_s,
                ) && final(self)@ == (OmsV {
                    actions: recent_actions(old(self)@, now_ms),
                    ..old(self)@
                }),
                Err(_) => false,
                Ok(()) => {
                    &&& !locked(old(self)@, ticker@, side)
                    &&& within_budget(old(self)@, now_ms, max_per_s)
                    &&& final(self)@ == (OmsV {
                        orders: old(self)@.orders.insert(
                            pending_key(client_id@),
                            pending_order(client_id@, ticker@, side, yes_price, size, now_ms),
                        ),
                        by_client: old(self)@.by_client.insert(
                            client_id@,
                            pending_key(client_id@),
                        ),
                        actions: recent_actions(old(self)@, now_ms).push((now_ms, ())),
                        ..old(self)@
                    })
                },
            },
    {
        if self.side_locked(ticker, side) {
            return Err(PlaceError::SideLocked);
        }
        if !self.action_ok(now_ms, max_per_s) {
            return Err(PlaceError::Budget);
        }
        self.register_pending(client_id, ticker, side, yes_price, size, now_ms);
        Ok(())
    }

    /// Before a cancel is sent: refuses it where the budget is spent, else notes that the
    /// order is being canceled.
    pub fn begin_cancel(&mut self, order_id: &str, now_ms: i64, max_per_s: i64) -> (r: bool)
        requires
            old(self).wf(),
        ensures
            final(self).wf(),
            r == within_budget(old(self)@, now_ms, max_per_s),
            final(self)@ == if r {
                cancel_sent(budgeted(old(self)@, now_ms, max_per_s), order_id@, now_ms)
            } else {
                budgeted(old(self)@, now_ms, max_per_s)
            },
    {
        if !self.action_ok(now_ms, max_per_s) {
            return false;
        }
        self.on_cancel_sent(order_id, now_ms);
        true
    }
}

/// A report never lowers the filled count of an order, whatever it says: neither of the
/// order it is of, nor of any other.
pub proof fn law_reports_never_lower_a_fill(v: OmsV, m: OrderMsg, managed: bool, k: Seq<char>)
    requires
        v.orders.contains_key(k),
        // the report does not move the order to another id
        key_of(v, m.order_id@, m.client_id@) != Some(k) || k == m.order_id@ || m.order_id@.len()
            == 0,
    ensures
        observed(v, m, managed).orders.contains_key(k),
        observed(v, m, managed).orders[k].filled >= v.orders[k].filled,
{
}

/// Where a report moves an order to its order id, the filled count moves with it and does
/// not fall.
pub proof fn law_linking_keeps_the_fill(v: OmsV, m: OrderMsg, managed: bool, k: Seq<char>)
    requires
        v.orders.contains_key(k),
        key_of(v, m.order_id@, m.client_id@) == Some(k),
        m.order_id@.len() > 0,
    ensures
        observed(v, m, managed).orders.contains_key(m.order_id@),
        observed(v, m, managed).orders[m.order_id@].filled >= v.orders[k].filled,
        observed(v, m, managed).orders[m.order_id@].managed == v.orders[k].managed,
{
}

/// An acknowledgement lowers the filled count of no order: not where fills came before it
/// and stand under the venue's id already. There the fills seen under both ids add up. `w`
/// is the state once the order that waits at `k` is moved to that id.
pub proof fn law_acks_never_lower_a_fill(
    v: OmsV,
    client_id: Seq<char>,
    order_id: Seq<char>,
    now_ms: i64,
    j: Seq<char>,
)
    requires
        v.orders.contains_key(j),
        key_of(v, Seq::empty(), client_id) is Some,
        order_id.len() > 0,
    ensures
        ({
            let k = key_of(v, Seq::empty(), client_id)->0;
            let w = rekeyed(v, k, order_id);
            let i = if j == k {
                order_id
            } else {
                j
            };
            let r = if i == order_id {
                acked(w.orders[i], now_ms)
            } else {
                w.orders[i]
            };
            &&& w.orders.contains_key(i)
            &&& r.filled >= v.orders[j].filled
            &&& k != order_id && v.orders.contains_key(k) && v.orders.contains_key(order_id)
                ==> w.orders[order_id].fills_sum == fixed::clamp64(
                v.orders[k].fills_sum + v.orders[order_id].fills_sum,
            )
        }),
{
}

/// A fill never lowers the filled count of any order.
pub proof fn law_fills_never_lower_a_fill(v: OmsV, f: FillRec, k: Seq<char>)
    requires
        v.orders.contains_key(k),
    ensures
        after_fill(v, f).orders.contains_key(k),
        after_fill(v, f).orders[k].filled >= v.orders[k].filled,
{
}

/// A cancel's outcome never lowers the filled count.
pub proof fn law_cancels_never_lower_a_fill(r: OrderV, reduced_by: i64, now_ms: i64)
    ensures
        cancelled(r, reduced_by, now_ms).filled >= r.filled,
        cancelled(r, reduced_by, now_ms).filled >= 0,
{
}

/// A fill delivered twice counts once.
pub proof fn law_fills_count_once(v: OmsV, f: FillRec)
    requires
        v.seen.len() <= SEEN_FILLS_CAP,
    ensures
        after_fill(after_fill(v, f), f) == after_fill(v, f),
        is_new(v, f) ==> fill_events(after_fill(v, f), f) == Seq::<EventV>::empty(),
{
    if is_new(v, f) {
        let s = remembered(v.seen, f.fill_id@);
        assert(s.last() == f.fill_id@);
        assert(s[s.len() - 1] == f.fill_id@);
        assert(s.contains(f.fill_id@));
    }
}

/// While a managed order is pending, being canceled or not established, its side is
/// locked.
pub proof fn law_unsettled_orders_lock_their_side(v: OmsV, k: Seq<char>)
    requires
        v.orders.contains_key(k),
        v.orders[k].managed,
        v.orders[k].status.locks(),
    ensures
        locked(v, v.orders[k].ticker, v.orders[k].side),
{
}

/// A resting report while a cancel is in flight does not unlock the side.
pub proof fn law_resting_report_keeps_the_lock(r: OrderV, m: OrderMsg)
    requires
        r.status == OrderStatus::Canceling,
        m.status@ == "resting"@,
    ensures
        merged(r, m).status == OrderStatus::Canceling,
{
}

/// The state after a run of write actions was asked for, one after the other.
pub open spec fn budget_run(v: OmsV, times: Seq<i64>, max_per_s: i64) -> OmsV
    decreases times.len(),
{
    if times.len() == 0 {
        v
    } else {
        budgeted(budget_run(v, times.drop_last(), max_per_s), times.last(), max_per_s)
    }
}

/// Whether the action asked for at `i` in a run is granted.
pub open spec fn granted(v: OmsV, times: Seq<i64>, max_per_s: i64, i: int) -> bool {
    within_budget(budget_run(v, times.take(i), max_per_s), times[i], max_per_s)
}

/// When the granted actions of a run were, in order.
pub open spec fn grants(v: OmsV, times: Seq<i64>, max_per_s: i64) -> Seq<i64>
    decreases times.len(),
{
    if times.len() == 0 {
        Seq::empty()
    } else {
        let before = grants(v, times.drop_last(), max_per_s);
        if granted(v, times, max_per_s, times.len() - 1) {
            before.push(times.last())
        } else {
            before
        }
    }
}

/// How many of these times are within the second that ends at `now_ms`.
pub open spec fn in_last_second(times: Seq<i64>, now_ms: i64) -> nat {
    times.filter(|t: i64| now_ms - t <= 1000).len()
}

/// Whether times never decrease.
pub open spec fn never_back(times: Seq<i64>) -> bool {
    forall|i: int, j: int| #![trigger times[i], times[j]] 0 <= i <= j < times.len() ==> times[i]
        <= times[j]
}

proof fn lemma_stamped_filter(a: Seq<(i64, ())>, g: Seq<i64>, cutoff: int)
    requires
        a == g.map_values(|t: i64| (t, ())),
    ensures
        a.filter(|x: (i64, ())| x.0 >= cutoff) == g.filter(|t: i64| t >= cutoff).map_values(
            |t: i64| (t, ()),
        ),
    decreases g.len(),
{
    let p = |x: (i64, ())| x.0 >= cutoff;
    let q = |t: i64| t >= cutoff;
    let f = |t: i64| (t, ());
    reveal(Seq::filter);
    if g.len() == 0 {
        assert(a.filter(p) =~= g.filter(q).map_values(f));
    } else {
        assert(a.drop_last() =~= g.drop_last().map_values(f));
        lemma_stamped_filter(a.drop_last(), g.drop_last(), cutoff);
        assert(a.last() == (g.last(), ()));
        assert(g.drop_last().filter(q).push(g.last()).map_values(f)
            =~= g.drop_last().filter(q).map_values(f).push((g.last(), ())));
    }
}

proof fn lemma_filter_twice(g: Seq<i64>, low: int, high: int)
    requires
        low <= high,
    ensures
        g.filter(|t: i64| t >= low).filter(|t: i64| t >= high) == g.filter(|t: i64| t >= high),
    decreases g.len(),
{
    let p = |t: i64| t >= low;
    let q = |t: i64| t >= high;
    reveal(Seq::filter);
    if g.len() == 0 {
        assert(g.filter(p).filter(q) =~= g.filter(q));
    } else {
        lemma_filter_twice(g.drop_last(), low, high);
        let kept = g.drop_last().filter(p);
        if p(g.last()) {
            assert(kept.push(g.last()).drop_last() =~= kept);
        }
    }
}

proof fn lemma_filter_in(g: Seq<i64>, p: spec_fn(i64) -> bool)
    requires
        never_back(g),
    ensures
        never_back(g.filter(p)),
        g.filter(p).len() > 0 ==> g.len() > 0 && g.filter(p).last() <= g.last(),
    decreases g.len(),
{
    reveal(Seq::filter);
    if g.len() > 0 {
        assert(never_back(g.drop_last()));
        lemma_filter_in(g.drop_last(), p);
        let kept = g.drop_last().filter(p);
        if g.len() > 1 {
            assert(g[g.len() - 2] <= g[g.len() - 1]);
        } else {
            assert(kept.len() == 0);
        }
        if p(g.last()) {
            assert forall|i: int, j: int|
                #![trigger kept.push(g.last())[i], kept.push(g.last())[j]]
                0 <= i <= j < kept.len() + 1 implies kept.push(g.last())[i] <= kept.push(
                g.last(),
            )[j] by {
                if i < kept.len() {
                    assert(kept[i] <= kept[kept.len() - 1]);
                }
            }
        }
    }
}

/// What a run leaves of the write actions: at any later time, those of the last second are
/// the granted ones of that second.
proof fn lemma_run_keeps_the_grants(v: OmsV, times: Seq<i64>, max_per_s: i64, now_ms: i64)
    requires
        v.actions.len() == 0,
        never_back(times),
        times.len() > 0 ==> times.last() <= now_ms,
    ensures
        recent_actions(budget_run(v, times, max_per_s), now_ms) == grants(
            v,
            times,
            max_per_s,
        ).filter(|t: i64| t >= now_ms - 1000).map_values(|t: i64| (t, ())),
        never_back(grants(v, times, max_per_s)),
        grants(v, times, max_per_s).len() > 0 ==> times.len() > 0 && grants(
            v,
            times,
            max_per_s,
        ).last() <= times.last(),
    decreases times.len(),
{
    let f = |t: i64| (t, ());
    let q = |t: i64| t >= now_ms - 1000;
    let g = grants(v, times, max_per_s);
    reveal(Seq::filter);
    if times.len() == 0 {
        assert(v.actions =~= Seq::<(i64, ())>::empty());
        assert(g.filter(q).map_values(f) =~= Seq::<(i64, ())>::empty());
    } else {
        let past = times.drop_last();
        let t0 = times.last();
        assert(times.take(times.len() - 1) =~= past);
        if past.len() > 0 {
            assert(times[times.len() - 2] <= times[times.len() - 1]);
        }
        lemma_run_keeps_the_grants(v, past, max_per_s, t0);
        let g0 = grants(v, past, max_per_s);
        let w0 = budget_run(v, past, max_per_s);
        let w = budget_run(v, times, max_per_s);
        let ok = within_budget(w0, t0, max_per_s);
        let q0 = |t: i64| t >= t0 - 1000;
        let kept = g0.filter(q0);
        lemma_filter_in(g0, q0);
        let all = if ok {
            kept.push(t0)
        } else {
            kept
        };
        assert(w.actions =~= all.map_values(f));
        if g0.len() > 0 {
            assert(g0.last() <= t0);
        }
        assert(never_back(all)) by {
            assert forall|i: int, j: int|
                #![trigger all[i], all[j]]
                0 <= i <= j < all.len() implies all[i] <= all[j] by {
                if j == kept.len() && i < j {
                    assert(kept[i] <= kept[kept.len() - 1]);
                }
            }
        }
        assert(never_back(g)) by {
            assert forall|i: int, j: int| #![trigger g[i], g[j]] 0 <= i <= j < g.len() implies g[i]
                <= g[j] by {
                if j == g0.len() && i < j {
                    assert(g0[i] <= g0[g0.len() - 1]);
                }
            }
        }
        assert(ring::in_order(w.actions)) by {
            assert forall|i: int, j: int|
                #![trigger w.actions[i], w.actions[j]]
                0 <= i <= j < w.actions.len() implies w.actions[i].0 <= w.actions[j].0 by {
                assert(all[i] <= all[j]);
            }
        }
        ring::law_dropped_keeps_the_recent(w.actions, now_ms - 1000);
        lemma_stamped_filter(w.actions, all, now_ms - 1000);
        lemma_filter_twice(g0, t0 - 1000, now_ms - 1000);
        if ok {
            assert(kept.push(t0).drop_last() =~= kept);
            assert(g.drop_last() =~= g0);
        }
        assert(all.filter(q) == g.filter(q));
    }
}

/// The action budget over any run of calls on a fresh state whose clock never goes back: a
/// call is granted exactly where fewer than `max_per_s` of the earlier ones were granted
/// within the second before it; and a refused call changes what no later call gets.
pub proof fn law_budget_holds_over_any_run(
    v: OmsV,
    times: Seq<i64>,
    max_per_s: i64,
    i: int,
    later_ms: i64,
)
    requires
        v.actions.len() == 0,
        never_back(times),
        0 <= i < times.len(),
        times[i] <= later_ms,
    ensures
        granted(v, times, max_per_s, i) <==> in_last_second(
            grants(v, times.take(i), max_per_s),
            times[i],
        ) * 1_000_000 < max_per_s,
        grants(v, times.take(i + 1), max_per_s) == if granted(v, times, max_per_s, i) {
            grants(v, times.take(i), max_per_s).push(times[i])
        } else {
            grants(v, times.take(i), max_per_s)
        },
        !granted(v, times, max_per_s, i) ==> (within_budget(
            budget_run(v, times.take(i + 1), max_per_s),
            later_ms,
            max_per_s,
        ) <==> within_budget(budget_run(v, times.take(i), max_per_s), later_ms, max_per_s)),
{
    let now = times[i];
    let a = times.take(i);
    let b = times.take(i + 1);
    if i > 0 {
        assert(times[i - 1] <= times[i]);
    }
    assert(never_back(a));
    assert(never_back(b));
    assert(b.drop_last() =~= a);
    assert(b.take(i) =~= a);
    lemma_run_keeps_the_grants(v, a, max_per_s, now);
    let g = grants(v, a, max_per_s);
    assert((|t: i64| t >= now - 1000) =~= (|t: i64| now - t <= 1000));
    lemma_run_keeps_the_grants(v, a, max_per_s, later_ms);
    lemma_run_keeps_the_grants(v, b, max_per_s, later_ms);
}

/// A position that the venue gives replaces the estimate, unless it is older than the
/// last one.
pub proof fn law_the_poll_wins(v: OmsV, ticker: Seq<char>, position: i64, ts_ms: i64)
    requires
        ts_ms >= position_in(v, ticker).auth_ts_ms,
    ensures
        ({
            let p = position_in(positioned(v, ticker, position, ts_ms), ticker);
            p.auth == position && p.est == position
        }),
{
}

/// A report older than what is known of its order changes no order.
pub proof fn law_stale_reports_change_nothing(v: OmsV, m: OrderMsg, managed: bool)
    requires
        m.order_id@.len() > 0,
        v.orders.contains_key(m.order_id@),
        m.updated_ms < v.orders[m.order_id@].updated_ms,
    ensures
        observed(v, m, managed) == v,
        observed_events(v, m, managed) == Seq::<EventV>::empty(),
{
}

/// Which side of the yes book a report is of: buying yes and selling no bid, selling yes and
/// buying no ask; a side that is named outright comes first. What is filled on the bid adds
/// to the position, and on the ask takes off.
pub proof fn law_sides_by_name(side: Option<Seq<char>>, action: Option<Seq<char>>, n: int)
    ensures
        BookSide::named(Some("bid"@), side, action) == Some(BookSide::Bid),
        BookSide::named(Some("ask"@), side, action) == Some(BookSide::Ask),
        BookSide::named(None, Some("yes"@), Some("buy"@)) == Some(BookSide::Bid),
        BookSide::named(None, Some("no"@), Some("sell"@)) == Some(BookSide::Bid),
        BookSide::named(None, Some("yes"@), Some("sell"@)) == Some(BookSide::Ask),
        BookSide::named(None, Some("no"@), Some("buy"@)) == Some(BookSide::Ask),
        BookSide::named(None, None, action) is None,
        BookSide::named(None, side, None) is None,
        BookSide::Bid.sign_of(n) == n,
        BookSide::Ask.sign_of(n) == -n,
{
    reveal_strlit("bid");
    reveal_strlit("ask");
    reveal_strlit("yes");
    reveal_strlit("no");
    reveal_strlit("buy");
    reveal_strlit("sell");
    assert("bid"@[0] != "ask"@[0]);
    assert("yes"@.len() != "no"@.len());
    assert("buy"@.len() != "sell"@.len());
}

/// What the words of a report make of an order's status; a word that is not known leaves it.
pub proof fn law_status_by_word(s: Seq<char>, current: OrderStatus)
    ensures
        status_after("canceled"@, current) == OrderStatus::Canceled,
        status_after("cancelled"@, current) == OrderStatus::Canceled,
        status_after("executed"@, current) == OrderStatus::Executed,
        current != OrderStatus::Canceling ==> status_after("resting"@, current)
            == OrderStatus::Resting,
        s != "resting"@ && s != "canceled"@ && s != "cancelled"@ && s != "executed"@
            ==> status_after(s, current) == current,
{
    reveal_strlit("resting");
    reveal_strlit("canceled");
    reveal_strlit("cancelled");
    reveal_strlit("executed");
    assert("resting"@.len() == 7 && "canceled"@.len() == 8 && "cancelled"@.len() == 9
        && "executed"@.len() == 8);
    assert("canceled"@[0] != "executed"@[0]);
}

/// A new fill adds its count to its order and to the estimate of its market, or takes it off
/// where it is on the ask. What is left of the order is its size less what is filled; an order
/// of which nothing is left is executed.
pub proof fn law_fills_move_orders_and_positions(v: OmsV, f: FillRec)
    requires
        f.fill_id@.len() > 0,
        !v.seen.contains(f.fill_id@),
        0 <= f.count <= 0x1000_0000_0000_0000,
        f.order_id@.len() > 0,
        v.orders.contains_key(f.order_id@),
        v.positions.contains_key(f.ticker@),
        -0x1000_0000_0000_0000 <= v.positions[f.ticker@].est <= 0x1000_0000_0000_0000,
        ({
            let r = v.orders[f.order_id@];
            0 <= r.fills_sum <= r.filled <= 0x1000_0000_0000_0000 && 0 < r.initial
        }),
    ensures
        ({
            let n = after_fill(v, f);
            let r = v.orders[f.order_id@];
            let s = n.orders[f.order_id@];
            let p = v.positions[f.ticker@];
            &&& f.side == BookSide::Bid ==> n.positions[f.ticker@].est == p.est + f.count
            &&& f.side == BookSide::Ask ==> n.positions[f.ticker@].est == p.est - f.count
            &&& n.positions[f.ticker@].auth == p.auth
            &&& s.fills_sum == r.fills_sum + f.count
            &&& r.fills_sum == r.filled ==> s.filled == r.filled + f.count
            &&& s.filled >= r.filled && s.filled >= s.fills_sum && (s.filled == r.filled || s.filled
                == s.fills_sum)
            &&& s.filled < r.initial ==> s.remaining == r.initial - s.filled && s.status == r.status
            &&& s.filled >= r.initial ==> s.remaining == 0 && (r.status == OrderStatus::Canceled
                || s.status == OrderStatus::Executed)
            &&& n.seen.contains(f.fill_id@)
            &&& s.side == r.side && s.yes_price == r.yes_price && s.initial == r.initial
        }),
{
    let n = remembered(v.seen, f.fill_id@);
    assert(n[n.len() - 1] == f.fill_id@);
}

/// A cancel that took so much off the book filled the rest: nothing is left, and the order is
/// executed where that is all of it, and canceled where it is not.
pub proof fn law_cancels_fill_the_rest(r: OrderV, reduced_by: i64, now_ms: i64)
    requires
        0 <= r.filled <= r.initial - reduced_by,
        0 <= reduced_by <= r.initial,
    ensures
        cancelled(r, reduced_by, now_ms).filled == r.initial - reduced_by,
        cancelled(r, reduced_by, now_ms).remaining == 0,
        reduced_by == 0 ==> cancelled(r, reduced_by, now_ms).status == OrderStatus::Executed,
        reduced_by > 0 ==> cancelled(r, reduced_by, now_ms).status == OrderStatus::Canceled,
{
}

/// A report brings an order up to date: the largest filled count known holds, what is left is
/// the report's where it is no more than what the counts leave, and a resting order with
/// nothing left is executed.
pub proof fn law_reports_bring_orders_up_to_date(r: OrderV, m: OrderMsg)
    requires
        0 < m.initial,
        0 <= m.filled && 0 <= r.filled && 0 <= r.fills_sum,
    ensures
        ({
            let s = merged(r, m);
            &&& s.initial == m.initial
            &&& s.filled >= r.filled && s.filled >= m.filled && s.filled >= r.fills_sum && (s.filled
                == r.filled || s.filled == m.filled || s.filled == r.fills_sum)
            &&& m.remaining >= 0 ==> s.remaining <= m.remaining
            &&& s.filled <= s.initial ==> s.remaining <= s.initial - s.filled
            &&& m.remaining < 0 && s.filled <= s.initial ==> s.remaining == s.initial - s.filled
            &&& m.remaining >= 0 && m.remaining <= s.initial - s.filled ==> s.remaining
                == m.remaining
            &&& m.status@ == "resting"@ && r.status != OrderStatus::Canceling && s.remaining > 0
                ==> s.status == OrderStatus::Resting
            &&& m.status@ == "resting"@ && r.status != OrderStatus::Canceling && s.remaining <= 0
                ==> s.status == OrderStatus::Executed
            &&& m.status@ == "canceled"@ ==> s.status == OrderStatus::Canceled
            &&& m.yes_price > 0 ==> s.yes_price == m.yes_price
            &&& s.updated_ms == m.updated_ms && s.managed == r.managed && s.side == r.side
        }),
{
    law_status_by_word(m.status@, r.status);
}

/// Only an order of our own is lost in a poll: one that should rest, is not listed and was
/// quiet for the grace time, or one that was never acknowledged in that time. An order that
/// is listed is not.
pub proof fn law_what_a_poll_loses(
    k: Seq<char>,
    r: OrderV,
    rows: Seq<OrderMsg>,
    now_ms: i64,
    grace_ms: i64,
)
    requires
        grace_ms >= 5_000,
    ensures
        !r.managed ==> !vanished(k, r, rows, now_ms, grace_ms),
        listed(rows, k) && r.status != OrderStatus::Pending ==> !vanished(k, r, rows, now_ms, grace_ms),
        r.managed && (r.status == OrderStatus::Resting || r.status == OrderStatus::Canceling)
            && !listed(rows, k) ==> (vanished(k, r, rows, now_ms, grace_ms) <==> now_ms
            - r.updated_ms > grace_ms),
        r.managed && r.status == OrderStatus::Pending ==> (vanished(k, r, rows, now_ms, grace_ms)
            <==> now_ms - r.created_ms > grace_ms),
        r.status == OrderStatus::Executed || r.status == OrderStatus::Canceled || r.status
            == OrderStatus::Unknown ==> !vanished(k, r, rows, now_ms, grace_ms),
        lost(r, now_ms).status == OrderStatus::Unknown,
{
}

/// An order is forgotten only once it is over and was quiet for long enough; a cancel that is
/// sent marks an order that is not over, and no other.
pub proof fn law_orders_that_are_over(v: OmsV, k: Seq<char>, now_ms: i64, keep_ms: i64)
    requires
        v.orders.contains_key(k),
    ensures
        ({
            let r = v.orders[k];
            let over = r.status == OrderStatus::Executed || r.status == OrderStatus::Canceled;
            &&& is_dead(r, now_ms, keep_ms) <==> over && now_ms - r.updated_ms > keep_ms
            &&& over ==> cancel_sent(v, k, now_ms) == v
            &&& !over ==> cancel_sent(v, k, now_ms).orders[k].status == OrderStatus::Canceling
                && cancel_sent(v, k, now_ms).orders[k].filled == r.filled
            &&& r.status.locks() <==> r.status == OrderStatus::Pending || r.status
                == OrderStatus::Canceling || r.status == OrderStatus::Unknown
        }),
{
}

/// An order that is about to be sent is of our own, all of it is left, and it locks its side;
/// once acknowledged it rests.
pub proof fn law_new_orders_wait_for_their_ack(
    client_id: Seq<char>,
    ticker: Seq<char>,
    side: BookSide,
    px: i64,
    size: i64,
    now_ms: i64,
)
    ensures
        ({
            let r = pending_order(client_id, ticker, side, px, size, now_ms);
            &&& r.managed && r.status == OrderStatus::Pending && r.status.locks()
            &&& r.initial == size && r.remaining == size && r.filled == 0 && r.fills_sum == 0
            &&& r.side == side && r.yes_price == px && r.ticker == ticker && r.client_id
                == client_id
            &&& acked(r, now_ms).status == OrderStatus::Resting
            &&& acked(r, now_ms).remaining == size
        }),
{
}

/// Two records of one order make one: the larger count holds, the fills seen of both add up,
/// what is left is the size less what is filled, and one that is over stays over.
pub proof fn law_two_records_make_one(r: OrderV, s: OrderV)
    requires
        0 < r.initial,
        0 <= r.filled && 0 <= s.filled,
        0 <= r.fills_sum <= 0x1000_0000_0000_0000,
        0 <= s.fills_sum <= 0x1000_0000_0000_0000,
        r.remaining < 0 || r.remaining >= r.initial,
    ensures
        ({
            let o = spliced(r, s);
            &&& o.fills_sum == r.fills_sum + s.fills_sum
            &&& o.filled >= r.filled && o.filled >= s.filled && o.filled >= o.fills_sum && (o.filled
                == r.filled || o.filled == s.filled || o.filled == o.fills_sum)
            &&& o.filled < o.initial ==> o.remaining == o.initial - o.filled
            &&& o.filled >= o.initial ==> o.remaining == 0 && (o.status == OrderStatus::Executed
                || o.status == OrderStatus::Canceled)
            &&& o.initial == r.initial && o.side == r.side && o.ticker == r.ticker
            &&& o.managed <==> r.managed || s.managed
            &&& s.status == OrderStatus::Canceled ==> o.status == OrderStatus::Canceled
            &&& s.status == OrderStatus::Executed ==> o.status == OrderStatus::Executed
        }),
{
}

/// A poll that lists nothing loses exactly the orders of our own that should rest and were
/// quiet for the grace time, or were never acknowledged in it; all others stay as they are.
pub proof fn law_an_empty_poll_loses_what_should_rest(
    v: OmsV,
    k: Seq<char>,
    now_ms: i64,
    grace_ms: i64,
)
    requires
        v.orders.contains_key(k),
        grace_ms >= 5_000,
    ensures
        ({
            let n = synced(v, Seq::empty(), now_ms, grace_ms);
            let r = v.orders[k];
            let gone = r.managed && ((r.status == OrderStatus::Resting || r.status
                == OrderStatus::Canceling) && now_ms - r.updated_ms > grace_ms || r.status
                == OrderStatus::Pending && now_ms - r.created_ms > grace_ms);
            &&& n.orders.contains_key(k)
            &&& gone ==> n.orders[k].status == OrderStatus::Unknown && n.orders[k].filled == r.filled
            &&& !gone ==> n.orders[k] == r
            &&& n.last_sync_ms == now_ms && n.positions == v.positions
        }),
{
    assert(observed_all(v, Seq::empty()) == v);
}

/// A poll of the positions without a row for a market finds it flat, unless something later
/// is known of it.
pub proof fn law_markets_without_a_row_are_flat(v: OmsV, t: Seq<char>, now_ms: i64)
    requires
        v.positions.contains_key(t),
    ensures
        ({
            let n = positions_synced(v, Seq::empty(), now_ms);
            &&& n.positions.contains_key(t)
            &&& v.positions[t].auth_ts_ms <= now_ms ==> n.positions[t].auth == 0
                && n.positions[t].est == 0 && n.positions[t].auth_ts_ms == now_ms
            &&& v.positions[t].auth_ts_ms > now_ms ==> n.positions[t] == v.positions[t]
            &&& n.orders == v.orders
        }),
{
    assert(positioned_all(v, Seq::empty(), now_ms) == v);
}

/// Rows are taken in one after the other; each position is told of, unless it is older than
/// what is known.
pub proof fn law_rows_are_taken_in_turn(
    v: OmsV,
    rows: Seq<(String, i64)>,
    row: (String, i64),
    reports: Seq<OrderMsg>,
    m: OrderMsg,
    now_ms: i64,
)
    ensures
        positioned_all(v, rows.push(row), now_ms) == positioned(
            positioned_all(v, rows, now_ms),
            row.0@,
            row.1,
            now_ms,
        ),
        observed_all(v, reports.push(m)) == observed(observed_all(v, reports), m, false),
        now_ms >= position_in(v, row.0@).auth_ts_ms ==> position_events(v, row.0@, row.1, now_ms)
            == seq![EventV::Position { ticker: row.0@, auth: row.1, ts_ms: now_ms }],
        now_ms < position_in(v, row.0@).auth_ts_ms ==> position_events(
            v,
            row.0@,
            row.1,
            now_ms,
        ).len() == 0,
{
    assert(rows.push(row).drop_last() =~= rows);
    assert(reports.push(m).drop_last() =~= reports);
}

/// Which markets a poll newly finds flat: those with a position, no row and nothing later
/// known. A managed order that rests is what is listed as resting.
pub proof fn law_what_a_poll_finds_flat(
    ts: Seq<Seq<char>>,
    w: OmsV,
    rows: Seq<(String, i64)>,
    now_ms: i64,
    t: Seq<char>,
    e: (String, OrderRec),
)
    requires
        are_flat(ts, w, rows, now_ms),
    ensures
        w.positions.contains_key(t) && w.positions[t].auth_ts_ms <= now_ms && !(exists|i: int|
            0 <= i < rows.len() && (#[trigger] rows[i]).0@ == t) ==> ts.contains(t),
        ts.contains(t) ==> w.positions.contains_key(t) && w.positions[t].auth_ts_ms <= now_ms,
        is_resting(e) <==> e.1.managed && e.1.status == OrderStatus::Resting,
{
}

/// An order first heard of through a fill is not ours, of no known size, and has nothing
/// filled before that fill.
pub proof fn law_orders_heard_of_through_a_fill(f: FillRec)
    ensures
        ({
            let r = order_of_fill(f);
            &&& !r.managed && r.initial == 0 && r.filled == 0 && r.fills_sum == 0 && r.remaining < 0
            &&& r.side == f.side && r.yes_price == f.yes_price && r.ticker == f.ticker@ && r.order_id
                == f.order_id@
            &&& r.status == OrderStatus::Unknown
        }),
        f.count >= 0 ==> with_fill(order_of_fill(f), f).filled == f.count,
{
}

} // verus!
