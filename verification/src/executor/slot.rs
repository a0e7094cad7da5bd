//! The state that the entry path and the exit reconciler of one market share. Each
//! transition has one writer: the entry path drives `Idle`/`Rest` to `Submitted` to
//! `Filled`; the reconciler drives `Filled` to `Rest` and `Rest` to `Idle`.
use vstd::prelude::*;
use crate::executor::config::ExitCfg;
use crate::executor::types::{Fill, FillStatus, MarketParams, EPS};
use crate::executor::types::MatchV;
use crate::executor::venue_spec;
use crate::executor::venue_spec::yes_side_of;
use crate::fixed;
use crate::fixed::{max64, min64, sat};
use crate::model::Side;
use crate::numeral;
use crate::numeral::u64_text;
use crate::strmap::StrMap;
use crate::text::joined;

verus! {

/// Where a market's trade stands.
#[derive(Clone, Copy, Debug, PartialEq, Eq, Structural)]
pub enum TradeState {
    /// Flat, no cycle.
    Idle,
    /// An entry is in flight; the reconciler is frozen.
    Submitted { since_ns: i64 },
    /// The entry filled and is settling; the reconciler is frozen.
    Filled { fill_ns: i64 },
    /// Steady: the reconciler may manage close orders.
    Rest,
}

/// The one resting close order of a market.
#[derive(Debug)]
pub struct RestingClose {
    pub order_id: String,
    /// What the close buys: the complement of what is held.
    pub instrument: String,
    pub px: i64,
    pub count: i64,
}

/// A resting close, as the contracts see it.
pub struct RestV {
    pub order_id: Seq<char>,
    pub instrument: Seq<char>,
    pub px: i64,
    pub count: i64,
}

impl View for RestingClose {
    type V = RestV;

    open spec fn view(&self) -> RestV {
        RestV {
            order_id: self.order_id@,
            instrument: self.instrument@,
            px: self.px,
            count: self.count,
        }
    }
}

impl Clone for RestingClose {
    fn clone(&self) -> (r: RestingClose)
        ensures
            r == *self,
    {
        RestingClose {
            order_id: self.order_id.clone(),
            instrument: self.instrument.clone(),
            px: self.px,
            count: self.count,
        }
    }
}

/// What the entry path and the reconciler of one market share.
#[derive(Debug)]
pub struct MarketSlot {
    pub state: TradeState,
    /// The net holding as far as is known here: above zero on the yes side. Closes are
    /// never sized by it.
    pub net_est: i64,
    pub hold_until_ns: i64,
    pub resting: Option<RestingClose>,
    pub reconciler_alive: bool,
    pub inst_yes: String,
    pub params: MarketParams,
    pub expiry_ns: i64,
    pub trade_id: String,
}

/// A slot, as the contracts see it.
pub struct SlotV {
    pub state: TradeState,
    pub net_est: i64,
    pub hold_until_ns: i64,
    pub resting: Option<RestV>,
    pub reconciler_alive: bool,
    pub inst_yes: Seq<char>,
    pub params: MarketParams,
    pub expiry_ns: i64,
    pub trade_id: Seq<char>,
}

/// The view of a reference that may be missing.
pub open spec fn rest_view(r: Option<RestingClose>) -> Option<RestV> {
    match r {
        Some(x) => Some(x@),
        None => None,
    }
}

impl View for MarketSlot {
    type V = SlotV;

    open spec fn view(&self) -> SlotV {
        SlotV {
            state: self.state,
            net_est: self.net_est,
            hold_until_ns: self.hold_until_ns,
            resting: rest_view(self.resting),
            reconciler_alive: self.reconciler_alive,
            inst_yes: self.inst_yes@,
            params: self.params,
            expiry_ns: self.expiry_ns,
            trade_id: self.trade_id@,
        }
    }
}

/// A copy of a reference.
pub fn copy_resting(r: &Option<RestingClose>) -> (c: Option<RestingClose>)
    ensures
        c == *r,
{
    match r {
        Some(x) => Some(x.clone()),
        None => None,
    }
}

impl Clone for MarketSlot {
    fn clone(&self) -> (r: MarketSlot)
        ensures
            r == *self,
    {
        MarketSlot {
            state: self.state,
            net_est: self.net_est,
            hold_until_ns: self.hold_until_ns,
            resting: copy_resting(&self.resting),
            reconciler_alive: self.reconciler_alive,
            inst_yes: self.inst_yes.clone(),
            params: self.params,
            expiry_ns: self.expiry_ns,
            trade_id: self.trade_id.clone(),
        }
    }
}

/// A flat slot without history.
pub open spec fn idle_slot(inst: Seq<char>, params: MarketParams, expiry_ns: i64) -> SlotV {
    SlotV {
        state: TradeState::Idle,
        net_est: 0,
        hold_until_ns: 0,
        resting: None,
        reconciler_alive: false,
        inst_yes: venue_spec::yes_text(inst),
        params,
        expiry_ns,
        trade_id: Seq::empty(),
    }
}

impl MarketSlot {
    /// A flat slot without history.
    pub fn new_idle(instrument: &str, params: MarketParams, expiry_ns: i64) -> (r: MarketSlot)
        ensures
            r@ == idle_slot(instrument@, params, expiry_ns),
    {
        let r = MarketSlot {
            state: TradeState::Idle,
            net_est: 0,
            hold_until_ns: 0,
            resting: None,
            reconciler_alive: false,
            inst_yes: yes_side_of(instrument),
            params,
            expiry_ns,
            trade_id: String::new(),
        };
        assert(r.trade_id@ =~= Seq::<char>::empty());
        r
    }
}

/// The reconciler's timing.
#[derive(Clone, Copy, Debug, PartialEq, Eq, Structural)]
pub struct ReconCfg {
    pub cadence_ms: u64,
    pub transit_ns: i64,
    pub submitted_timeout_ns: i64,
    pub settle_wait_ms: u64,
}

/// The reconciler's timing from the exit settings: it runs at most every 50 ms.
pub fn recon_cfg(e: &ExitCfg) -> (r: ReconCfg)
    ensures
        r.cadence_ms == fixed::larger(e.cadence_ms as int, 50),
        r.transit_ns == fixed::clamp64(e.transit_ms * 1_000_000),
        r.submitted_timeout_ns == fixed::clamp64(e.submitted_timeout_ms * 1_000_000),
        r.settle_wait_ms == e.settle_wait_ms,
{
    ReconCfg {
        cadence_ms: if e.cadence_ms >= 50 {
            e.cadence_ms
        } else {
            50
        },
        transit_ns: sat(e.transit_ms as i128 * 1_000_000),
        submitted_timeout_ns: sat(e.submitted_timeout_ms as i128 * 1_000_000),
        settle_wait_ms: e.settle_wait_ms,
    }
}

/// Why an entry may not start on a market.
#[derive(Clone, Copy, Debug, PartialEq, Eq, Structural)]
pub enum GateReject {
    /// Another entry is in flight.
    InFlight,
    /// The last entry's fill is still settling.
    Transit,
    /// The holding would grow past its cap.
    Exposure,
}

/// Whether an entry is in flight and not given up.
pub open spec fn in_flight(state: TradeState, now_ns: i64, rc: ReconCfg) -> bool {
    match state {
        TradeState::Submitted { since_ns } => now_ns - since_ns <= rc.submitted_timeout_ns,
        _ => false,
    }
}

/// Whether a fill is still settling.
pub open spec fn in_transit(state: TradeState, now_ns: i64, rc: ReconCfg) -> bool {
    match state {
        TradeState::Filled { fill_ns } => now_ns - fill_ns < rc.transit_ns,
        _ => false,
    }
}

/// Whether an entry may go out: not while one is in flight and while a fill settles.
/// An entry that is in flight for too long counts as lost and stops nothing.
pub fn entry_gate(state: TradeState, now_ns: i64, rc: &ReconCfg) -> (r: Result<(), GateReject>)
    ensures
        match r {
            Err(GateReject::InFlight) => in_flight(state, now_ns, *rc),
            Err(GateReject::Transit) => in_transit(state, now_ns, *rc),
            Err(GateReject::Exposure) => false,
            Ok(()) => !in_flight(state, now_ns, *rc) && !in_transit(state, now_ns, *rc),
        },
{
    match state {
        TradeState::Submitted { since_ns } => if now_ns as i128 - since_ns as i128
            <= rc.submitted_timeout_ns as i128 {
            Err(GateReject::InFlight)
        } else {
            Ok(())
        },
        TradeState::Filled { fill_ns } => if (now_ns as i128 - fill_ns as i128)
            < rc.transit_ns as i128 {
            Err(GateReject::Transit)
        } else {
            Ok(())
        },
        _ => Ok(()),
    }
}

/// The net holding after buying `size` on the yes side or on the no side.
pub open spec fn net_after(net: int, yes: bool, size: int) -> int {
    if yes {
        net + size
    } else {
        net - size
    }
}

/// Whether an entry keeps the cap, or at least does not grow the holding.
pub open spec fn exposure_fits(net: int, yes: bool, size: int, cap: int) -> bool {
    let after = fixed::magnitude(net_after(net, yes, size));
    after <= cap + EPS || after <= fixed::magnitude(net) + EPS
}

/// The cap on a market's holding: refuses entries that grow it past `cap`, allows those
/// that reduce it.
pub fn exposure_ok(net_est: i64, yes: bool, size: i64, cap: i64) -> (r: bool)
    ensures
        r == exposure_fits(net_est as int, yes, size as int, cap as int),
{
    let after: i128 = if yes {
        net_est as i128 + size as i128
    } else {
        net_est as i128 - size as i128
    };
    let a: i128 = if after < 0 {
        -after
    } else {
        after
    };
    a <= cap as i128 + EPS as i128 || a <= fixed::abs64(net_est) + EPS as i128
}

/// The fill that a close makes on the held side: buying the complement at a price is
/// selling what is held at one less that price, without a fee.
pub open spec fn close_fill(
    held: Seq<char>,
    order_id: Seq<char>,
    seq: u64,
    qty: i64,
    close_px: i64,
    now_ns: i64,
) -> MatchV {
    MatchV {
        venue_trade_id: order_id + "-cl"@ + numeral::dec(seq as nat),
        order_id,
        client_id: "close:"@ + held,
        instrument: held,
        status: FillStatus::Confirmed,
        side: Side::Sell,
        qty,
        px: fixed::clamp64(1_000_000 - close_px) as i64,
        fee: 0,
        ts_ns: now_ns,
    }
}

/// The fill that a close makes on the held side.
pub fn translated_close_fill(
    held_inst: &str,
    order_id: &str,
    seq: u64,
    qty: i64,
    close_px: i64,
    now_ns: i64,
) -> (r: Fill)
    ensures
        r@ == close_fill(held_inst@, order_id@, seq, qty, close_px, now_ns),
{
    let stem = joined(order_id, "-cl");
    Fill {
        venue_trade_id: joined(stem.as_str(), u64_text(seq).as_str()),
        order_id: order_id.to_string(),
        client_id: joined("close:", held_inst),
        instrument: held_inst.to_string(),
        status: FillStatus::Confirmed,
        side: Side::Sell,
        qty,
        px: sat(1_000_000 - close_px as i128),
        fee: 0,
        ts_ns: now_ns,
    }
}

/// A part `qty` of a fee that was charged on `whole`, rounded down.
pub open spec fn fee_share(fee: int, qty: int, whole: int) -> int {
    if whole > EPS {
        fee * qty / whole
    } else {
        0
    }
}

/// A fill cut to what is held, with its fee in proportion; nothing where nothing is held.
pub open spec fn clamped(held: i64, f: Fill) -> Option<Fill> {
    if held <= EPS {
        None
    } else {
        let qty = fixed::smaller(f.qty as int, held as int);
        Some(
            Fill {
                qty: qty as i64,
                fee: fixed::clamp64(fee_share(f.fee as int, qty, f.qty as int)) as i64,
                ..f
            },
        )
    }
}

/// Cuts a fill to what is held: what comes too late for a position that is gone already is
/// no sale.
pub fn clamp_liquidation(held: i64, f: &Fill) -> (r: Option<Fill>)
    ensures
        r == clamped(held, *f),
{
    if held <= EPS {
        return None;
    }
    let qty = min64(f.qty, held);
    let fee: i64 = if f.qty > EPS {
        assert(-85070591730234615865843651857942052864 <= f.fee * qty
            <= 85070591730234615865843651857942052864) by (nonlinear_arith)
            requires
                -9223372036854775808 <= f.fee <= 9223372036854775808,
                -9223372036854775808 <= qty <= 9223372036854775808,
        ;
        sat(fixed::div_floor(f.fee as i128 * qty as i128, f.qty as i128))
    } else {
        0
    };
    Some(
        Fill {
            venue_trade_id: f.venue_trade_id.clone(),
            order_id: f.order_id.clone(),
            client_id: f.client_id.clone(),
            instrument: f.instrument.clone(),
            status: f.status,
            side: f.side,
            qty,
            px: f.px,
            fee,
            ts_ns: f.ts_ns,
        },
    )
}

/// What an entry brings to its market's slot.
#[derive(Debug)]
pub struct EntryClaim {
    pub instrument: String,
    pub size: i64,
    pub params: MarketParams,
    pub expiry_ns: i64,
    pub trade_id: String,
}

/// The slots of all markets, by market id.
pub struct Slots {
    m: StrMap<MarketSlot>,
}

/// The views of the slots.
pub open spec fn slot_views(m: Map<Seq<char>, MarketSlot>) -> Map<Seq<char>, SlotV> {
    m.map_values(|s: MarketSlot| s@)
}

/// The slot of a market, or a flat one.
pub open spec fn slot_or_idle(m: Map<Seq<char>, SlotV>, mid: Seq<char>, c: EntryClaim) -> SlotV {
    if m.contains_key(mid) {
        m[mid]
    } else {
        idle_slot(c.instrument@, c.params, c.expiry_ns)
    }
}

/// Whether a claim buys the yes side.
pub open spec fn buys_yes(c: EntryClaim) -> bool {
    c.instrument@ == venue_spec::yes_text(c.instrument@)
}

/// Why a claim is refused, if it is.
pub open spec fn claim_reject(s: SlotV, c: EntryClaim, now_ns: i64, rc: ReconCfg, cap: i64) -> Option<
    GateReject,
> {
    if in_flight(s.state, now_ns, rc) {
        Some(GateReject::InFlight)
    } else if in_transit(s.state, now_ns, rc) {
        Some(GateReject::Transit)
    } else if !exposure_fits(s.net_est as int, buys_yes(c), c.size as int, cap as int) {
        Some(GateReject::Exposure)
    } else {
        None
    }
}

/// A slot once an entry has claimed it: the entry is in flight, and holds the reference to
/// the resting close.
pub open spec fn claimed(s: SlotV, c: EntryClaim, now_ns: i64) -> SlotV {
    SlotV {
        state: TradeState::Submitted { since_ns: now_ns },
        inst_yes: venue_spec::yes_text(c.instrument@),
        params: c.params,
        expiry_ns: c.expiry_ns,
        trade_id: c.trade_id@,
        resting: None,
        ..s
    }
}

/// A slot once a close fill of this size was accounted for: the holding moves toward, and
/// maybe past, zero.
pub open spec fn reduced(s: SlotV, filled: i64) -> SlotV {
    SlotV {
        net_est: fixed::clamp64(
            if s.net_est >= 0 {
                s.net_est - filled
            } else {
                s.net_est + filled
            },
        ) as i64,
        ..s
    }
}

/// A slot once an entry gave up without a fill.
pub open spec fn released(s: SlotV) -> SlotV {
    SlotV {
        state: if fixed::magnitude(s.net_est as int) > EPS {
            TradeState::Rest
        } else {
            TradeState::Idle
        },
        ..s
    }
}

/// A slot once an entry filled: settling, with the holding grown, the hold extended and a
/// reconciler in charge.
pub open spec fn handed_over(s: SlotV, yes: bool, qty: i64, fill_ns: i64, hold_ms: u64) -> SlotV {
    SlotV {
        state: TradeState::Filled { fill_ns },
        net_est: fixed::clamp64(net_after(s.net_est as int, yes, qty as int)) as i64,
        hold_until_ns: fixed::larger(
            s.hold_until_ns as int,
            fixed::clamp64(fill_ns + hold_ms * 1_000_000),
        ) as i64,
        reconciler_alive: true,
        ..s
    }
}

/// A slot for a holding that was found at the venue: to be closed at once.
pub open spec fn recovered(s: SlotV, mid: Seq<char>, net: i64) -> SlotV {
    SlotV {
        state: TradeState::Rest,
        net_est: net,
        hold_until_ns: 0,
        reconciler_alive: true,
        trade_id: "recovered-"@ + mid,
        ..s
    }
}

/// `m` with the slot of a market changed, where it has one.
pub open spec fn changed(m: Map<Seq<char>, SlotV>, mid: Seq<char>, s: SlotV) -> Map<
    Seq<char>,
    SlotV,
> {
    if m.contains_key(mid) {
        m.insert(mid, s)
    } else {
        m
    }
}

impl View for Slots {
    type V = Map<Seq<char>, SlotV>;

    closed spec fn view(&self) -> Map<Seq<char>, SlotV> {
        slot_views(self.m@)
    }
}

impl Slots {
    /// No slots.
    pub fn new() -> (r: Slots)
        ensures
            r@ == Map::<Seq<char>, SlotV>::empty(),
    {
        let r = Slots { m: StrMap::new() };
        assert(r@ =~= Map::<Seq<char>, SlotV>::empty());
        r
    }

    /// The slot of a market.
    pub fn get(&self, mid: &str) -> (r: Option<&MarketSlot>)
        ensures
            match r {
                Some(s) => self@.contains_key(mid@) && s@ == self@[mid@],
                None => !self@.contains_key(mid@),
            },
    {
        self.m.get(mid)
    }

    /// Puts a slot in place.
    pub fn put(&mut self, mid: &str, s: MarketSlot)
        ensures
            final(self)@ == old(self)@.insert(mid@, s@),
    {
        self.m.insert(mid.to_string(), s);
        assert(self@ =~= old(self)@.insert(mid@, s@));
    }

    /// Claims a market for an entry, and hands over the reference to its resting close. A
    /// claim is refused while another entry is in flight or settling, and where it would
    /// grow the holding past `cap`; the slot then exists, unchanged.
    pub fn claim(&mut self, mid: &str, c: &EntryClaim, now_ns: i64, rc: &ReconCfg, cap: i64) -> (r: Result<
        Option<RestingClose>,
        GateReject,
    >)
        ensures
            ({
                let s = slot_or_idle(old(self)@, mid@, *c);
                match r {
                    Ok(x) => claim_reject(s, *c, now_ns, *rc, cap) is None && rest_view(x)
                        == s.resting && final(self)@ == old(self)@.insert(
                        mid@,
                        claimed(s, *c, now_ns),
                    ),
                    Err(e) => claim_reject(s, *c, now_ns, *rc, cap) == Some(e) && final(self)@
                        == old(self)@.insert(mid@, s),
                }
            }),
    {
        let mut s: MarketSlot = match self.get(mid) {
            Some(s) => s.clone(),
            None => MarketSlot::new_idle(c.instrument.as_str(), c.params, c.expiry_ns),
        };
        let yes_inst = yes_side_of(c.instrument.as_str());
        let yes: bool = crate::text::same(c.instrument.as_str(), yes_inst.as_str());
        match entry_gate(s.state, now_ns, rc) {
            Err(e) => {
                self.put(mid, s);
                Err(e)
            },
            Ok(()) => {
                if !exposure_ok(s.net_est, yes, c.size, cap) {
                    self.put(mid, s);
                    return Err(GateReject::Exposure);
                }
                let resting = s.resting;
                let next = MarketSlot {
                    state: TradeState::Submitted { since_ns: now_ns },
                    net_est: s.net_est,
                    hold_until_ns: s.hold_until_ns,
                    resting: None,
                    reconciler_alive: s.reconciler_alive,
                    inst_yes: yes_inst,
                    params: c.params,
                    expiry_ns: c.expiry_ns,
                    trade_id: c.trade_id.clone(),
                };
                self.put(mid, next);
                Ok(resting)
            },
        }
    }

    /// Accounts for a close fill of this size.
    pub fn reduce(&mut self, mid: &str, filled: i64)
        ensures
            final(self)@ == changed(old(self)@, mid@, reduced(old(self)@[mid@], filled)),
    {
        let found: Option<MarketSlot> = match self.get(mid) {
            Some(s) => Some(s.clone()),
            None => None,
        };
        if let Some(mut s) = found {
            s.net_est = if s.net_est >= 0 {
                sat(s.net_est as i128 - filled as i128)
            } else {
                sat(s.net_est as i128 + filled as i128)
            };
            self.put(mid, s);
        }
    }

    /// Gives a claimed reference back: whether its order is off the book is not known.
    pub fn restore(&mut self, mid: &str, r: RestingClose)
        ensures
            final(self)@ == changed(
                old(self)@,
                mid@,
                (SlotV { resting: Some(r@), state: TradeState::Rest, ..old(self)@[mid@] }),
            ),
    {
        let found: Option<MarketSlot> = match self.get(mid) {
            Some(s) => Some(s.clone()),
            None => None,
        };
        if let Some(mut s) = found {
            s.resting = Some(r);
            s.state = TradeState::Rest;
            self.put(mid, s);
        }
    }

    /// Releases a claim without a fill.
    pub fn release_submitted(&mut self, mid: &str)
        ensures
            final(self)@ == changed(old(self)@, mid@, released(old(self)@[mid@])),
    {
        let found: Option<MarketSlot> = match self.get(mid) {
            Some(s) => Some(s.clone()),
            None => None,
        };
        if let Some(mut s) = found {
            s.state = if fixed::abs64(s.net_est) > EPS as i128 {
                TradeState::Rest
            } else {
                TradeState::Idle
            };
            self.put(mid, s);
        }
    }

    /// Hands a filled entry to the reconciler; `true` where one has to be started.
    pub fn hand_over(&mut self, mid: &str, yes: bool, qty: i64, fill_ns: i64, hold_ms: u64) -> (r: bool)
        ensures
            final(self)@ == changed(
                old(self)@,
                mid@,
                handed_over(old(self)@[mid@], yes, qty, fill_ns, hold_ms),
            ),
            r == (old(self)@.contains_key(mid@) && !old(self)@[mid@].reconciler_alive),
    {
        let found: Option<MarketSlot> = match self.get(mid) {
            Some(s) => Some(s.clone()),
            None => None,
        };
        match found {
            None => false,
            Some(mut s) => {
                let need: bool = !s.reconciler_alive;
                s.state = TradeState::Filled { fill_ns };
                s.net_est = if yes {
                    sat(s.net_est as i128 + qty as i128)
                } else {
                    sat(s.net_est as i128 - qty as i128)
                };
                s.hold_until_ns = max64(
                    s.hold_until_ns,
                    sat(fill_ns as i128 + hold_ms as i128 * 1_000_000),
                );
                s.reconciler_alive = true;
                self.put(mid, s);
                need
            },
        }
    }

    /// Takes up a holding that was found at the venue; `true` where a reconciler has to be
    /// started for it. A market that has one already is left alone.
    pub fn recover(
        &mut self,
        mid: &str,
        inst_yes: &str,
        net: i64,
        fallback: MarketParams,
    ) -> (r: bool)
        ensures
            ({
                let s = if old(self)@.contains_key(mid@) {
                    old(self)@[mid@]
                } else {
                    idle_slot(inst_yes@, fallback, i64::MAX)
                };
                &&& r == !s.reconciler_alive
                &&& final(self)@ == old(self)@.insert(
                    mid@,
                    if r {
                        recovered(s, mid@, net)
                    } else {
                        s
                    },
                )
            }),
    {
        let mut s: MarketSlot = match self.get(mid) {
            Some(s) => s.clone(),
            None => MarketSlot::new_idle(inst_yes, fallback, i64::MAX),
        };
        if s.reconciler_alive {
            self.put(mid, s);
            return false;
        }
        s.state = TradeState::Rest;
        s.net_est = net;
        s.hold_until_ns = 0;
        s.reconciler_alive = true;
        s.trade_id = joined("recovered-", mid);
        self.put(mid, s);
        true
    }
}

/// An entry that does not grow the holding is never refused for its size.
pub proof fn law_reducing_entries_keep_the_cap(net: int, yes: bool, size: int, cap: int)
    requires
        fixed::magnitude(net_after(net, yes, size)) <= fixed::magnitude(net),
    ensures
        exposure_fits(net, yes, size, cap),
{
}

/// No entry takes a holding that keeps the cap past it, by more than the tolerance.
pub proof fn law_entries_keep_the_cap(net: int, yes: bool, size: int, cap: int)
    requires
        fixed::magnitude(net) <= cap,
        exposure_fits(net, yes, size, cap),
    ensures
        fixed::magnitude(net_after(net, yes, size)) <= cap + EPS,
{
}

/// While an entry is in flight on a market, a second one is refused there.
pub proof fn law_one_entry_in_flight(
    s: SlotV,
    a: EntryClaim,
    b: EntryClaim,
    t0: i64,
    t1: i64,
    rc: ReconCfg,
    cap: i64,
)
    requires
        claim_reject(s, a, t0, rc, cap) is None,
        t1 - t0 <= rc.submitted_timeout_ns,
    ensures
        claim_reject(claimed(s, a, t0), b, t1, rc, cap) == Some(GateReject::InFlight),
{
}

/// What a close earns and what it costs add up to one unit a share, whatever the price.
pub proof fn law_close_price_complements(
    held: Seq<char>,
    order_id: Seq<char>,
    seq: u64,
    qty: i64,
    close_px: i64,
    now_ns: i64,
)
    requires
        0 <= close_px <= 1_000_000,
    ensures
        close_fill(held, order_id, seq, qty, close_px, now_ns).px + close_px == 1_000_000,
        close_fill(held, order_id, seq, qty, close_px, now_ns).side == Side::Sell,
{
}

/// A fill that is cut to what is held never sells more than that.
pub proof fn law_clamped_fill_fits_the_holding(held: i64, f: Fill)
    ensures
        match clamped(held, f) {
            Some(c) => c.qty <= held && c.qty <= f.qty,
            None => held <= EPS,
        },
{
}

/// Buying the yes side raises the net holding by the size, buying the no side lowers it;
/// an entry is taken exactly where the holding then lies within the cap either way, or is
/// no larger than before, up to the tolerance.
pub proof fn law_entries_move_the_holding(net: int, size: int, cap: int)
    ensures
        net_after(net, true, size) == net + size,
        net_after(net, false, size) == net - size,
        exposure_fits(net, true, size, cap) <==> (-cap - EPS <= net + size <= cap + EPS || -(
        if net < 0 {
            -net
        } else {
            net
        }) - EPS <= net + size <= (if net < 0 {
            -net
        } else {
            net
        }) + EPS),
        exposure_fits(net, false, size, cap) <==> (-cap - EPS <= net - size <= cap + EPS || -(
        if net < 0 {
            -net
        } else {
            net
        }) - EPS <= net - size <= (if net < 0 {
            -net
        } else {
            net
        }) + EPS),
{
}

/// A market takes an entry unless one is in flight, for as long as its timeout, or the last
/// fill still settles, or the holding would pass the cap.
pub proof fn law_what_refuses_an_entry(
    s: SlotV,
    c: EntryClaim,
    now_ns: i64,
    rc: ReconCfg,
    cap: i64,
)
    ensures
        claim_reject(s, c, now_ns, rc, cap) == Some(GateReject::InFlight) <==> (s.state matches
            TradeState::Submitted { since_ns } && now_ns - since_ns <= rc.submitted_timeout_ns),
        claim_reject(s, c, now_ns, rc, cap) == Some(GateReject::Transit) <==> (s.state matches
            TradeState::Filled { fill_ns } && now_ns - fill_ns < rc.transit_ns),
        s.state == TradeState::Rest || s.state == TradeState::Idle ==> (claim_reject(
            s,
            c,
            now_ns,
            rc,
            cap,
        ) is None <==> exposure_fits(
            s.net_est as int,
            c.instrument@ == venue_spec::yes_text(c.instrument@),
            c.size as int,
            cap as int,
        )),
{
}

/// What a claim and its end do to a market: a claim puts an entry in flight from now on and
/// takes the reference to the resting close; giving up leaves a holding at rest and a flat
/// market idle; a fill moves the holding by its size, up for the yes side and down for the
/// no side, starts settling, keeps the later of the two holds, and puts a reconciler in
/// charge.
pub proof fn law_entries_begin_and_end(
    s: SlotV,
    c: EntryClaim,
    now_ns: i64,
    yes: bool,
    qty: i64,
    fill_ns: i64,
    hold_ms: u64,
)
    ensures
        claimed(s, c, now_ns).state == (TradeState::Submitted { since_ns: now_ns }),
        claimed(s, c, now_ns).resting is None,
        claimed(s, c, now_ns).net_est == s.net_est,
        claimed(s, c, now_ns).hold_until_ns == s.hold_until_ns,
        claimed(s, c, now_ns).trade_id == c.trade_id@,
        claimed(s, c, now_ns).expiry_ns == c.expiry_ns,
        s.net_est > EPS || s.net_est < -EPS ==> released(s).state == TradeState::Rest,
        -EPS <= s.net_est <= EPS ==> released(s).state == TradeState::Idle,
        released(s).net_est == s.net_est,
        ({
            let t = handed_over(s, yes, qty, fill_ns, hold_ms);
            let moved = if yes {
                s.net_est + qty
            } else {
                s.net_est - qty
            };
            let until = fill_ns + hold_ms * 1_000_000;
            &&& i64::MIN <= moved <= i64::MAX ==> t.net_est == moved
            &&& t.hold_until_ns >= s.hold_until_ns
            &&& until <= i64::MAX ==> t.hold_until_ns >= until && (t.hold_until_ns == until
                || t.hold_until_ns == s.hold_until_ns)
            &&& t.state == (TradeState::Filled { fill_ns })
            &&& t.reconciler_alive
            &&& t.resting == s.resting
        }),
{
}

/// A close fill moves the holding toward zero, by its size, whichever side is held; a fill
/// no larger than the holding never turns it round.
pub proof fn law_close_fills_shrink_the_holding(s: SlotV, filled: i64)
    requires
        0 <= filled,
    ensures
        s.net_est > 0 ==> reduced(s, filled).net_est == s.net_est - filled,
        s.net_est < 0 ==> reduced(s, filled).net_est == s.net_est + filled,
        s.net_est > 0 && filled <= s.net_est ==> 0 <= reduced(s, filled).net_est <= s.net_est,
        s.net_est < 0 && filled <= -s.net_est ==> s.net_est <= reduced(s, filled).net_est <= 0,
        reduced(s, filled).state == s.state,
        reduced(s, filled).resting == s.resting,
{
}

/// A fill no larger than what is held is booked as it came; a larger one is booked for what
/// is held, with no more than its share of the fee. Nothing else of it changes.
pub proof fn law_fills_are_cut_to_the_holding(held: i64, f: Fill)
    requires
        held > EPS,
    ensures
        clamped(held, f) is Some,
        ({
            let c = clamped(held, f)->0;
            &&& f.qty <= held ==> c.qty == f.qty
            &&& f.qty > held ==> c.qty == held
            &&& EPS < f.qty <= held ==> c.fee == f.fee
            &&& f.qty > held && f.fee >= 0 ==> 0 <= c.fee <= f.fee && c.fee * f.qty <= f.fee * held
                < (c.fee + 1) * f.qty
            &&& c.px == f.px && c.side == f.side && c.instrument == f.instrument && c.ts_ns
                == f.ts_ns && c.venue_trade_id == f.venue_trade_id && c.status == f.status
        }),
{
    let qty = fixed::smaller(f.qty as int, held as int);
    if f.qty > EPS {
        let num = f.fee * qty;
        let q = num / f.qty as int;
        vstd::arithmetic::div_mod::lemma_fundamental_div_mod(num, f.qty as int);
        let r = num % f.qty as int;
        if f.qty <= held {
            assert(num / f.qty as int == f.fee) by {
                vstd::arithmetic::div_mod::lemma_div_multiples_vanish(f.fee as int, f.qty as int);
                assert(num == f.qty * f.fee) by (nonlinear_arith)
                    requires
                        num == f.fee * f.qty,
                ;
            }
        } else if f.fee >= 0 {
            assert(0 <= q <= f.fee && q * f.qty <= num && num < (q + 1) * f.qty) by (nonlinear_arith)
                requires
                    num == f.qty * q + r,
                    0 <= r < f.qty,
                    num == f.fee * held,
                    0 <= f.fee,
                    0 < held < f.qty,
            ;
        }
    }
}

/// A holding found at the venue is taken over as it is, to be closed at once.
pub proof fn law_recovered_holdings_are_closed_at_once(s: SlotV, mid: Seq<char>, net: i64, now: i64)
    requires
        now >= 0,
    ensures
        recovered(s, mid, net).net_est == net,
        recovered(s, mid, net).state == TradeState::Rest,
        recovered(s, mid, net).hold_until_ns <= now,
        recovered(s, mid, net).reconciler_alive,
{
}

/// A fill on nothing is no fill.
pub proof fn law_nothing_held_is_not_sold(held: i64, f: Fill)
    ensures
        clamped(held, f) is None <==> held <= EPS,
        held > EPS && f.qty <= EPS ==> (clamped(held, f) matches Some(c) && c.fee == 0),
{
}

} // verus!
