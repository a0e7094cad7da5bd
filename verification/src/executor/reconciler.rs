//! The exit reconciler of one market: the loop that owns the true position and every close
//! order. It is a machine from an event to the next action, so that what it does between
//! two answers of the venue is one step.
//!
//! A close only ever buys the complement of what is held, so it cannot oversell. A close
//! that is no longer wanted is canceled first, and the position is polled again before
//! another one is posted.
use vstd::prelude::*;
use crate::executor::mirror;
use crate::executor::mirror::ExecBookMirror;
use crate::executor::mirror::MirrorView;
use crate::executor::slot;
use crate::executor::slot::{
    copy_resting,
    translated_close_fill,
    ReconCfg,
    RestingClose,
    Slots,
    TradeState,
};
use crate::executor::slot::{RestV, SlotV};
use crate::executor::types::{Fill, IntentKind, MarketParams, OrderIntent, EPS};
use crate::executor::types::{IntentV, MatchV};
use crate::executor::venue_spec;
use crate::executor::venue_spec::complement;
use crate::fixed;
use crate::fixed::{abs64, max64, min64, sat};
use crate::model::Side;
use crate::numeral;
use crate::numeral::u64_text;
use crate::text::{joined, same};

verus! {

/// Why a close is canceled.
#[derive(Clone, Copy, Debug, PartialEq, Eq, Structural)]
pub enum Why {
    /// Nothing is held any more.
    Flat,
    /// It is not the close that is wanted now.
    Stale,
    /// An entry claimed the market while the close was being posted.
    RollBack,
}

/// What the slot said when a cycle began.
#[derive(Debug)]
pub struct Snapshot {
    pub now_ns: i64,
    pub params: MarketParams,
    pub expiry_ns: i64,
    pub trade_id: String,
    pub hold_until_ns: i64,
    pub resting: Option<RestingClose>,
}

/// A snapshot, as the contracts see it.
pub struct SnapshotV {
    pub now_ns: i64,
    pub params: MarketParams,
    pub expiry_ns: i64,
    pub trade_id: Seq<char>,
    pub hold_until_ns: i64,
    pub resting: Option<RestV>,
}

impl View for Snapshot {
    type V = SnapshotV;

    open spec fn view(&self) -> SnapshotV {
        SnapshotV {
            now_ns: self.now_ns,
            params: self.params,
            expiry_ns: self.expiry_ns,
            trade_id: self.trade_id@,
            hold_until_ns: self.hold_until_ns,
            resting: slot::rest_view(self.resting),
        }
    }
}

/// What the reconciler waits for.
#[derive(Debug)]
pub enum Phase {
    /// The next cycle.
    Sleeping,
    /// The position.
    Polling(Snapshot),
    /// The answer to a cancel.
    Canceling(Why, RestingClose),
    /// The end of the pause before a fill count is read.
    Settling(Why, RestingClose),
    /// A fill count.
    Counting(Why, RestingClose),
    /// The id of a posted close.
    Posting { instrument: String, px: i64, count: i64 },
    /// Nothing: the market is flat.
    Parked,
}

/// A phase, as the contracts see it.
pub enum PhaseV {
    Sleeping,
    Polling(SnapshotV),
    Canceling(Why, RestV),
    Settling(Why, RestV),
    Counting(Why, RestV),
    Posting { instrument: Seq<char>, px: i64, count: i64 },
    Parked,
}

impl View for Phase {
    type V = PhaseV;

    open spec fn view(&self) -> PhaseV {
        match self {
            Phase::Sleeping => PhaseV::Sleeping,
            Phase::Polling(s) => PhaseV::Polling(s@),
            Phase::Canceling(w, r) => PhaseV::Canceling(*w, r@),
            Phase::Settling(w, r) => PhaseV::Settling(*w, r@),
            Phase::Counting(w, r) => PhaseV::Counting(*w, r@),
            Phase::Posting { instrument, px, count } => PhaseV::Posting {
                instrument: instrument@,
                px: *px,
                count: *count,
            },
            Phase::Parked => PhaseV::Parked,
        }
    }
}

/// What the venue answers to a cancel, as the reconciler sees it.
#[derive(Clone, Copy, Debug, PartialEq, Eq, Structural)]
pub enum CancelReply {
    /// Off the book; so much of the order was left.
    Canceled { reduced_by: i64 },
    /// It was no longer on the book.
    Gone,
    /// No answer: whether the order is on the book is not known.
    Failed,
}

/// What happens to the reconciler.
#[derive(Debug)]
pub enum ReconEvent {
    /// A cycle begins.
    Tick,
    /// The true position, above zero on the yes side; `None` where the poll failed.
    Position(Option<i64>),
    /// A cancel was answered.
    Cancel(CancelReply),
    /// The pause is over.
    Waited,
    /// How much of a terminal order filled, where that is known.
    FillCount(Option<i64>),
    /// A close was posted under this id; `None` where it was not.
    Posted(Option<String>),
}

/// What the reconciler wants done.
#[derive(Debug)]
pub enum ReconAction {
    Sleep,
    Poll,
    Cancel(String),
    Wait,
    CountFills(String),
    Post(OrderIntent),
    Stop,
}

/// An action, as the contracts see it.
pub enum ActionV {
    Sleep,
    Poll,
    Cancel(Seq<char>),
    Wait,
    CountFills(Seq<char>),
    Post(IntentV),
    Stop,
}

impl View for ReconAction {
    type V = ActionV;

    open spec fn view(&self) -> ActionV {
        match self {
            ReconAction::Sleep => ActionV::Sleep,
            ReconAction::Poll => ActionV::Poll,
            ReconAction::Cancel(id) => ActionV::Cancel(id@),
            ReconAction::Wait => ActionV::Wait,
            ReconAction::CountFills(id) => ActionV::CountFills(id@),
            ReconAction::Post(i) => ActionV::Post(i@),
            ReconAction::Stop => ActionV::Stop,
        }
    }
}

/// Everything that a step leads to.
#[verifier::ext_equal]
pub struct StepV {
    pub phase: PhaseV,
    pub seq: u64,
    pub slots: Map<Seq<char>, SlotV>,
    pub action: ActionV,
    /// A close fill that came to light.
    pub fill: Option<MatchV>,
}

/// The number after `n`; after the last one, the first.
pub open spec fn next_seq(n: u64) -> u64 {
    if n == u64::MAX {
        0
    } else {
        (n + 1) as u64
    }
}

/// Nothing more in this cycle.
pub open spec fn sleeps(seq: u64, slots: Map<Seq<char>, SlotV>) -> StepV {
    StepV { phase: PhaseV::Sleeping, seq, slots, action: ActionV::Sleep, fill: None }
}

/// The reconciler is done.
pub open spec fn stops(seq: u64, slots: Map<Seq<char>, SlotV>) -> StepV {
    StepV { phase: PhaseV::Parked, seq, slots, action: ActionV::Stop, fill: None }
}

/// A cancel is sent.
pub open spec fn cancels(why: Why, r: RestV, seq: u64, slots: Map<Seq<char>, SlotV>) -> StepV {
    StepV {
        phase: PhaseV::Canceling(why, r),
        seq,
        slots,
        action: ActionV::Cancel(r.order_id),
        fill: None,
    }
}

/// Whether the state of a market keeps the reconciler still.
pub open spec fn frozen(state: TradeState, now_ns: i64, rc: ReconCfg) -> bool {
    slot::in_flight(state, now_ns, rc) || slot::in_transit(state, now_ns, rc)
}

/// The state that the reconciler moves a market to when it is not frozen: what was in
/// flight or settling is steady.
pub open spec fn promoted(state: TradeState) -> TradeState {
    match state {
        TradeState::Submitted { .. } => TradeState::Rest,
        TradeState::Filled { .. } => TradeState::Rest,
        _ => state,
    }
}

/// A cycle begins.
pub open spec fn on_tick(
    mid: Seq<char>,
    rc: ReconCfg,
    seq: u64,
    slots: Map<Seq<char>, SlotV>,
    now_ns: i64,
) -> StepV {
    if !slots.contains_key(mid) {
        stops(seq, slots)
    } else {
        let s = slots[mid];
        if frozen(s.state, now_ns, rc) {
            sleeps(seq, slots)
        } else {
            StepV {
                phase: PhaseV::Polling(
                    SnapshotV {
                        now_ns,
                        params: s.params,
                        expiry_ns: s.expiry_ns,
                        trade_id: s.trade_id,
                        hold_until_ns: s.hold_until_ns,
                        resting: s.resting,
                    },
                ),
                seq,
                slots: slots.insert(mid, SlotV { state: promoted(s.state), ..s }),
                action: ActionV::Poll,
                fill: None,
            }
        }
    }
}

/// The market is parked where nothing rests there and no entry has claimed it.
pub open spec fn parks(mid: Seq<char>, seq: u64, slots: Map<Seq<char>, SlotV>) -> StepV {
    if slots.contains_key(mid) && slots[mid].resting is None && (slots[mid].state
        == TradeState::Rest || slots[mid].state == TradeState::Idle) {
        stops(
            seq,
            slots.insert(
                mid,
                SlotV { state: TradeState::Idle, reconciler_alive: false, ..slots[mid] },
            ),
        )
    } else {
        sleeps(seq, slots)
    }
}

/// Whole contracts in a size.
pub open spec fn whole(x: int) -> int {
    x / 1_000_000 * 1_000_000
}

/// What is held where the net position is `net`: the yes side or the no side.
pub open spec fn held_side(inst_yes: Seq<char>, net: i64) -> Seq<char> {
    if net > 0 {
        inst_yes
    } else {
        venue_spec::complement_text(inst_yes)
    }
}

/// The close that is posted.
pub open spec fn close_intent(
    snap: SnapshotV,
    instrument: Seq<char>,
    px: i64,
    count: i64,
    seq: u64,
) -> IntentV {
    IntentV {
        client_id: "close:"@ + snap.trade_id + ":"@ + numeral::dec(seq as nat),
        instrument,
        token_id: Seq::empty(),
        side: Side::Buy,
        price: px,
        size: count,
        kind: IntentKind::RestUntil { expiry_ns: snap.expiry_ns },
        params: snap.params,
        expiry_ns: snap.expiry_ns,
    }
}

/// What follows the position: a flat market is cleaned up and parked; a holding whose hold
/// is over wants a close, a buy of the complement at its best bid for the whole contracts
/// held. A close that rests already is left where it is the wanted one, and canceled
/// otherwise; where none rests, the wanted one is posted.
pub open spec fn on_position(
    mid: Seq<char>,
    snap: SnapshotV,
    seq: u64,
    before: Map<Seq<char>, SlotV>,
    m: MirrorView,
    net: i64,
) -> StepV {
    let slots = slot::changed(before, mid, SlotV { net_est: net, ..before[mid] });
    if fixed::magnitude(net as int) < EPS {
        match snap.resting {
            Some(r) => cancels(Why::Flat, r, seq, slots),
            None => parks(mid, seq, slots),
        }
    } else if snap.now_ns < snap.hold_until_ns {
        sleeps(seq, slots)
    } else if !slots.contains_key(mid) {
        stops(seq, slots)
    } else {
        let close = venue_spec::complement_text(held_side(slots[mid].inst_yes, net));
        let px = mirror::top_of(m.books[close]).best_bid;
        let count = whole(fixed::magnitude(net as int)) as i64;
        if !m.books.contains_key(close) || px <= 0 || count < 1_000_000 {
            sleeps(seq, slots)
        } else {
            match snap.resting {
                Some(r) => if r.instrument == close && r.px == px && r.count == count {
                    sleeps(seq, slots)
                } else {
                    cancels(Why::Stale, r, seq, slots)
                },
                None => if slots[mid].state == TradeState::Rest {
                    StepV {
                        phase: PhaseV::Posting { instrument: close, px, count },
                        seq: next_seq(seq),
                        slots,
                        action: ActionV::Post(close_intent(snap, close, px, count, next_seq(seq))),
                        fill: None,
                    }
                } else {
                    sleeps(seq, slots)
                },
            }
        }
    }
}

/// An order is confirmed off the book, with so much of it filled: the fill is accounted
/// for, and the reference is dropped.
pub open spec fn on_confirmed(
    mid: Seq<char>,
    why: Why,
    r: RestV,
    filled: i64,
    seq: u64,
    slots: Map<Seq<char>, SlotV>,
    now_ns: i64,
) -> StepV {
    let hit = filled > EPS;
    let n = if hit {
        next_seq(seq)
    } else {
        seq
    };
    let fill = if hit {
        Some(
            slot::close_fill(
                venue_spec::complement_text(r.instrument),
                r.order_id,
                n,
                filled,
                r.px,
                now_ns,
            ),
        )
    } else {
        None
    };
    let dropped = slot::changed(slots, mid, SlotV { resting: None, ..slots[mid] });
    let next = match why {
        Why::Flat => parks(mid, n, dropped),
        Why::Stale => sleeps(n, dropped),
        Why::RollBack => sleeps(n, slots),
    };
    StepV { fill, ..next }
}

/// A close was posted: the slot holds its reference, unless an entry claimed the market in
/// the meantime; it is rolled back.
pub open spec fn on_posted(
    mid: Seq<char>,
    placed: RestV,
    seq: u64,
    slots: Map<Seq<char>, SlotV>,
) -> StepV {
    if slots.contains_key(mid) && slots[mid].state == TradeState::Rest {
        sleeps(seq, slots.insert(mid, SlotV { resting: Some(placed), ..slots[mid] }))
    } else {
        cancels(Why::RollBack, placed, seq, slots)
    }
}

/// What an event leads to. An event that the phase does not wait for changes nothing.
pub open spec fn stepped(
    mid: Seq<char>,
    rc: ReconCfg,
    phase: PhaseV,
    seq: u64,
    slots: Map<Seq<char>, SlotV>,
    m: MirrorView,
    ev: ReconEvent,
    now_ns: i64,
) -> StepV {
    match (phase, ev) {
        (PhaseV::Sleeping, ReconEvent::Tick) => on_tick(mid, rc, seq, slots, now_ns),
        (PhaseV::Polling(snap), ReconEvent::Position(p)) => match p {
            None => sleeps(seq, slots),
            Some(net) => on_position(mid, snap, seq, slots, m, net),
        },
        (PhaseV::Canceling(why, r), ReconEvent::Cancel(reply)) => match reply {
            CancelReply::Canceled { reduced_by } => on_confirmed(
                mid,
                why,
                r,
                fixed::clamp64(fixed::larger(r.count - reduced_by, 0)) as i64,
                seq,
                slots,
                now_ns,
            ),
            CancelReply::Gone => StepV {
                phase: PhaseV::Settling(why, r),
                seq,
                slots,
                action: ActionV::Wait,
                fill: None,
            },
            CancelReply::Failed => sleeps(seq, slots),
        },
        (PhaseV::Settling(why, r), ReconEvent::Waited) => StepV {
            phase: PhaseV::Counting(why, r),
            seq,
            slots,
            action: ActionV::CountFills(r.order_id),
            fill: None,
        },
        (PhaseV::Counting(why, r), ReconEvent::FillCount(c)) => on_confirmed(
            mid,
            why,
            r,
            match c {
                Some(n) => fixed::smaller(n as int, r.count as int) as i64,
                None => 0,
            },
            seq,
            slots,
            now_ns,
        ),
        (PhaseV::Posting { instrument, px, count }, ReconEvent::Posted(id)) => match id {
            Some(id) => on_posted(
                mid,
                RestV { order_id: id@, instrument, px, count },
                seq,
                slots,
            ),
            None => sleeps(seq, slots),
        },
        _ => StepV { phase, seq, slots, action: ActionV::Sleep, fill: None },
    }
}

/// The exit reconciler of one market.
pub struct Reconciler {
    market_id: String,
    rc: ReconCfg,
    phase: Phase,
    close_seq: u64,
}

fn bump(n: u64) -> (r: u64)
    ensures
        r == next_seq(n),
{
    if n == u64::MAX {
        0
    } else {
        n + 1
    }
}

/// The view of a fill that may be missing.
pub open spec fn fill_view(f: Option<Fill>) -> Option<MatchV> {
    match f {
        Some(x) => Some(x@),
        None => None,
    }
}

impl Reconciler {
    /// The market.
    pub closed spec fn market(&self) -> Seq<char> {
        self.market_id@
    }

    /// The timing.
    pub closed spec fn timing(&self) -> ReconCfg {
        self.rc
    }

    /// What it waits for.
    pub closed spec fn phase_view(&self) -> PhaseV {
        self.phase@
    }

    /// The number of its last close.
    pub closed spec fn seq(&self) -> u64 {
        self.close_seq
    }

    /// A reconciler before its first cycle.
    pub fn new(market_id: &str, rc: ReconCfg) -> (r: Reconciler)
        ensures
            r.market() == market_id@,
            r.timing() == rc,
            r.phase_view() == PhaseV::Sleeping,
            r.seq() == 0,
    {
        Reconciler { market_id: market_id.to_string(), rc, phase: Phase::Sleeping, close_seq: 0 }
    }

    /// One step: takes an event, and says what is to be done next, with a close fill where
    /// one came to light.
    pub fn step(
        &mut self,
        slots: &mut Slots,
        mirror: &ExecBookMirror,
        ev: ReconEvent,
        now_ns: i64,
    ) -> (r: (ReconAction, Option<Fill>))
        ensures
            final(self).market() == old(self).market(),
            final(self).timing() == old(self).timing(),
            (StepV {
                phase: final(self).phase_view(),
                seq: final(self).seq(),
                slots: final(slots)@,
                action: r.0@,
                fill: fill_view(r.1),
            }) == stepped(
                old(self).market(),
                old(self).timing(),
                old(self).phase_view(),
                old(self).seq(),
                old(slots)@,
                mirror@,
                ev,
                now_ns,
            ),
    {
        let mut phase = Phase::Sleeping;
        std::mem::swap(&mut phase, &mut self.phase);
        match (phase, ev) {
            (Phase::Sleeping, ReconEvent::Tick) => (self.tick(slots, now_ns), None),
            (Phase::Polling(snap), ReconEvent::Position(p)) => match p {
                None => (ReconAction::Sleep, None),
                Some(net) => (self.position(slots, mirror, snap, net), None),
            },
            (Phase::Canceling(why, r), ReconEvent::Cancel(reply)) => match reply {
                CancelReply::Canceled { reduced_by } => {
                    let left: i128 = r.count as i128 - reduced_by as i128;
                    let filled: i64 = if left > 0 {
                        sat(left)
                    } else {
                        0
                    };
                    self.confirmed(slots, why, r, filled, now_ns)
                },
                CancelReply::Gone => {
                    self.phase = Phase::Settling(why, r);
                    (ReconAction::Wait, None)
                },
                CancelReply::Failed => (ReconAction::Sleep, None),
            },
            (Phase::Settling(why, r), ReconEvent::Waited) => {
                let id = r.order_id.clone();
                self.phase = Phase::Counting(why, r);
                (ReconAction::CountFills(id), None)
            },
            (Phase::Counting(why, r), ReconEvent::FillCount(c)) => {
                let filled: i64 = match c {
                    Some(n) => min64(n, r.count),
                    None => 0,
                };
                self.confirmed(slots, why, r, filled, now_ns)
            },
            (Phase::Posting { instrument, px, count }, ReconEvent::Posted(id)) => match id {
                Some(order_id) => (
                    self.posted(slots, RestingClose { order_id, instrument, px, count }),
                    None,
                ),
                None => (ReconAction::Sleep, None),
            },
            (phase, _) => {
                self.phase = phase;
                (ReconAction::Sleep, None)
            },
        }
    }

    fn tick(&mut self, slots: &mut Slots, now_ns: i64) -> (a: ReconAction)
        requires
            old(self).phase_view() == PhaseV::Sleeping,
        ensures
            final(self).market() == old(self).market(),
            final(self).timing() == old(self).timing(),
            (StepV {
                phase: final(self).phase_view(),
                seq: final(self).seq(),
                slots: final(slots)@,
                action: a@,
                fill: None,
            }) == on_tick(old(self).market(), old(self).timing(), old(self).seq(), old(slots)@, now_ns),
    {
        let found = match slots.get(self.market_id.as_str()) {
            Some(s) => Some(s.clone()),
            None => None,
        };
        match found {
            None => {
                self.phase = Phase::Parked;
                ReconAction::Stop
            },
            Some(mut s) => {
                if slot::entry_gate(s.state, now_ns, &self.rc).is_err() {
                    return ReconAction::Sleep;
                }
                match s.state {
                    TradeState::Submitted { .. } => {
                        s.state = TradeState::Rest;
                    },
                    TradeState::Filled { .. } => {
                        s.state = TradeState::Rest;
                    },
                    _ => {},
                }
                self.phase = Phase::Polling(
                    Snapshot {
                        now_ns,
                        params: s.params,
                        expiry_ns: s.expiry_ns,
                        trade_id: s.trade_id.clone(),
                        hold_until_ns: s.hold_until_ns,
                        resting: copy_resting(&s.resting),
                    },
                );
                slots.put(self.market_id.as_str(), s);
                ReconAction::Poll
            },
        }
    }

    fn park(&mut self, slots: &mut Slots) -> (a: ReconAction)
        requires
            old(self).phase_view() == PhaseV::Sleeping,
        ensures
            final(self).market() == old(self).market(),
            final(self).timing() == old(self).timing(),
            (StepV {
                phase: final(self).phase_view(),
                seq: final(self).seq(),
                slots: final(slots)@,
                action: a@,
                fill: None,
            }) == parks(old(self).market(), old(self).seq(), old(slots)@),
    {
        let found = match slots.get(self.market_id.as_str()) {
            Some(s) => Some(s.clone()),
            None => None,
        };
        if let Some(mut s) = found {
            if s.resting.is_none() && (s.state == TradeState::Rest || s.state == TradeState::Idle) {
                s.state = TradeState::Idle;
                s.reconciler_alive = false;
                slots.put(self.market_id.as_str(), s);
                self.phase = Phase::Parked;
                return ReconAction::Stop;
            }
        }
        ReconAction::Sleep
    }

    fn drop_reference(&self, slots: &mut Slots)
        ensures
            final(slots)@ == slot::changed(
                old(slots)@,
                self.market(),
                (SlotV { resting: None, ..old(slots)@[self.market()] }),
            ),
    {
        let found = match slots.get(self.market_id.as_str()) {
            Some(s) => Some(s.clone()),
            None => None,
        };
        if let Some(mut s) = found {
            s.resting = None;
            slots.put(self.market_id.as_str(), s);
        }
    }

    fn confirmed(&mut self, slots: &mut Slots, why: Why, r: RestingClose, filled: i64, now_ns: i64) -> (res: (
        ReconAction,
        Option<Fill>,
    ))
        requires
            old(self).phase_view() == PhaseV::Sleeping,
        ensures
            final(self).market() == old(self).market(),
            final(self).timing() == old(self).timing(),
            (StepV {
                phase: final(self).phase_view(),
                seq: final(self).seq(),
                slots: final(slots)@,
                action: res.0@,
                fill: fill_view(res.1),
            }) == on_confirmed(
                old(self).market(),
                why,
                r@,
                filled,
                old(self).seq(),
                old(slots)@,
                now_ns,
            ),
    {
        let fill: Option<Fill> = if filled > EPS {
            self.close_seq = bump(self.close_seq);
            let held = complement(r.instrument.as_str());
            Some(
                translated_close_fill(
                    held.as_str(),
                    r.order_id.as_str(),
                    self.close_seq,
                    filled,
                    r.px,
                    now_ns,
                ),
            )
        } else {
            None
        };
        match why {
            Why::Flat => {
                self.drop_reference(slots);
                let a = self.park(slots);
                (a, fill)
            },
            Why::Stale => {
                self.drop_reference(slots);
                (ReconAction::Sleep, fill)
            },
            Why::RollBack => (ReconAction::Sleep, fill),
        }
    }

    fn posted(&mut self, slots: &mut Slots, placed: RestingClose) -> (a: ReconAction)
        requires
            old(self).phase_view() == PhaseV::Sleeping,
        ensures
            final(self).market() == old(self).market(),
            final(self).timing() == old(self).timing(),
            (StepV {
                phase: final(self).phase_view(),
                seq: final(self).seq(),
                slots: final(slots)@,
                action: a@,
                fill: None,
            }) == on_posted(old(self).market(), placed@, old(self).seq(), old(slots)@),
    {
        let found = match slots.get(self.market_id.as_str()) {
            Some(s) => Some(s.clone()),
            None => None,
        };
        if let Some(mut s) = found {
            if s.state == TradeState::Rest {
                s.resting = Some(placed);
                slots.put(self.market_id.as_str(), s);
                return ReconAction::Sleep;
            }
        }
        let id = placed.order_id.clone();
        self.phase = Phase::Canceling(Why::RollBack, placed);
        ReconAction::Cancel(id)
    }

    fn position(&mut self, slots: &mut Slots, mirror: &ExecBookMirror, snap: Snapshot, net: i64) -> (a: ReconAction)
        requires
            old(self).phase_view() == PhaseV::Sleeping,
        ensures
            final(self).market() == old(self).market(),
            final(self).timing() == old(self).timing(),
            (StepV {
                phase: final(self).phase_view(),
                seq: final(self).seq(),
                slots: final(slots)@,
                action: a@,
                fill: None,
            }) == on_position(
                old(self).market(),
                snap@,
                old(self).seq(),
                old(slots)@,
                mirror@,
                net,
            ),
    {
        let found = match slots.get(self.market_id.as_str()) {
            Some(s) => Some(s.clone()),
            None => None,
        };
        let mut inst_yes: Option<String> = None;
        let mut steady: bool = false;
        if let Some(mut s) = found {
            s.net_est = net;
            inst_yes = Some(s.inst_yes.clone());
            steady = s.state == TradeState::Rest;
            slots.put(self.market_id.as_str(), s);
        }
        if abs64(net) < EPS as i128 {
            return match snap.resting {
                Some(r) => {
                    let id = r.order_id.clone();
                    self.phase = Phase::Canceling(Why::Flat, r);
                    ReconAction::Cancel(id)
                },
                None => self.park(slots),
            };
        }
        if snap.now_ns < snap.hold_until_ns {
            return ReconAction::Sleep;
        }
        let yes = match inst_yes {
            Some(y) => y,
            None => {
                self.phase = Phase::Parked;
                return ReconAction::Stop;
            },
        };
        let held = if net > 0 {
            yes
        } else {
            complement(yes.as_str())
        };
        let close = complement(held.as_str());
        let px: i64 = match mirror.top(close.as_str()) {
            Some(t) => t.best_bid,
            None => {
                return ReconAction::Sleep;
            },
        };
        let count: i64 = (abs64(net) / 1_000_000 * 1_000_000) as i64;
        if px <= 0 || count < 1_000_000 {
            return ReconAction::Sleep;
        }
        match snap.resting {
            Some(r) => {
                if same(r.instrument.as_str(), close.as_str()) && r.px == px && r.count == count {
                    return ReconAction::Sleep;
                }
                let id = r.order_id.clone();
                self.phase = Phase::Canceling(Why::Stale, r);
                ReconAction::Cancel(id)
            },
            None => {
                if !steady {
                    return ReconAction::Sleep;
                }
                self.close_seq = bump(self.close_seq);
                let head = joined("close:", snap.trade_id.as_str());
                let head2 = joined(head.as_str(), ":");
                let intent = OrderIntent {
                    client_id: joined(head2.as_str(), u64_text(self.close_seq).as_str()),
                    instrument: close.clone(),
                    token_id: String::new(),
                    side: Side::Buy,
                    price: px,
                    size: count,
                    kind: IntentKind::RestUntil { expiry_ns: snap.expiry_ns },
                    params: snap.params,
                    expiry_ns: snap.expiry_ns,
                };
                assert(intent@.token_id =~= Seq::<char>::empty());
                self.phase = Phase::Posting { instrument: close, px, count };
                ReconAction::Post(intent)
            },
        }
    }
}

/// The close that a phase is about to cancel, or has sent a cancel for, because the slot
/// knows it.
pub open spec fn canceled_from_slot(phase: PhaseV) -> Option<RestV> {
    match phase {
        PhaseV::Canceling(why, r) | PhaseV::Settling(why, r) | PhaseV::Counting(
            why,
            r,
        ) => if why == Why::RollBack {
            None
        } else {
            Some(r)
        },
        PhaseV::Polling(snap) => snap.resting,
        _ => None,
    }
}

/// Whether the slot knows no close but the one that the reconciler is dealing with.
pub open spec fn coherent(phase: PhaseV, s: SlotV) -> bool {
    s.resting is Some ==> match phase {
        PhaseV::Sleeping => true,
        PhaseV::Parked => false,
        PhaseV::Posting { .. } => false,
        _ => canceled_from_slot(phase) == s.resting,
    }
}

/// Whether an event says that the order which the phase deals with is off the book.
pub open spec fn confirms(phase: PhaseV, ev: ReconEvent) -> bool {
    match (phase, ev) {
        (PhaseV::Canceling(_, _), ReconEvent::Cancel(reply)) => reply is Canceled,
        (PhaseV::Counting(_, _), ReconEvent::FillCount(_)) => true,
        _ => false,
    }
}

/// A reference to a resting close is dropped only once the venue has confirmed that very
/// order off the book: in a step that drops it, the phase was canceling it and the event
/// confirmed the cancel. The reconciler also keeps the slot to the one close it deals with.
pub proof fn law_references_are_dropped_only_when_confirmed(
    mid: Seq<char>,
    rc: ReconCfg,
    phase: PhaseV,
    seq: u64,
    slots: Map<Seq<char>, SlotV>,
    m: MirrorView,
    ev: ReconEvent,
    now_ns: i64,
)
    requires
        slots.contains_key(mid),
        coherent(phase, slots[mid]),
    ensures
        ({
            let t = stepped(mid, rc, phase, seq, slots, m, ev, now_ns);
            &&& t.slots.contains_key(mid)
            &&& t.phase != PhaseV::Parked ==> coherent(t.phase, t.slots[mid])
            &&& t.phase == PhaseV::Parked && phase != PhaseV::Parked ==> t.slots[mid].resting is None
            &&& slots[mid].resting is Some && t.slots[mid].resting != slots[mid].resting ==> {
                &&& t.slots[mid].resting is None
                &&& canceled_from_slot(phase) == slots[mid].resting
                &&& confirms(phase, ev)
            }
        }),
{
}

/// A posted close is never lost by the reconciler: after the answer, either the slot knows
/// it, or a cancel for it is on its way.
pub proof fn law_posted_closes_are_tracked(
    mid: Seq<char>,
    rc: ReconCfg,
    instrument: Seq<char>,
    px: i64,
    count: i64,
    seq: u64,
    slots: Map<Seq<char>, SlotV>,
    m: MirrorView,
    id: String,
    now_ns: i64,
)
    ensures
        ({
            let r = RestV { order_id: id@, instrument, px, count };
            let t = stepped(
                mid,
                rc,
                PhaseV::Posting { instrument, px, count },
                seq,
                slots,
                m,
                ReconEvent::Posted(Some(id)),
                now_ns,
            );
            ||| t.slots.contains_key(mid) && t.slots[mid].resting == Some(r)
            ||| t.phase == PhaseV::Canceling(Why::RollBack, r) && t.action == ActionV::Cancel(id@)
        }),
{
}

/// A close cannot oversell: whatever is posted is a resting buy of the complement of what
/// the venue says is held, for no more than that, in whole contracts, after the hold, and
/// only while no other close is known and no entry has claimed the market.
pub proof fn law_closes_never_oversell(
    mid: Seq<char>,
    rc: ReconCfg,
    phase: PhaseV,
    seq: u64,
    slots: Map<Seq<char>, SlotV>,
    m: MirrorView,
    ev: ReconEvent,
    now_ns: i64,
    i: IntentV,
)
    requires
        stepped(mid, rc, phase, seq, slots, m, ev, now_ns).action == ActionV::Post(i),
    ensures
        phase is Polling,
        ev is Position && ev->Position_0 is Some,
        ({
            let net = ev->Position_0->0;
            &&& i.side == Side::Buy
            &&& i.kind is RestUntil
            &&& i.instrument == venue_spec::complement_text(
                held_side(slots[mid].inst_yes, net),
            )
            &&& 1_000_000 <= i.size <= fixed::magnitude(net as int)
            &&& i.size % 1_000_000 == 0
            &&& phase->Polling_0.resting is None
            &&& phase->Polling_0.now_ns >= phase->Polling_0.hold_until_ns
            &&& slots[mid].state == TradeState::Rest
        }),
{
}

/// While an entry is in flight or its fill settles, a cycle does nothing at all.
pub proof fn law_frozen_markets_are_left_alone(
    mid: Seq<char>,
    rc: ReconCfg,
    seq: u64,
    slots: Map<Seq<char>, SlotV>,
    m: MirrorView,
    now_ns: i64,
)
    requires
        slots.contains_key(mid),
        frozen(slots[mid].state, now_ns, rc),
    ensures
        stepped(mid, rc, PhaseV::Sleeping, seq, slots, m, ReconEvent::Tick, now_ns) == sleeps(
            seq,
            slots,
        ),
{
}

/// A canceled close is followed by a new cycle, and so by a new poll, before anything is
/// posted: no confirmation leads to a post.
pub proof fn law_cancel_is_followed_by_a_poll(
    mid: Seq<char>,
    rc: ReconCfg,
    phase: PhaseV,
    seq: u64,
    slots: Map<Seq<char>, SlotV>,
    m: MirrorView,
    ev: ReconEvent,
    now_ns: i64,
)
    requires
        confirms(phase, ev),
    ensures
        ({
            let t = stepped(mid, rc, phase, seq, slots, m, ev, now_ns);
            t.phase == PhaseV::Sleeping || t.phase == PhaseV::Parked
        }),
{
}

proof fn lemma_complement_twice(s: Seq<char>)
    ensures
        venue_spec::complement_text(venue_spec::complement_text(s)) == s,
{
    if venue_spec::is_outcome(s) {
        venue_spec::law_complement_is_an_involution(s);
    }
}

/// A posted close works against the holding: where the poll finds the yes side held (a net
/// above zero), it buys the other outcome; where it finds the no side held (below zero), it
/// buys the yes side itself. So a fill of it moves the net holding toward zero, and not past
/// it. It bids what the best bid of that outcome is, for all the whole contracts held, until
/// the market's end.
pub proof fn law_closes_net_the_holding(
    mid: Seq<char>,
    rc: ReconCfg,
    phase: PhaseV,
    seq: u64,
    slots: Map<Seq<char>, SlotV>,
    m: MirrorView,
    ev: ReconEvent,
    now_ns: i64,
    i: IntentV,
    net: i64,
    qty: int,
)
    requires
        stepped(mid, rc, phase, seq, slots, m, ev, now_ns).action == ActionV::Post(i),
        ev == ReconEvent::Position(Some(net)),
        0 < qty <= i.size,
    ensures
        net != 0,
        net < 0 ==> i.instrument == slots[mid].inst_yes,
        net > 0 ==> i.instrument == venue_spec::complement_text(slots[mid].inst_yes),
        i.side == Side::Buy,
        net > 0 ==> 0 <= slot::net_after(net as int, false, qty) < net,
        net < 0 ==> net < slot::net_after(net as int, true, qty) <= 0,
        net > 0 ==> i.size <= net < i.size + 1_000_000,
        net < 0 ==> i.size <= -net < i.size + 1_000_000,
        m.books.contains_key(i.instrument),
        i.price == mirror::top_of(m.books[i.instrument]).best_bid,
        i.price > 0,
        phase matches PhaseV::Polling(snap) && i.kind == (IntentKind::RestUntil {
            expiry_ns: snap.expiry_ns,
        }),
{
    lemma_complement_twice(slots[mid].inst_yes);
}

/// What a poll leads to, where the market has its slot. Nothing held and nothing resting:
/// the market is parked, if no entry has claimed it. Nothing held but a close resting: that
/// close is canceled. Something held before its hold is over: nothing. After it, with a bid
/// for the closing outcome and a whole contract held: the close is posted where none rests
/// and the market is at rest; one that rests is left alone exactly where it is for that
/// outcome, price and count, and canceled otherwise. Whatever it leads to, the slot knows
/// the polled holding.
pub proof fn law_what_a_poll_leads_to(
    mid: Seq<char>,
    rc: ReconCfg,
    snap: SnapshotV,
    seq: u64,
    slots: Map<Seq<char>, SlotV>,
    m: MirrorView,
    net: i64,
    now_ns: i64,
)
    requires
        slots.contains_key(mid),
    ensures
        ({
            let t = stepped(
                mid,
                rc,
                PhaseV::Polling(snap),
                seq,
                slots,
                m,
                ReconEvent::Position(Some(net)),
                now_ns,
            );
            let size = if net < 0 {
                -net
            } else {
                net as int
            };
            let close = if net < 0 {
                slots[mid].inst_yes
            } else {
                venue_spec::complement_text(slots[mid].inst_yes)
            };
            let bid = mirror::top_of(m.books[close]).best_bid;
            let open = size >= 1_000_000 && snap.now_ns >= snap.hold_until_ns
                && m.books.contains_key(close) && bid > 0;
            &&& t.fill is None
            &&& t.slots.contains_key(mid) && t.slots[mid].net_est == net
            &&& net == 0 ==> match snap.resting {
                Some(r) => t.action == ActionV::Cancel(r.order_id) && t.slots[mid].resting
                    == slots[mid].resting,
                None => t.action == (if slots[mid].resting is None && (slots[mid].state
                    == TradeState::Rest || slots[mid].state == TradeState::Idle) {
                    ActionV::Stop
                } else {
                    ActionV::Sleep
                }),
            }
            &&& net != 0 && !open && size >= 1_000_000 ==> t.action == ActionV::Sleep
            &&& open ==> match snap.resting {
                None => if slots[mid].state == TradeState::Rest {
                    t.action is Post
                } else {
                    t.action == ActionV::Sleep
                },
                Some(r) => if r.instrument == close && r.px == bid && r.count <= size < r.count
                    + 1_000_000 && r.count % 1_000_000 == 0 {
                    t.action == ActionV::Sleep
                } else {
                    t.action == ActionV::Cancel(r.order_id)
                },
            }
        }),
{
    lemma_complement_twice(slots[mid].inst_yes);
}

/// A cycle polls exactly where no entry is in flight and no fill settles; the market is then
/// steady, and what the slot said is kept for the answer.
pub proof fn law_cycles_poll_steady_markets(
    mid: Seq<char>,
    rc: ReconCfg,
    seq: u64,
    slots: Map<Seq<char>, SlotV>,
    m: MirrorView,
    now_ns: i64,
)
    ensures
        ({
            let t = stepped(mid, rc, PhaseV::Sleeping, seq, slots, m, ReconEvent::Tick, now_ns);
            let s = slots[mid];
            let still = match s.state {
                TradeState::Submitted { since_ns } => now_ns - since_ns <= rc.submitted_timeout_ns,
                TradeState::Filled { fill_ns } => now_ns - fill_ns < rc.transit_ns,
                _ => false,
            };
            &&& !slots.contains_key(mid) ==> t.action == ActionV::Stop
            &&& slots.contains_key(mid) && still ==> t.action == ActionV::Sleep && t.slots == slots
            &&& slots.contains_key(mid) && !still ==> {
                &&& t.action == ActionV::Poll
                &&& t.phase matches PhaseV::Polling(snap) && snap.now_ns == now_ns && snap.resting
                    == s.resting && snap.hold_until_ns == s.hold_until_ns && snap.expiry_ns
                    == s.expiry_ns && snap.trade_id == s.trade_id
                &&& t.slots[mid].state == (if s.state == TradeState::Idle {
                    TradeState::Idle
                } else {
                    TradeState::Rest
                })
                &&& t.slots[mid].net_est == s.net_est && t.slots[mid].resting == s.resting
            }
        }),
{
}

/// What a close that is off the book turned out to have filled is sold out of the held side:
/// the other outcome than the one that was bid for, as much as the order had less what was
/// left of it, at one less the bid, for no fee; and the slot lets go of the order.
pub proof fn law_canceled_closes_are_accounted(
    mid: Seq<char>,
    rc: ReconCfg,
    why: Why,
    r: RestV,
    seq: u64,
    slots: Map<Seq<char>, SlotV>,
    m: MirrorView,
    reduced_by: i64,
    now_ns: i64,
)
    requires
        slots.contains_key(mid),
        0 <= reduced_by <= r.count,
        0 <= r.px <= 1_000_000,
    ensures
        ({
            let t = stepped(
                mid,
                rc,
                PhaseV::Canceling(why, r),
                seq,
                slots,
                m,
                ReconEvent::Cancel(CancelReply::Canceled { reduced_by }),
                now_ns,
            );
            &&& r.count - reduced_by > EPS <==> t.fill is Some
            &&& t.fill matches Some(f) ==> {
                &&& f.instrument == venue_spec::complement_text(r.instrument)
                &&& f.side == Side::Sell
                &&& f.qty == r.count - reduced_by
                &&& f.px == 1_000_000 - r.px
                &&& f.fee == 0
                &&& f.order_id == r.order_id
            }
            &&& why != Why::RollBack ==> t.slots[mid].resting is None
        }),
{
}

/// Where an order is gone, what it filled is counted at the venue, and never more is booked
/// than it was for; what is not known is not booked.
pub proof fn law_gone_closes_are_counted(
    mid: Seq<char>,
    rc: ReconCfg,
    why: Why,
    r: RestV,
    seq: u64,
    slots: Map<Seq<char>, SlotV>,
    m: MirrorView,
    n: Option<i64>,
    now_ns: i64,
)
    requires
        slots.contains_key(mid),
    ensures
        stepped(
            mid,
            rc,
            PhaseV::Canceling(why, r),
            seq,
            slots,
            m,
            ReconEvent::Cancel(CancelReply::Gone),
            now_ns,
        ).action == ActionV::Wait,
        stepped(
            mid,
            rc,
            PhaseV::Settling(why, r),
            seq,
            slots,
            m,
            ReconEvent::Waited,
            now_ns,
        ).action == ActionV::CountFills(r.order_id),
        ({
            let t = stepped(
                mid,
                rc,
                PhaseV::Counting(why, r),
                seq,
                slots,
                m,
                ReconEvent::FillCount(n),
                now_ns,
            );
            &&& n is None ==> t.fill is None
            &&& n matches Some(k) ==> {
                &&& (k > EPS && r.count > EPS) <==> t.fill is Some
                &&& t.fill matches Some(f) ==> f.qty == (if k < r.count {
                    k
                } else {
                    r.count
                }) && f.instrument == venue_spec::complement_text(r.instrument) && f.side
                    == Side::Sell
            }
        }),
{
}

/// The numbers of closes go up by one.
pub proof fn law_closes_are_numbered_in_turn(n: u64)
    requires
        n < u64::MAX,
    ensures
        next_seq(n) == n + 1,
{
}

} // verus!
