//! The trade engine: one trade at a time from a signal to its end. It is a machine from an
//! event to the next action; everything it says on the way comes out as a list.
use vstd::prelude::*;
use crate::executor::config::{ExecutorCfg, EntryCfg, ExitCfg};
use crate::executor::mirror;
use crate::executor::mirror::ExecBookMirror;
use crate::executor::mirror::MirrorView;
use crate::executor::plan;
use crate::executor::plan::{make_plan, trade_id, Reject};
use crate::executor::position;
use crate::executor::position::{FillError, PosStatus, PositionManager};
use crate::executor::position::{PmState, SnapV};
use crate::executor::reconciler::CancelReply;
use crate::executor::risk;
use crate::executor::risk::RiskGate;
use crate::executor::sampler::{HoldProbe, MakerProbe, PxProbe};
use crate::executor::slot;
use crate::executor::slot::{
    clamp_liquidation,
    recon_cfg,
    translated_close_fill,
    EntryClaim,
    ReconCfg,
    RestingClose,
    Slots,
};
use crate::executor::slot::{RestV, SlotV};
use crate::executor::types::{Fill, IntentKind, OrderIntent, TradePlan, VenueOutcome, EPS};
use crate::executor::types::{IntentV, MatchV};
use crate::executor::venue_spec;
use crate::executor::venue_spec::{complement, market_id_of, traded_instrument, yes_side_of};
use crate::fixed;
use crate::fixed::{max64, min64, product, sat, sum128};
use crate::model::{LegSummary, MarketStatus, PositionSnapshot, Side, TradeOutcome, TradeRecord, TradeSignal};
use crate::numeral;
use crate::numeral::u64_text;
use crate::ring;
use crate::text;
use crate::text::{joined, same, starts_with};

verus! {

/// What happened to a trade, an order or a position.
#[derive(Debug)]
pub enum Note {
    Rejected(Reject),
    Entering { size: i64 },
    /// A dry run: no order.
    Shadow,
    TtlElapsed,
    RanAway,
    VenueReject(String),
    Abandoned,
    Holding { leg: LegSummary },
    Exiting,
    ExitFillError(FillError),
    Closed { leg: LegSummary },
    Pending { qty: i64 },
    Halt(FillError),
    LiquidationSkip { qty: i64, px: i64 },
    Liquidated { qty: i64, px: i64 },
    LiquidationHalt(FillError),
    CloseSkip,
    CloseFill { qty: i64, px: i64, held: i64 },
    CloseFlat { realized: i128 },
    CloseHalt(FillError),
    Settled,
    /// A settlement of which an amount could not be held.
    SettleHalt,
}

impl Note {
    /// The state that a note reports.
    pub open spec fn state_spec(self) -> Seq<char> {
        match self {
            Note::Rejected(_) => "Rejected"@,
            Note::Entering { .. } | Note::TtlElapsed | Note::RanAway => "Entering"@,
            Note::Shadow => "Shadow"@,
            Note::VenueReject(_) | Note::ExitFillError(_) => "Reject"@,
            Note::Abandoned => "Abandoned"@,
            Note::Holding { .. } => "Holding"@,
            Note::Exiting | Note::CloseFill { .. } => "Exiting"@,
            Note::Closed { .. } | Note::CloseFlat { .. } => "Closed"@,
            Note::Pending { .. } => "PendingResolution"@,
            Note::Halt(_) | Note::LiquidationHalt(_) | Note::CloseHalt(_) | Note::SettleHalt
                => "Halt"@,
            Note::LiquidationSkip { .. } | Note::CloseSkip => "Skip"@,
            Note::Liquidated { .. } => "Liquidated"@,
            Note::Settled => "Settled"@,
        }
    }

    /// The state that a note reports.
    pub fn state(&self) -> (r: &'static str)
        ensures
            r@ == self.state_spec(),
    {
        match self {
            Note::Rejected(_) => "Rejected",
            Note::Entering { .. } | Note::TtlElapsed | Note::RanAway => "Entering",
            Note::Shadow => "Shadow",
            Note::VenueReject(_) | Note::ExitFillError(_) => "Reject",
            Note::Abandoned => "Abandoned",
            Note::Holding { .. } => "Holding",
            Note::Exiting | Note::CloseFill { .. } => "Exiting",
            Note::Closed { .. } | Note::CloseFlat { .. } => "Closed",
            Note::Pending { .. } => "PendingResolution",
            Note::Halt(_) | Note::LiquidationHalt(_) | Note::CloseHalt(_) | Note::SettleHalt
                => "Halt",
            Note::LiquidationSkip { .. } | Note::CloseSkip => "Skip",
            Note::Liquidated { .. } => "Liquidated",
            Note::Settled => "Settled",
        }
    }
}

/// One thing that the engine says.
#[derive(Debug)]
pub enum Out {
    Report { trade_id: String, instrument: String, note: Note },
    Position(PositionSnapshot),
    Trade(TradeRecord),
    Price(PxProbe),
    Hold(HoldProbe),
    Maker(MakerProbe),
    /// A reconciler has to be started for this market.
    Spawn(String),
}

/// One thing that the engine says, as the contracts see it.
pub enum OutV {
    Report(Seq<char>, Seq<char>, Note),
    Position(SnapV),
    Trade(TradeRecord),
    Price(PxProbe),
    Hold(HoldProbe),
    Maker(MakerProbe),
    Spawn(Seq<char>),
}

impl View for Out {
    type V = OutV;

    open spec fn view(&self) -> OutV {
        match self {
            Out::Report { trade_id, instrument, note } => OutV::Report(
                trade_id@,
                instrument@,
                *note,
            ),
            Out::Position(s) => OutV::Position(s@),
            Out::Trade(t) => OutV::Trade(*t),
            Out::Price(p) => OutV::Price(*p),
            Out::Hold(p) => OutV::Hold(*p),
            Out::Maker(p) => OutV::Maker(*p),
            Out::Spawn(m) => OutV::Spawn(m@),
        }
    }
}

/// The views of what was said.
pub open spec fn out_views(s: Seq<Out>) -> Seq<OutV> {
    Seq::new(s.len(), |i: int| s[i]@)
}

/// An entry under way.
#[derive(Debug)]
pub struct Chase {
    pub plan: TradePlan,
    /// Whether the exit is the reconciler's.
    pub decoupled: bool,
    pub entry: LegSummary,
    pub attempt: u32,
}

/// An exit under way.
#[derive(Debug)]
pub struct ExitRun {
    pub plan: TradePlan,
    pub entry: LegSummary,
    pub exit: LegSummary,
    /// The bid that the exit is measured against.
    pub ref_bid: i64,
    pub k: u32,
}

/// What the engine waits for.
#[derive(Debug)]
pub enum Stage {
    /// A signal.
    Ready,
    /// The answer to the cancel of a resting close, before an entry.
    Clearing { plan: TradePlan, resting: RestingClose, since_ns: i64 },
    /// The venue's answer to an entry order.
    Entering(Chase),
    /// The end of the pause before another entry order.
    EntryPause(Chase),
    /// The end of the hold.
    Holding { plan: TradePlan, entry: LegSummary },
    /// The venue's answer to an exit order.
    Exiting(ExitRun),
    /// The end of the pause before another exit order.
    ExitPause(ExitRun),
}

/// A stage, as the contracts see it.
pub enum StageV {
    Ready,
    Clearing { plan: TradePlan, resting: RestV, since_ns: i64 },
    Entering(Chase),
    EntryPause(Chase),
    Holding { plan: TradePlan, entry: LegSummary },
    Exiting(ExitRun),
    ExitPause(ExitRun),
}

impl View for Stage {
    type V = StageV;

    open spec fn view(&self) -> StageV {
        match self {
            Stage::Ready => StageV::Ready,
            Stage::Clearing { plan, resting, since_ns } => StageV::Clearing {
                plan: *plan,
                resting: resting@,
                since_ns: *since_ns,
            },
            Stage::Entering(c) => StageV::Entering(*c),
            Stage::EntryPause(c) => StageV::EntryPause(*c),
            Stage::Holding { plan, entry } => StageV::Holding { plan: *plan, entry: *entry },
            Stage::Exiting(x) => StageV::Exiting(*x),
            Stage::ExitPause(x) => StageV::ExitPause(*x),
        }
    }
}

/// What the engine wants done.
#[derive(Debug)]
pub enum Action {
    /// Nothing: the trade is over.
    Done,
    Cancel(String),
    Submit(OrderIntent),
    Sleep { ms: u64 },
    SleepUntil { ns: i64 },
}

/// An action, as the contracts see it.
pub enum EngineActionV {
    Done,
    Cancel(Seq<char>),
    Submit(IntentV),
    Sleep { ms: u64 },
    SleepUntil { ns: i64 },
}

impl View for Action {
    type V = EngineActionV;

    open spec fn view(&self) -> EngineActionV {
        match self {
            Action::Done => EngineActionV::Done,
            Action::Cancel(id) => EngineActionV::Cancel(id@),
            Action::Submit(i) => EngineActionV::Submit(i@),
            Action::Sleep { ms } => EngineActionV::Sleep { ms: *ms },
            Action::SleepUntil { ns } => EngineActionV::SleepUntil { ns: *ns },
        }
    }
}

/// All that a trade touches.
pub struct World {
    pub pm: PmState,
    pub killed: bool,
    pub starts: Seq<(i64, ())>,
    pub slots: Map<Seq<char>, SlotV>,
    pub outs: Seq<OutV>,
}

/// Where a step leads.
pub struct Next {
    pub w: World,
    pub stage: StageV,
    pub action: EngineActionV,
}

/// A report is made.
pub open spec fn said(w: World, id: Seq<char>, inst: Seq<char>, note: Note) -> World {
    World { outs: w.outs.push(OutV::Report(id, inst, note)), ..w }
}

/// A report on a plan is made.
pub open spec fn told(w: World, p: TradePlan, note: Note) -> World {
    said(w, p.trade_id@, p.instrument@, note)
}

/// A position is published, where there is one.
pub open spec fn shown(w: World, inst: Seq<char>) -> World {
    match position::snapshot_of(w.pm, inst) {
        Some(s) => World { outs: w.outs.push(OutV::Position(s)), ..w },
        None => w,
    }
}

/// The trade slot is freed.
pub open spec fn ended(w: World, now_ns: i64, cooldown_ms: u64) -> World {
    World { pm: position::ended(w.pm, now_ns, cooldown_ms), ..w }
}

/// The trade is over.
pub open spec fn done(w: World) -> Next {
    Next { w, stage: StageV::Ready, action: EngineActionV::Done }
}

/// A close fill is booked: cut to what is held, and reported; one that the books refuse
/// turns the kill switch on.
pub open spec fn close_booked(w: World, f: Fill) -> World {
    let inst = f.instrument@;
    let id = "close"@;
    match slot::clamped(position::held(w.pm, inst) as i64, f) {
        None => said(w, id, inst, Note::CloseSkip),
        Some(c) => match position::fill_outcome(w.pm, c) {
            Some(e) => said(
                World { pm: position::refused(w.pm, c), killed: true, ..w },
                id,
                inst,
                Note::CloseHalt(e),
            ),
            None => {
                let pm = position::filled(w.pm, c);
                let held = position::held(pm, inst) as i64;
                let a = said(
                    World { pm, ..w },
                    id,
                    inst,
                    Note::CloseFill { qty: c.qty, px: c.px, held },
                );
                let b = if held <= EPS {
                    said(
                        a,
                        id,
                        inst,
                        Note::CloseFlat { realized: realized_of(pm, inst) },
                    )
                } else {
                    a
                };
                shown(b, inst)
            },
        },
    }
}

/// The realized profit on an instrument.
pub open spec fn realized_of(pm: PmState, inst: Seq<char>) -> i128 {
    if pm.positions.contains_key(inst) {
        pm.positions[inst].realized_pnl
    } else {
        0
    }
}

/// A liquidation fill is booked: cut to what is held, reported, and the position settled.
pub open spec fn liquidation_booked(w: World, f: Fill) -> World {
    let inst = f.instrument@;
    let id = "liquidation"@;
    match slot::clamped(position::held(w.pm, inst) as i64, f) {
        None => said(w, id, inst, Note::LiquidationSkip { qty: f.qty, px: f.px }),
        Some(c) => match position::fill_outcome(w.pm, c) {
            Some(e) => said(
                World { pm: position::refused(w.pm, c), killed: true, ..w },
                id,
                inst,
                Note::LiquidationHalt(e),
            ),
            None => {
                let a = said(
                    World { pm: position::filled(w.pm, c), ..w },
                    id,
                    inst,
                    Note::Liquidated { qty: c.qty, px: c.px },
                );
                shown(
                    World { pm: position::with_status(a.pm, inst, PosStatus::Settled), ..a },
                    inst,
                )
            },
        },
    }
}

/// One outcome of a resolved market is settled, where it is held.
pub open spec fn one_settled(
    w: World,
    inst: Seq<char>,
    winner: Seq<char>,
    now_ns: i64,
    cooldown_ms: u64,
) -> World {
    if position::held(w.pm, inst) <= EPS {
        w
    } else if !position::settle_fits(w.pm, inst, winner) {
        said(w, "settlement"@, inst, Note::SettleHalt)
    } else {
        let a = said(
            World { pm: position::settled(w.pm, inst, winner), ..w },
            "settlement"@,
            inst,
            Note::Settled,
        );
        ended(shown(a, inst), now_ns, cooldown_ms)
    }
}

/// A resolved market is settled: both of its outcomes.
pub open spec fn market_settled(
    w: World,
    inst: Seq<char>,
    winner: Seq<char>,
    now_ns: i64,
    cooldown_ms: u64,
) -> World {
    one_settled(
        one_settled(w, inst, winner, now_ns, cooldown_ms),
        venue_spec::traded_text(inst, -1i8),
        winner,
        now_ns,
        cooldown_ms,
    )
}

/// A leg with one more fill.
pub open spec fn leg_with(leg: LegSummary, f: Fill) -> LegSummary {
    LegSummary {
        qty: fixed::clamp64(leg.qty + f.qty) as i64,
        notional: fixed::clamp128(leg.notional + f.qty * f.px) as i128,
        fees: fixed::clamp64(leg.fees + f.fee) as i64,
        n_fills: if leg.n_fills == u32::MAX {
            u32::MAX
        } else {
            (leg.n_fills + 1) as u32
        },
        first_ts_ns: if leg.first_ts_ns == 0 {
            f.ts_ns
        } else {
            leg.first_ts_ns
        },
        last_ts_ns: f.ts_ns,
    }
}

/// The books and a leg after a run of fills: each in turn, up to the first that the books
/// refuse.
pub open spec fn ingested(pm: PmState, leg: LegSummary, fills: Seq<Fill>) -> (
    PmState,
    LegSummary,
    Option<FillError>,
)
    decreases fills.len(),
{
    if fills.len() == 0 {
        (pm, leg, None)
    } else {
        let (p, l, e) = ingested(pm, leg, fills.drop_last());
        let f = fills.last();
        match e {
            Some(_) => (p, l, e),
            None => match position::fill_outcome(p, f) {
                Some(x) => (position::refused(p, f), l, Some(x)),
                None => (position::filled(p, f), leg_with(l, f), None),
            },
        }
    }
}

/// The record of a round trip.
pub open spec fn record_of(
    p: TradePlan,
    outcome: TradeOutcome,
    entry: LegSummary,
    exit: LegSummary,
    hold_actual_ms: u64,
    exit_ref_bid: i64,
) -> TradeRecord {
    TradeRecord {
        trade_id: p.trade_id,
        outcome,
        direction: p.direction,
        instrument: p.instrument,
        signal_ts_ns: p.signal_ts_ns,
        trigger: p.trigger,
        entry,
        exit,
        hold_actual_ms,
        pnl_gross: gross_of(entry, exit) as i128,
        pnl_net: fixed::clamp128(
            gross_of(entry, exit) - (entry.fees + exit.fees) * 1_000_000,
        ) as i128,
        slippage_entry: fixed::clamp64(entry.vwap_spec() - p.signal_ask) as i64,
        slippage_exit: if exit.qty > 0 {
            fixed::clamp64(exit_ref_bid - exit.vwap_spec()) as i64
        } else {
            0
        },
        lat_signal_to_submit_ns: fixed::clamp64(
            fixed::larger(entry.first_ts_ns as int, p.signal_ts_ns as int) - p.signal_ts_ns,
        ) as i64,
    }
}

/// What an exit brought in over what the entry cost.
pub open spec fn gross_of(entry: LegSummary, exit: LegSummary) -> int {
    fixed::clamp128(fixed::clamp128(exit.notional as int) - fixed::clamp128(entry.notional as int))
}

/// One order of a plan.
pub open spec fn intent_of(
    p: TradePlan,
    leg: Seq<char>,
    attempt: u32,
    side: Side,
    price: i64,
    size: i64,
) -> IntentV {
    IntentV {
        client_id: p.trade_id@ + ":"@ + leg + ":"@ + numeral::dec(attempt as nat),
        instrument: p.instrument@,
        token_id: p.token_id@,
        side,
        price,
        size,
        kind: IntentKind::TakeNow,
        params: p.params,
        expiry_ns: p.expiry_ns,
    }
}

/// The book of the instrument of a plan.
pub open spec fn has_book(m: MirrorView, inst: Seq<char>) -> bool {
    m.books.contains_key(inst)
}

/// The market of a plan.
pub open spec fn market_of(p: TradePlan) -> Seq<char> {
    venue_spec::market_id_text(p.instrument@)->0
}

/// Whether a plan buys the yes side.
pub open spec fn plan_yes(p: TradePlan) -> bool {
    p.instrument@ == venue_spec::yes_text(p.instrument@)
}

/// A claim on a market is released without a fill.
pub open spec fn unclaimed(w: World, p: TradePlan, decoupled: bool) -> World {
    if decoupled {
        let mid = market_of(p);
        World { slots: slot::changed(w.slots, mid, slot::released(w.slots[mid])), ..w }
    } else {
        w
    }
}

/// When a filled entry counts as filled.
pub open spec fn fill_instant(entry: LegSummary, now_ns: i64) -> i64 {
    if entry.first_ts_ns > 0 {
        entry.first_ts_ns
    } else {
        now_ns
    }
}

/// The entry is over: without a fill the trade is abandoned; with one, it is held, or
/// handed to the reconciler.
pub open spec fn entry_over(cfg: ExecutorCfg, w: World, c: Chase, now_ns: i64) -> Next {
    let p = c.plan;
    let none = LegSummary::empty();
    let cool = cfg.risk.cooldown_ms;
    if c.entry.qty <= EPS {
        let a = told(w, p, Note::Abandoned);
        let b = World {
            outs: a.outs.push(
                OutV::Trade(record_of(p, TradeOutcome::Abandoned, c.entry, none, 0, 0)),
            ),
            ..a
        };
        done(ended(unclaimed(b, p, c.decoupled), now_ns, cool))
    } else {
        let a = told(shown(w, p.instrument@), p, Note::Holding { leg: c.entry });
        if c.decoupled {
            let b = World {
                outs: a.outs.push(
                    OutV::Trade(
                        record_of(p, TradeOutcome::PendingResolution, c.entry, none, 0, 0),
                    ),
                ),
                ..a
            };
            let mid = market_of(p);
            let need = b.slots.contains_key(mid) && !b.slots[mid].reconciler_alive;
            let d = World {
                slots: slot::changed(
                    b.slots,
                    mid,
                    slot::handed_over(
                        b.slots[mid],
                        plan_yes(p),
                        c.entry.qty,
                        fill_instant(c.entry, now_ns),
                        p.hold_ms,
                    ),
                ),
                outs: if need {
                    b.outs.push(OutV::Spawn(mid))
                } else {
                    b.outs
                },
                ..b
            };
            done(ended(d, now_ns, cool))
        } else {
            let b = World {
                outs: a.outs.push(
                    OutV::Hold(
                        HoldProbe {
                            trade_id: p.trade_id,
                            inst: p.instrument,
                            t0_ns: c.entry.first_ts_ns,
                            qty: c.entry.qty,
                            entry_vwap: c.entry.vwap_spec() as i64,
                            fee_rate: p.params.fee_rate,
                        },
                    ),
                ),
                ..a
            };
            Next {
                w: b,
                stage: StageV::Holding { plan: p, entry: c.entry },
                action: EngineActionV::SleepUntil {
                    ns: fixed::smaller(
                        fixed::clamp64(c.entry.first_ts_ns + p.hold_ms * 1_000_000),
                        p.exit_deadline_ns as int,
                    ) as i64,
                },
            }
        }
    }
}

/// The next entry order, where the signal is fresh, there is a book, and the ask has not
/// run past the chase cap.
pub open spec fn chase_next(cfg: ExecutorCfg, w: World, c: Chase, m: MirrorView, now_ns: i64) -> Next {
    let p = c.plan;
    let inst = p.instrument@;
    let cap = fixed::clamp64(mirror::top_of(m.books[inst]).best_ask + cfg.entry.chase_c) as i64;
    if now_ns - p.signal_ts_ns >= cfg.entry.ttl_ms * 1_000_000 {
        entry_over(cfg, told(w, p, Note::TtlElapsed), c, now_ns)
    } else if !has_book(m, inst) {
        entry_over(cfg, w, c, now_ns)
    } else if cap - p.signal_ask > cfg.entry.max_chase_total_c {
        entry_over(cfg, told(w, p, Note::RanAway), c, now_ns)
    } else {
        Next {
            w,
            stage: StageV::Entering(c),
            action: EngineActionV::Submit(
                intent_of(
                    p,
                    "E"@,
                    c.attempt,
                    Side::Buy,
                    cap,
                    fixed::clamp64(fixed::larger(p.size_shares - c.entry.qty, 0)) as i64,
                ),
            ),
        }
    }
}

/// The books refused a fill: the kill switch goes on, and the trade is dropped.
pub open spec fn aborted(cfg: ExecutorCfg, w: World, c: Chase, e: FillError, now_ns: i64) -> Next {
    let a = told(World { killed: true, ..w }, c.plan, Note::Halt(e));
    let b = ended(shown(a, c.plan.instrument@), now_ns, cfg.risk.cooldown_ms);
    done(unclaimed(b, c.plan, c.decoupled))
}

/// What follows the venue's answer to an entry order: any fill ends the chase; without one
/// it is tried again, up to the last attempt; a refusal ends it.
pub open spec fn entry_answered(
    cfg: ExecutorCfg,
    w: World,
    c: Chase,
    o: VenueOutcome,
    now_ns: i64,
) -> Next {
    match o {
        VenueOutcome::Acked { fills, .. } => if fills@.len() > 0 {
            let (pm, leg, e) = ingested(w.pm, c.entry, fills@);
            match e {
                Some(x) => aborted(cfg, World { pm, ..w }, c, x, now_ns),
                None => entry_over(cfg, World { pm, ..w }, Chase { entry: leg, ..c }, now_ns),
            }
        } else if c.attempt + 1 >= cfg.entry.max_attempts {
            entry_over(cfg, w, c, now_ns)
        } else {
            Next {
                w,
                stage: StageV::EntryPause(Chase { attempt: (c.attempt + 1) as u32, ..c }),
                action: EngineActionV::Sleep { ms: cfg.entry.retry_delay_ms },
            }
        },
        VenueOutcome::Rejected(r) => entry_over(
            cfg,
            told(w, c.plan, Note::VenueReject(r)),
            c,
            now_ns,
        ),
    }
}

/// The price study hears of a signal, where the book is known.
pub open spec fn probed(cfg: ExecutorCfg, w: World, p: TradePlan, m: MirrorView, now_ns: i64) -> World {
    let inst = p.instrument@;
    if cfg.price_probe.enabled && has_book(m, inst) {
        let b = mirror::top_of(m.books[inst]);
        let h = mirror::history(m.asks, inst);
        let from = fixed::clamp64(
            p.signal_ts_ns - cfg.price_probe.pre_window_ms * 1_000_000,
        );
        let x = ring::as_of(h, p.signal_ts_ns as int);
        let y = ring::as_of(h, from);
        World {
            outs: w.outs.push(
                OutV::Price(
                    PxProbe {
                        trade_id: p.trade_id,
                        inst: p.instrument,
                        t0_ns: p.signal_ts_ns,
                        ref_ask: p.signal_ask,
                        ref_mid_twice: (b.best_bid + b.best_ask) as i128,
                        tte_ms: match mirror::meta_for(m, inst) {
                            Some(t) => Some(mirror::ms_toward_zero(t.expiry_ns - now_ns) as i64),
                            None => None,
                        },
                        pre_move: if x is Some && y is Some {
                            Some(((x->0).1 - (y->0).1) as i128)
                        } else {
                            None
                        },
                    },
                ),
            ),
            ..w
        }
    } else {
        w
    }
}

/// The entry starts; a dry run ends here.
pub open spec fn entered(
    cfg: ExecutorCfg,
    w: World,
    p: TradePlan,
    decoupled: bool,
    m: MirrorView,
    now_ns: i64,
) -> Next {
    let a = probed(cfg, told(w, p, Note::Entering { size: p.size_shares }), p, m, now_ns);
    if cfg.dry_run {
        let b = unclaimed(told(a, p, Note::Shadow), p, decoupled);
        done(ended(b, now_ns, cfg.risk.cooldown_ms))
    } else {
        chase_next(
            cfg,
            a,
            Chase { plan: p, decoupled, entry: LegSummary::empty(), attempt: 0 },
            m,
            now_ns,
        )
    }
}

/// A signal was weighed: the risk gate has forgotten what is out of its window, where it
/// was asked.
pub open spec fn signal_weighed(
    w: World,
    cfg: ExecutorCfg,
    gate: RiskGate,
    s: TradeSignal,
    halted: bool,
    m: MirrorView,
    now_ns: i64,
) -> World {
    if plan::reaches_gate(s, halted, m, cfg) {
        World {
            starts: risk::starts_after_check(
                w.starts,
                plan::signal_breach(s, m, cfg, gate, now_ns),
                now_ns,
            ),
            ..w
        }
    } else {
        w
    }
}

/// A trade is counted for the rate limit.
pub open spec fn rated(w: World, now_ns: i64) -> World {
    World {
        starts: ring::dropped(w.starts.push((now_ns, ())), now_ns - risk::RATE_WINDOW_NS),
        ..w
    }
}

/// The claim that a plan makes on its market.
pub open spec fn claim_of(p: TradePlan) -> EntryClaim {
    EntryClaim {
        instrument: p.instrument,
        size: p.size_shares,
        params: p.params,
        expiry_ns: p.expiry_ns,
        trade_id: p.trade_id,
    }
}

/// Whether exits are the reconciler's.
pub open spec fn decoupled_mode(cfg: ExecutorCfg) -> bool {
    cfg.exit.mode@ == "reconcile"@
}

/// The reconciler's timing under these settings.
pub open spec fn recon_of(e: ExitCfg) -> ReconCfg {
    ReconCfg {
        cadence_ms: fixed::larger(e.cadence_ms as int, 50) as u64,
        transit_ns: fixed::clamp64(e.transit_ms * 1_000_000) as i64,
        submitted_timeout_ns: fixed::clamp64(e.submitted_timeout_ms * 1_000_000) as i64,
        settle_wait_ms: e.settle_wait_ms,
    }
}

/// A plan is taken up: the trade slot is claimed, and, where exits are the reconciler's,
/// the market too, whose resting close is canceled first.
pub open spec fn taken_up(cfg: ExecutorCfg, w: World, p: TradePlan, m: MirrorView, now_ns: i64) -> Next {
    let free = position::may_begin(w.pm, now_ns);
    let a = World { pm: PmState { active: Some(p.trade_id@), ..w.pm }, ..w };
    if !decoupled_mode(cfg) {
        if !free {
            done(told(w, p, Note::Rejected(Reject::Busy)))
        } else {
            entered(cfg, rated(a, now_ns), p, false, m, now_ns)
        }
    } else if venue_spec::market_id_text(p.instrument@) is None {
        done(told(w, p, Note::Rejected(Reject::NoMarket)))
    } else if !free {
        done(told(w, p, Note::Rejected(Reject::Busy)))
    } else {
        let mid = market_of(p);
        let c = claim_of(p);
        let s = slot::slot_or_idle(w.slots, mid, c);
        match slot::claim_reject(
            s,
            c,
            now_ns,
            recon_of(cfg.exit),
            cfg.risk.max_net_per_market,
        ) {
            Some(e) => {
                let b = World { slots: w.slots.insert(mid, s), ..a };
                done(ended(told(b, p, Note::Rejected(Reject::Gate(e))), now_ns, 0))
            },
            None => {
                let b = rated(
                    World { slots: w.slots.insert(mid, slot::claimed(s, c, now_ns)), ..a },
                    now_ns,
                );
                match s.resting {
                    Some(r) => Next {
                        w: b,
                        stage: StageV::Clearing { plan: p, resting: r, since_ns: now_ns },
                        action: EngineActionV::Cancel(r.order_id),
                    },
                    None => entered(cfg, b, p, true, m, now_ns),
                }
            },
        }
    }
}

/// How much of a canceled order had filled.
pub open spec fn filled_part(count: i64, reduced_by: i64) -> i64 {
    fixed::clamp64(fixed::larger(count - reduced_by, 0)) as i64
}

/// Whether `f` is the fill that a canceled close of a market turned out to have.
pub open spec fn is_close_of(f: Fill, r: RestV, reduced_by: i64, now_ns: i64) -> bool {
    f@ == slot::close_fill(
        venue_spec::complement_text(r.instrument),
        r.order_id,
        0,
        filled_part(r.count, reduced_by),
        r.px,
        now_ns,
    )
}

/// What follows the answer to the cancel of a resting close; `f` is the fill that it
/// turned out to have. Without an answer, the reference is given back and the entry is
/// dropped.
pub open spec fn cleared(
    cfg: ExecutorCfg,
    w: World,
    p: TradePlan,
    r: RestV,
    since_ns: i64,
    reply: CancelReply,
    f: Fill,
    m: MirrorView,
    now_ns: i64,
) -> Next {
    let mid = market_of(p);
    match reply {
        CancelReply::Canceled { reduced_by } => {
            let filled = filled_part(r.count, reduced_by);
            if filled > EPS {
                let a = close_booked(w, f);
                let b = World {
                    slots: slot::changed(a.slots, mid, slot::reduced(a.slots[mid], filled)),
                    ..a
                };
                entered(cfg, b, p, true, m, now_ns)
            } else {
                entered(cfg, w, p, true, m, now_ns)
            }
        },
        CancelReply::Gone => entered(cfg, w, p, true, m, now_ns),
        CancelReply::Failed => {
            let a = told(w, p, Note::Rejected(Reject::CancelFailed));
            let b = World {
                slots: slot::changed(
                    a.slots,
                    mid,
                    SlotV {
                        resting: Some(r),
                        state: slot::TradeState::Rest,
                        ..a.slots[mid]
                    },
                ),
                ..a
            };
            done(ended(b, since_ns, 0))
        },
    }
}

/// The exit is over: closed where nothing is left, and otherwise waiting for resolution.
pub open spec fn exit_over(cfg: ExecutorCfg, w: World, x: ExitRun, now_ns: i64) -> Next {
    let p = x.plan;
    let inst = p.instrument@;
    let left = position::held(w.pm, inst) as i64;
    let hold_ms = fixed::larger(
        fixed::larger(x.exit.last_ts_ns as int, x.entry.first_ts_ns as int) - x.entry.first_ts_ns,
        0,
    ) / 1_000_000;
    let closed = left <= EPS;
    let a = if closed {
        told(w, p, Note::Closed { leg: x.exit })
    } else {
        told(
            World { pm: position::with_status(w.pm, inst, PosStatus::PendingResolution), ..w },
            p,
            Note::Pending { qty: left },
        )
    };
    let b = shown(a, inst);
    let outcome = if closed {
        TradeOutcome::Closed
    } else {
        TradeOutcome::PendingResolution
    };
    let d = World {
        outs: b.outs.push(
            OutV::Trade(record_of(p, outcome, x.entry, x.exit, hold_ms as u64, x.ref_bid)),
        ),
        ..b
    };
    done(ended(d, now_ns, cfg.risk.cooldown_ms))
}

/// The lowest price that the `k`-th exit order takes: a step deeper each time, down to the
/// largest slip, and never below a tick.
pub open spec fn exit_floor(c: ExitCfg, best_bid: i64, k: u32, tick: i64) -> i64 {
    fixed::clamp64(
        fixed::larger(
            fixed::larger(best_bid - k * c.step_c, best_bid - c.max_slip_c),
            tick as int,
        ),
    ) as i64
}

/// The next exit order, where something is held, the deadline is not past, and there is a
/// book.
pub open spec fn exit_next(cfg: ExecutorCfg, w: World, x: ExitRun, m: MirrorView, now_ns: i64) -> Next {
    let p = x.plan;
    let inst = p.instrument@;
    let held = position::held(w.pm, inst) as i64;
    if held <= EPS || now_ns >= p.exit_deadline_ns || !has_book(m, inst) {
        exit_over(cfg, w, x, now_ns)
    } else {
        let bid = mirror::top_of(m.books[inst]).best_bid;
        Next {
            w,
            stage: StageV::Exiting(
                ExitRun {
                    ref_bid: if x.k == 0 {
                        bid
                    } else {
                        x.ref_bid
                    },
                    ..x
                },
            ),
            action: EngineActionV::Submit(
                intent_of(
                    p,
                    "X"@,
                    x.k,
                    Side::Sell,
                    exit_floor(cfg.exit, bid, x.k, p.params.tick_size),
                    held,
                ),
            ),
        }
    }
}

/// The exit starts.
pub open spec fn exit_started(
    cfg: ExecutorCfg,
    w: World,
    p: TradePlan,
    entry: LegSummary,
    m: MirrorView,
    now_ns: i64,
) -> Next {
    let inst = p.instrument@;
    let a = told(w, p, Note::Exiting);
    let top = mirror::top_of(m.books[inst]);
    let offer = if cfg.maker_probe.improve_tick {
        fixed::larger(
            fixed::clamp64(top.best_ask - p.params.tick_size),
            p.params.tick_size as int,
        ) as i64
    } else {
        top.best_ask
    };
    let b = if cfg.maker_probe.enabled && has_book(m, inst) {
        World {
            outs: a.outs.push(
                OutV::Maker(
                    MakerProbe {
                        trade_id: p.trade_id,
                        inst: p.instrument,
                        t0_ns: now_ns,
                        offer_px: offer,
                        bid0: top.best_bid,
                        fee_rate: p.params.fee_rate,
                    },
                ),
            ),
            ..a
        }
    } else {
        a
    };
    exit_next(
        cfg,
        b,
        ExitRun {
            plan: p,
            entry,
            exit: LegSummary::empty(),
            ref_bid: if has_book(m, inst) {
                top.best_bid
            } else {
                0
            },
            k: 0,
        },
        m,
        now_ns,
    )
}

/// The exit ladder goes on after an attempt, up to the last one.
pub open spec fn exit_again(cfg: ExecutorCfg, w: World, x: ExitRun, now_ns: i64) -> Next {
    if x.k + 1 >= cfg.exit.max_attempts {
        exit_over(cfg, w, x, now_ns)
    } else {
        Next {
            w,
            stage: StageV::ExitPause(ExitRun { k: (x.k + 1) as u32, ..x }),
            action: EngineActionV::Sleep { ms: cfg.exit.retry_interval_ms },
        }
    }
}

/// What follows the venue's answer to an exit order.
pub open spec fn exit_answered(
    cfg: ExecutorCfg,
    w: World,
    x: ExitRun,
    o: VenueOutcome,
    now_ns: i64,
) -> Next {
    match o {
        VenueOutcome::Acked { fills, .. } => {
            let (pm, leg, e) = ingested(w.pm, x.exit, fills@);
            let y = ExitRun { exit: leg, ..x };
            match e {
                Some(err) => exit_over(
                    cfg,
                    told(World { pm, ..w }, x.plan, Note::ExitFillError(err)),
                    y,
                    now_ns,
                ),
                None => exit_again(cfg, World { pm, ..w }, y, now_ns),
            }
        },
        VenueOutcome::Rejected(r) => exit_again(
            cfg,
            told(w, x.plan, Note::VenueReject(r)),
            x,
            now_ns,
        ),
    }
}


/// Whether a trade whose exit is the reconciler's has a market.
pub open spec fn stage_ok(st: StageV) -> bool {
    match st {
        StageV::Clearing { plan, .. } => venue_spec::market_id_text(plan.instrument@) is Some,
        StageV::Entering(c) | StageV::EntryPause(c) => c.decoupled ==> venue_spec::market_id_text(
            c.plan.instrument@,
        ) is Some,
        _ => true,
    }
}

/// The engine: its settings, the books, the risk gate, and the trade under way.
pub struct Engine {
    cfg: ExecutorCfg,
    pm: PositionManager,
    risk: RiskGate,
    stage: Stage,
}

/// Adds to what was said.
fn emit(outs: &mut Vec<Out>, o: Out)
    ensures
        out_views(final(outs)@) == out_views(old(outs)@).push(o@),
{
    outs.push(o);
    assert(out_views(outs@) =~= out_views(old(outs)@).push(o@));
}

/// Reports on a plan.
fn tell(outs: &mut Vec<Out>, p: &TradePlan, note: Note)
    ensures
        out_views(final(outs)@) == out_views(old(outs)@).push(
            OutV::Report(p.trade_id@, p.instrument@, note),
        ),
{
    emit(
        outs,
        Out::Report { trade_id: p.trade_id.clone(), instrument: p.instrument.clone(), note },
    );
}

/// Reports.
fn say(outs: &mut Vec<Out>, id: &str, inst: &str, note: Note)
    ensures
        out_views(final(outs)@) == out_views(old(outs)@).push(OutV::Report(id@, inst@, note)),
{
    emit(outs, Out::Report { trade_id: id.to_string(), instrument: inst.to_string(), note });
}

/// Applies fills to the books and to a leg, up to the first that the books refuse.
pub fn ingest_fills(pm: &mut PositionManager, fills: &Vec<Fill>, leg: &mut LegSummary) -> (r: Result<
    (),
    FillError,
>)
    requires
        old(pm).wf(),
    ensures
        final(pm).wf(),
        ({
            let (p, l, e) = ingested(old(pm).state(), *old(leg), fills@);
            &&& final(pm).state() == p
            &&& *final(leg) == l
            &&& match r {
                Ok(()) => e is None,
                Err(x) => e == Some(x),
            }
        }),
{
    let ghost st = pm.state();
    let ghost l0 = *leg;
    let mut i: usize = 0;
    assert(fills@.take(0) =~= Seq::<Fill>::empty());
    while i < fills.len()
        invariant
            pm.wf(),
            st == old(pm).state(),
            l0 == *old(leg),
            i <= fills@.len(),
            ingested(st, l0, fills@.take(i as int)) == (pm.state(), *leg, None::<FillError>),
        decreases fills@.len() - i,
    {
        let f = &fills[i];
        assert(fills@.take(i + 1).drop_last() =~= fills@.take(i as int));
        assert(fills@.take(i + 1).last() == *f);
        if let Err(e) = pm.apply_fill(f) {
            proof {
                lemma_ingest_stops(st, l0, fills@, i + 1);
            }
            return Err(e);
        }
        leg.qty = sat(leg.qty as i128 + f.qty as i128);
        leg.notional = sum128(leg.notional, product(f.qty, f.px));
        leg.fees = sat(leg.fees as i128 + f.fee as i128);
        if leg.n_fills < u32::MAX {
            leg.n_fills = leg.n_fills + 1;
        }
        if leg.first_ts_ns == 0 {
            leg.first_ts_ns = f.ts_ns;
        }
        leg.last_ts_ns = f.ts_ns;
        i = i + 1;
    }
    assert(fills@.take(fills@.len() as int) =~= fills@);
    Ok(())
}

/// A refused fill ends a run: what comes after it changes nothing.
proof fn lemma_ingest_stops(pm: PmState, leg: LegSummary, fills: Seq<Fill>, n: int)
    requires
        0 <= n <= fills.len(),
        ingested(pm, leg, fills.take(n)).2 is Some,
    ensures
        ingested(pm, leg, fills) == ingested(pm, leg, fills.take(n)),
    decreases fills.len() - n,
{
    if n == fills.len() {
        assert(fills.take(n) =~= fills);
    } else {
        assert(fills.take(n + 1).drop_last() =~= fills.take(n));
        lemma_ingest_stops(pm, leg, fills, n + 1);
    }
}

/// Makes the record of a round trip.
pub fn trade_record(
    p: &TradePlan,
    outcome: TradeOutcome,
    entry: &LegSummary,
    exit: &LegSummary,
    hold_actual_ms: u64,
    exit_ref_bid: i64,
) -> (r: TradeRecord)
    ensures
        r == record_of(*p, outcome, *entry, *exit, hold_actual_ms, exit_ref_bid),
{
    let gross = sum128(sum128(exit.notional, 0), -sum128(entry.notional, 0));
    let fees: i128 = (entry.fees as i128 + exit.fees as i128) * 1_000_000;
    TradeRecord {
        trade_id: p.trade_id.clone(),
        outcome,
        direction: p.direction,
        instrument: p.instrument.clone(),
        signal_ts_ns: p.signal_ts_ns,
        trigger: p.trigger,
        entry: *entry,
        exit: *exit,
        hold_actual_ms,
        pnl_gross: gross,
        pnl_net: sum128(gross, -fees),
        slippage_entry: sat(entry.vwap() as i128 - p.signal_ask as i128),
        slippage_exit: if exit.qty > 0 {
            sat(exit_ref_bid as i128 - exit.vwap() as i128)
        } else {
            0
        },
        lat_signal_to_submit_ns: sat(
            max64(entry.first_ts_ns, p.signal_ts_ns) as i128 - p.signal_ts_ns as i128,
        ),
    }
}

/// Makes one order of a plan.
fn intent(p: &TradePlan, leg: &str, attempt: u32, side: Side, price: i64, size: i64) -> (r: OrderIntent)
    ensures
        r@ == intent_of(*p, leg@, attempt, side, price, size),
{
    let a = joined(p.trade_id.as_str(), ":");
    let b = joined(a.as_str(), leg);
    let c = joined(b.as_str(), ":");
    OrderIntent {
        client_id: joined(c.as_str(), u64_text(attempt as u64).as_str()),
        instrument: p.instrument.clone(),
        token_id: p.token_id.clone(),
        side,
        price,
        size,
        kind: IntentKind::TakeNow,
        params: p.params,
        expiry_ns: p.expiry_ns,
    }
}

impl Engine {
    /// The settings.
    pub closed spec fn settings(&self) -> ExecutorCfg {
        self.cfg
    }

    /// The books.
    pub closed spec fn books(&self) -> PmState {
        self.pm.state()
    }

    /// The risk gate.
    pub closed spec fn gate(&self) -> RiskGate {
        self.risk
    }

    /// What the engine waits for.
    pub closed spec fn stage_view(&self) -> StageV {
        self.stage@
    }

    /// The books are well formed, and a trade whose exit is the reconciler's has a market.
    pub closed spec fn wf(&self) -> bool {
        self.pm.wf() && stage_ok(self.stage@)
    }

    /// All that a trade touches.
    pub open spec fn world(&self, slots: Slots, outs: Vec<Out>) -> World {
        World {
            pm: self.books(),
            killed: self.gate().is_killed(),
            starts: self.gate().starts(),
            slots: slots@,
            outs: out_views(outs@),
        }
    }

    /// Where the engine is, with what it wants done.
    pub open spec fn at(&self, slots: Slots, outs: Vec<Out>, action: Action) -> Next {
        Next { w: self.world(slots, outs), stage: self.stage_view(), action: action@ }
    }

    /// What no step changes.
    pub open spec fn keeps(&self, before: Engine) -> bool {
        self.wf() && self.settings() == before.settings() && self.gate().limits()
            == before.gate().limits()
    }

    /// An engine that waits for its first signal.
    pub fn new(cfg: ExecutorCfg) -> (r: Engine)
        ensures
            r.wf(),
            r.settings() == cfg,
            r.gate().limits() == cfg.risk,
            !r.gate().is_killed(),
            r.gate().starts().len() == 0,
            r.stage_view() == StageV::Ready,
            r.books().cash == cfg.sim.start_cash_usdc * 1_000_000_000_000,
            r.books().positions == Map::<Seq<char>, position::Position>::empty(),
            r.books().active is None,
            r.books().cooldown_until_ns == 0,
            r.books().daily == (position::DailyStats { realized: 0, fees: 0, n_trades: 0 }),
            r.books().seen == Map::<Seq<char>, crate::executor::types::FillStatus>::empty(),
    {
        let cash: i128 = cfg.sim.start_cash_usdc as i128 * 1_000_000_000_000;
        let risk = RiskGate::new(cfg.risk);
        Engine { cfg, pm: PositionManager::new(cash), risk, stage: Stage::Ready }
    }

    /// Whether a signal can be taken.
    pub fn is_ready(&self) -> (r: bool)
        ensures
            r == (self.stage_view() == StageV::Ready),
    {
        match self.stage {
            Stage::Ready => true,
            _ => false,
        }
    }

    /// What is held of an instrument.
    pub fn qty(&self, instrument: &str) -> (r: i64)
        ensures
            r == position::held(self.books(), instrument@),
    {
        self.pm.qty(instrument)
    }

    fn show(&self, outs: &mut Vec<Out>, inst: &str)
        requires
            self.wf(),
        ensures
            out_views(final(outs)@) == match position::snapshot_of(self.books(), inst@) {
                Some(s) => out_views(old(outs)@).push(OutV::Position(s)),
                None => out_views(old(outs)@),
            },
    {
        if let Some(s) = self.pm.snapshot(inst) {
            emit(outs, Out::Position(s));
        }
    }

    /// Books a close fill.
    pub fn on_close_fill(&mut self, slots: &Slots, f: &Fill, outs: &mut Vec<Out>)
        requires
            old(self).wf(),
        ensures
            final(self).keeps(*old(self)),
            final(self).stage_view() == old(self).stage_view(),
            final(self).world(*slots, *final(outs)) == close_booked(
                old(self).world(*slots, *old(outs)),
                *f,
            ),
    {
        let inst = f.instrument.as_str();
        let held0 = self.pm.qty(inst);
        match clamp_liquidation(held0, f) {
            None => say(outs, "close", inst, Note::CloseSkip),
            Some(c) => match self.pm.apply_fill(&c) {
                Ok(()) => {
                    let held = self.pm.qty(inst);
                    say(outs, "close", inst, Note::CloseFill { qty: c.qty, px: c.px, held });
                    if held <= EPS {
                        let realized: i128 = match self.pm.position(inst) {
                            Some(p) => p.realized_pnl,
                            None => 0,
                        };
                        say(outs, "close", inst, Note::CloseFlat { realized });
                    }
                    self.show(outs, inst);
                },
                Err(e) => {
                    say(outs, "close", inst, Note::CloseHalt(e));
                    self.risk.trip();
                },
            },
        }
    }

    /// Books a liquidation fill.
    pub fn on_liquidation_fill(&mut self, slots: &Slots, f: &Fill, outs: &mut Vec<Out>)
        requires
            old(self).wf(),
        ensures
            final(self).keeps(*old(self)),
            final(self).stage_view() == old(self).stage_view(),
            final(self).world(*slots, *final(outs)) == liquidation_booked(
                old(self).world(*slots, *old(outs)),
                *f,
            ),
    {
        let inst = f.instrument.as_str();
        let held0 = self.pm.qty(inst);
        match clamp_liquidation(held0, f) {
            None => say(outs, "liquidation", inst, Note::LiquidationSkip { qty: f.qty, px: f.px }),
            Some(c) => match self.pm.apply_fill(&c) {
                Ok(()) => {
                    say(outs, "liquidation", inst, Note::Liquidated { qty: c.qty, px: c.px });
                    self.pm.set_status(inst, PosStatus::Settled);
                    self.show(outs, inst);
                },
                Err(e) => {
                    say(outs, "liquidation", inst, Note::LiquidationHalt(e));
                    self.risk.trip();
                },
            },
        }
    }

    /// Books a fill that came by itself: a close by its mark, or else a liquidation.
    pub fn on_fill(&mut self, slots: &Slots, f: &Fill, outs: &mut Vec<Out>)
        requires
            old(self).wf(),
        ensures
            final(self).keeps(*old(self)),
            final(self).stage_view() == old(self).stage_view(),
            final(self).world(*slots, *final(outs)) == ({
                let w = old(self).world(*slots, *old(outs));
                if text::has_prefix(f.client_id@, "close:"@) {
                    close_booked(w, *f)
                } else {
                    liquidation_booked(w, *f)
                }
            }),
    {
        if starts_with(f.client_id.as_str(), "close:") {
            self.on_close_fill(slots, f, outs);
        } else {
            self.on_liquidation_fill(slots, f, outs);
        }
    }

    fn settle_one(&mut self, slots: &Slots, inst: &str, winner: &str, now_ns: i64, outs: &mut Vec<Out>)
        requires
            old(self).wf(),
        ensures
            final(self).keeps(*old(self)),
            final(self).stage_view() == old(self).stage_view(),
            final(self).world(*slots, *final(outs)) == one_settled(
                old(self).world(*slots, *old(outs)),
                inst@,
                winner@,
                now_ns,
                old(self).settings().risk.cooldown_ms,
            ),
    {
        if self.pm.qty(inst) <= EPS {
            return ;
        }
        if !self.pm.settle(inst, winner) {
            say(outs, "settlement", inst, Note::SettleHalt);
            return ;
        }
        say(outs, "settlement", inst, Note::Settled);
        self.show(outs, inst);
        self.pm.end_trade(now_ns, self.cfg.risk.cooldown_ms);
    }

    /// Settles what is held of a market once its catalog entry says that it is resolved.
    pub fn on_catalog(
        &mut self,
        slots: &Slots,
        status: MarketStatus,
        instrument: &str,
        winner: Option<&str>,
        now_ns: i64,
        outs: &mut Vec<Out>,
    )
        requires
            old(self).wf(),
        ensures
            final(self).keeps(*old(self)),
            final(self).stage_view() == old(self).stage_view(),
            final(self).world(*slots, *final(outs)) == ({
                let w = old(self).world(*slots, *old(outs));
                if status == MarketStatus::Resolved && winner is Some {
                    market_settled(
                        w,
                        instrument@,
                        winner->0@,
                        now_ns,
                        old(self).settings().risk.cooldown_ms,
                    )
                } else {
                    w
                }
            }),
    {
        if status != MarketStatus::Resolved {
            return ;
        }
        if let Some(win) = winner {
            self.settle_one(slots, instrument, win, now_ns, outs);
            let other = traded_instrument(instrument, -1);
            self.settle_one(slots, other.as_str(), win, now_ns, outs);
        }
    }

    fn unclaim(&self, slots: &mut Slots, p: &TradePlan, decoupled: bool)
        requires
            decoupled ==> venue_spec::market_id_text(p.instrument@) is Some,
        ensures
            final(slots)@ == if decoupled {
                slot::changed(
                    old(slots)@,
                    market_of(*p),
                    slot::released(old(slots)@[market_of(*p)]),
                )
            } else {
                old(slots)@
            },
    {
        if decoupled {
            if let Some(mid) = market_id_of(p.instrument.as_str()) {
                slots.release_submitted(mid.as_str());
            }
        }
    }

    fn end_entry(&mut self, slots: &mut Slots, c: Chase, now_ns: i64, outs: &mut Vec<Out>) -> (a: Action)
        requires
            old(self).wf(),
            old(self).stage_view() == StageV::Ready,
            c.decoupled ==> venue_spec::market_id_text(c.plan.instrument@) is Some,
        ensures
            final(self).keeps(*old(self)),
            final(self).at(*final(slots), *final(outs), a) == entry_over(
                old(self).settings(),
                old(self).world(*old(slots), *old(outs)),
                c,
                now_ns,
            ),
    {
        let none = LegSummary::default();
        let cool: u64 = self.cfg.risk.cooldown_ms;
        if c.entry.qty <= EPS {
            tell(outs, &c.plan, Note::Abandoned);
            emit(
                outs,
                Out::Trade(
                    trade_record(&c.plan, TradeOutcome::Abandoned, &c.entry, &none, 0, 0),
                ),
            );
            self.unclaim(slots, &c.plan, c.decoupled);
            self.pm.end_trade(now_ns, cool);
            return Action::Done;
        }
        self.show(outs, c.plan.instrument.as_str());
        tell(outs, &c.plan, Note::Holding { leg: c.entry });
        if c.decoupled {
            emit(
                outs,
                Out::Trade(
                    trade_record(
                        &c.plan,
                        TradeOutcome::PendingResolution,
                        &c.entry,
                        &none,
                        0,
                        0,
                    ),
                ),
            );
            let fill_ns: i64 = if c.entry.first_ts_ns > 0 {
                c.entry.first_ts_ns
            } else {
                now_ns
            };
            let yes_inst = yes_side_of(c.plan.instrument.as_str());
            let yes: bool = same(c.plan.instrument.as_str(), yes_inst.as_str());
            if let Some(mid) = market_id_of(c.plan.instrument.as_str()) {
                let need = slots.hand_over(
                    mid.as_str(),
                    yes,
                    c.entry.qty,
                    fill_ns,
                    c.plan.hold_ms,
                );
                if need {
                    emit(outs, Out::Spawn(mid));
                }
            }
            self.pm.end_trade(now_ns, cool);
            return Action::Done;
        }
        emit(
            outs,
            Out::Hold(
                HoldProbe {
                    trade_id: c.plan.trade_id.clone(),
                    inst: c.plan.instrument.clone(),
                    t0_ns: c.entry.first_ts_ns,
                    qty: c.entry.qty,
                    entry_vwap: c.entry.vwap(),
                    fee_rate: c.plan.params.fee_rate,
                },
            ),
        );
        let due = min64(
            sat(c.entry.first_ts_ns as i128 + c.plan.hold_ms as i128 * 1_000_000),
            c.plan.exit_deadline_ns,
        );
        self.stage = Stage::Holding { plan: c.plan, entry: c.entry };
        Action::SleepUntil { ns: due }
    }

    fn chase(
        &mut self,
        slots: &mut Slots,
        mirror: &ExecBookMirror,
        c: Chase,
        now_ns: i64,
        outs: &mut Vec<Out>,
    ) -> (a: Action)
        requires
            old(self).wf(),
            old(self).stage_view() == StageV::Ready,
            c.decoupled ==> venue_spec::market_id_text(c.plan.instrument@) is Some,
        ensures
            final(self).keeps(*old(self)),
            final(self).at(*final(slots), *final(outs), a) == chase_next(
                old(self).settings(),
                old(self).world(*old(slots), *old(outs)),
                c,
                mirror@,
                now_ns,
            ),
    {
        if now_ns as i128 - c.plan.signal_ts_ns as i128 >= self.cfg.entry.ttl_ms as i128
            * 1_000_000 {
            tell(outs, &c.plan, Note::TtlElapsed);
            return self.end_entry(slots, c, now_ns, outs);
        }
        match mirror.top(c.plan.instrument.as_str()) {
            None => self.end_entry(slots, c, now_ns, outs),
            Some(book) => {
                let cap = sat(book.best_ask as i128 + self.cfg.entry.chase_c as i128);
                if cap as i128 - c.plan.signal_ask as i128
                    > self.cfg.entry.max_chase_total_c as i128 {
                    tell(outs, &c.plan, Note::RanAway);
                    return self.end_entry(slots, c, now_ns, outs);
                }
                let left: i128 = c.plan.size_shares as i128 - c.entry.qty as i128;
                let remaining: i64 = if left > 0 {
                    sat(left)
                } else {
                    0
                };
                let i = intent(&c.plan, "E", c.attempt, Side::Buy, cap, remaining);
                self.stage = Stage::Entering(c);
                Action::Submit(i)
            },
        }
    }

    fn enter(
        &mut self,
        slots: &mut Slots,
        mirror: &ExecBookMirror,
        p: TradePlan,
        decoupled: bool,
        now_ns: i64,
        outs: &mut Vec<Out>,
    ) -> (a: Action)
        requires
            old(self).wf(),
            old(self).stage_view() == StageV::Ready,
            decoupled ==> venue_spec::market_id_text(p.instrument@) is Some,
        ensures
            final(self).keeps(*old(self)),
            final(self).at(*final(slots), *final(outs), a) == entered(
                old(self).settings(),
                old(self).world(*old(slots), *old(outs)),
                p,
                decoupled,
                mirror@,
                now_ns,
            ),
    {
        tell(outs, &p, Note::Entering { size: p.size_shares });
        if self.cfg.price_probe.enabled {
            if let Some(b) = mirror.top(p.instrument.as_str()) {
                let from = sat(
                    p.signal_ts_ns as i128 - self.cfg.price_probe.pre_window_ms as i128
                        * 1_000_000,
                );
                emit(
                    outs,
                    Out::Price(
                        PxProbe {
                            trade_id: p.trade_id.clone(),
                            inst: p.instrument.clone(),
                            t0_ns: p.signal_ts_ns,
                            ref_ask: p.signal_ask,
                            ref_mid_twice: b.best_bid as i128 + b.best_ask as i128,
                            tte_ms: mirror.tte_ms(p.instrument.as_str(), now_ns),
                            pre_move: mirror.ask_move_c(
                                p.instrument.as_str(),
                                from,
                                p.signal_ts_ns,
                            ),
                        },
                    ),
                );
            }
        }
        if self.cfg.dry_run {
            tell(outs, &p, Note::Shadow);
            self.unclaim(slots, &p, decoupled);
            self.pm.end_trade(now_ns, self.cfg.risk.cooldown_ms);
            return Action::Done;
        }
        let c = Chase { plan: p, decoupled, entry: LegSummary::default(), attempt: 0 };
        self.chase(slots, mirror, c, now_ns, outs)
    }

    /// Takes a plan up.
    fn take_up(
        &mut self,
        slots: &mut Slots,
        mirror: &ExecBookMirror,
        p: TradePlan,
        now_ns: i64,
        outs: &mut Vec<Out>,
    ) -> (a: Action)
        requires
            old(self).wf(),
            old(self).stage_view() == StageV::Ready,
        ensures
            final(self).keeps(*old(self)),
            final(self).at(*final(slots), *final(outs), a) == taken_up(
                old(self).settings(),
                old(self).world(*old(slots), *old(outs)),
                p,
                mirror@,
                now_ns,
            ),
    {
        if !same(self.cfg.exit.mode.as_str(), "reconcile") {
            if !self.pm.try_begin_trade(p.trade_id.as_str(), now_ns) {
                tell(outs, &p, Note::Rejected(Reject::Busy));
                return Action::Done;
            }
            self.risk.note_trade(now_ns);
            return self.enter(slots, mirror, p, false, now_ns, outs);
        }
        let mid = match market_id_of(p.instrument.as_str()) {
            Some(m) => m,
            None => {
                tell(outs, &p, Note::Rejected(Reject::NoMarket));
                return Action::Done;
            },
        };
        if !self.pm.try_begin_trade(p.trade_id.as_str(), now_ns) {
            tell(outs, &p, Note::Rejected(Reject::Busy));
            return Action::Done;
        }
        let rc = recon_cfg(&self.cfg.exit);
        assert(rc == recon_of(self.cfg.exit));
        let c = EntryClaim {
            instrument: p.instrument.clone(),
            size: p.size_shares,
            params: p.params,
            expiry_ns: p.expiry_ns,
            trade_id: p.trade_id.clone(),
        };
        match slots.claim(mid.as_str(), &c, now_ns, &rc, self.cfg.risk.max_net_per_market) {
            Err(e) => {
                tell(outs, &p, Note::Rejected(Reject::Gate(e)));
                self.pm.end_trade(now_ns, 0);
                Action::Done
            },
            Ok(found) => {
                self.risk.note_trade(now_ns);
                match found {
                    Some(r) => {
                        let id = r.order_id.clone();
                        self.stage = Stage::Clearing { plan: p, resting: r, since_ns: now_ns };
                        Action::Cancel(id)
                    },
                    None => self.enter(slots, mirror, p, true, now_ns, outs),
                }
            },
        }
    }

    /// Takes a signal: plans it and starts the trade, or says why it is not traded.
    /// `halted` is the balance kill switch.
    pub fn on_signal(
        &mut self,
        slots: &mut Slots,
        mirror: &ExecBookMirror,
        s: &TradeSignal,
        halted: bool,
        now_ns: i64,
        outs: &mut Vec<Out>,
    ) -> (a: Action)
        requires
            old(self).wf(),
            old(self).stage_view() == StageV::Ready,
        ensures
            final(self).keeps(*old(self)),
            ({
                let cfg = old(self).settings();
                let gate = old(self).gate();
                let w = signal_weighed(
                    old(self).world(*old(slots), *old(outs)),
                    cfg,
                    gate,
                    *s,
                    halted,
                    mirror@,
                    now_ns,
                );
                let end = final(self).at(*final(slots), *final(outs), a);
                match plan::plan_reject(*s, halted, mirror@, cfg, gate, now_ns) {
                    Some(e) => end == done(
                        said(
                            w,
                            plan::trade_id_of(*s),
                            venue_spec::traded_text(s.target@, s.direction),
                            Note::Rejected(e),
                        ),
                    ),
                    None => exists|p: TradePlan|
                        #![trigger p@]
                        p@ == plan::planned(*s, mirror@, cfg, now_ns) && end == taken_up(
                            cfg,
                            w,
                            p,
                            mirror@,
                            now_ns,
                        ),
                }
            }),
    {
        match make_plan(s, halted, mirror, &self.cfg, &mut self.risk, now_ns) {
            Err(e) => {
                let id = trade_id(s);
                let inst = traded_instrument(s.target.as_str(), s.direction);
                say(outs, id.as_str(), inst.as_str(), Note::Rejected(e));
                Action::Done
            },
            Ok(p) => {
                assert(p@ == plan::planned(*s, mirror@, self.cfg, now_ns));
                self.take_up(slots, mirror, p, now_ns, outs)
            },
        }
    }

    /// Takes the answer to the cancel of a resting close. In another stage nothing happens.
    pub fn on_cancel(
        &mut self,
        slots: &mut Slots,
        mirror: &ExecBookMirror,
        reply: CancelReply,
        now_ns: i64,
        outs: &mut Vec<Out>,
    ) -> (a: Action)
        requires
            old(self).wf(),
        ensures
            final(self).keeps(*old(self)),
            ({
                let w = old(self).world(*old(slots), *old(outs));
                let end = final(self).at(*final(slots), *final(outs), a);
                match old(self).stage_view() {
                    StageV::Clearing { plan, resting, since_ns } => exists|f: Fill|
                        #![trigger f@]
                        (reply is Canceled && filled_part(resting.count, reply->reduced_by) > EPS
                            ==> is_close_of(f, resting, reply->reduced_by, now_ns)) && end
                            == cleared(
                            old(self).settings(),
                            w,
                            plan,
                            resting,
                            since_ns,
                            reply,
                            f,
                            mirror@,
                            now_ns,
                        ),
                    st => end == (Next { w, stage: st, action: EngineActionV::Done }),
                }
            }),
    {
        let mut stage = Stage::Ready;
        std::mem::swap(&mut stage, &mut self.stage);
        let (p, r, since_ns): (TradePlan, RestingClose, i64) = match stage {
            Stage::Clearing { plan, resting, since_ns } => (plan, resting, since_ns),
            other => {
                self.stage = other;
                return Action::Done;
            },
        };
        let held_inst = complement(r.instrument.as_str());
        let reduced_by: i64 = match reply {
            CancelReply::Canceled { reduced_by } => reduced_by,
            _ => r.count,
        };
        let left: i128 = r.count as i128 - reduced_by as i128;
        let filled: i64 = if left > 0 {
            sat(left)
        } else {
            0
        };
        let f = translated_close_fill(
            held_inst.as_str(),
            r.order_id.as_str(),
            0,
            filled,
            r.px,
            now_ns,
        );
        assert(f@ == f@);
        match reply {
            CancelReply::Failed => {
                tell(outs, &p, Note::Rejected(Reject::CancelFailed));
                if let Some(mid) = market_id_of(p.instrument.as_str()) {
                    slots.restore(mid.as_str(), r);
                }
                self.pm.end_trade(since_ns, 0);
                Action::Done
            },
            CancelReply::Gone => self.enter(slots, mirror, p, true, now_ns, outs),
            CancelReply::Canceled { .. } => {
                if filled > EPS {
                    self.on_close_fill(slots, &f, outs);
                    if let Some(mid) = market_id_of(p.instrument.as_str()) {
                        slots.reduce(mid.as_str(), filled);
                    }
                }
                self.enter(slots, mirror, p, true, now_ns, outs)
            },
        }
    }

    fn end_exit(&mut self, slots: &Slots, x: ExitRun, now_ns: i64, outs: &mut Vec<Out>) -> (a: Action)
        requires
            old(self).wf(),
            old(self).stage_view() == StageV::Ready,
        ensures
            final(self).keeps(*old(self)),
            final(self).at(*slots, *final(outs), a) == exit_over(
                old(self).settings(),
                old(self).world(*slots, *old(outs)),
                x,
                now_ns,
            ),
    {
        let inst = x.plan.instrument.as_str();
        let held: i128 = max64(x.exit.last_ts_ns, x.entry.first_ts_ns) as i128
            - x.entry.first_ts_ns as i128;
        let hold_ms: u64 = if held > 0 {
            (held / 1_000_000) as u64
        } else {
            0
        };
        let left = self.pm.qty(inst);
        let outcome = if left <= EPS {
            tell(outs, &x.plan, Note::Closed { leg: x.exit });
            TradeOutcome::Closed
        } else {
            self.pm.set_status(inst, PosStatus::PendingResolution);
            tell(outs, &x.plan, Note::Pending { qty: left });
            TradeOutcome::PendingResolution
        };
        self.show(outs, inst);
        emit(
            outs,
            Out::Trade(
                trade_record(&x.plan, outcome, &x.entry, &x.exit, hold_ms, x.ref_bid),
            ),
        );
        self.pm.end_trade(now_ns, self.cfg.risk.cooldown_ms);
        Action::Done
    }

    fn sell(
        &mut self,
        slots: &Slots,
        mirror: &ExecBookMirror,
        x: ExitRun,
        now_ns: i64,
        outs: &mut Vec<Out>,
    ) -> (a: Action)
        requires
            old(self).wf(),
            old(self).stage_view() == StageV::Ready,
        ensures
            final(self).keeps(*old(self)),
            final(self).at(*slots, *final(outs), a) == exit_next(
                old(self).settings(),
                old(self).world(*slots, *old(outs)),
                x,
                mirror@,
                now_ns,
            ),
    {
        let held = self.pm.qty(x.plan.instrument.as_str());
        if held <= EPS || now_ns >= x.plan.exit_deadline_ns {
            return self.end_exit(slots, x, now_ns, outs);
        }
        match mirror.top(x.plan.instrument.as_str()) {
            None => self.end_exit(slots, x, now_ns, outs),
            Some(book) => {
                let bid: i64 = book.best_bid;
                let deep: i128 = bid as i128 - product(x.k as i64, self.cfg.exit.step_c);
                let slip: i128 = bid as i128 - self.cfg.exit.max_slip_c as i128;
                let low: i128 = if deep >= slip {
                    deep
                } else {
                    slip
                };
                let tick: i128 = x.plan.params.tick_size as i128;
                let floor = sat(
                    if low >= tick {
                        low
                    } else {
                        tick
                    },
                );
                let i = intent(&x.plan, "X", x.k, Side::Sell, floor, held);
                let mut y = x;
                if y.k == 0 {
                    y.ref_bid = bid;
                }
                self.stage = Stage::Exiting(y);
                Action::Submit(i)
            },
        }
    }

    fn start_exit(
        &mut self,
        slots: &Slots,
        mirror: &ExecBookMirror,
        p: TradePlan,
        entry: LegSummary,
        now_ns: i64,
        outs: &mut Vec<Out>,
    ) -> (a: Action)
        requires
            old(self).wf(),
            old(self).stage_view() == StageV::Ready,
        ensures
            final(self).keeps(*old(self)),
            final(self).at(*slots, *final(outs), a) == exit_started(
                old(self).settings(),
                old(self).world(*slots, *old(outs)),
                p,
                entry,
                mirror@,
                now_ns,
            ),
    {
        tell(outs, &p, Note::Exiting);
        let mut ref_bid: i64 = 0;
        if let Some(b) = mirror.top(p.instrument.as_str()) {
            ref_bid = b.best_bid;
            if self.cfg.maker_probe.enabled {
                let offer_px: i64 = if self.cfg.maker_probe.improve_tick {
                    max64(
                        sat(b.best_ask as i128 - p.params.tick_size as i128),
                        p.params.tick_size,
                    )
                } else {
                    b.best_ask
                };
                emit(
                    outs,
                    Out::Maker(
                        MakerProbe {
                            trade_id: p.trade_id.clone(),
                            inst: p.instrument.clone(),
                            t0_ns: now_ns,
                            offer_px,
                            bid0: b.best_bid,
                            fee_rate: p.params.fee_rate,
                        },
                    ),
                );
            }
        }
        let x = ExitRun { plan: p, entry, exit: LegSummary::default(), ref_bid, k: 0 };
        self.sell(slots, mirror, x, now_ns, outs)
    }

    fn sell_again(&mut self, slots: &Slots, x: ExitRun, now_ns: i64, outs: &mut Vec<Out>) -> (a: Action)
        requires
            old(self).wf(),
            old(self).stage_view() == StageV::Ready,
        ensures
            final(self).keeps(*old(self)),
            final(self).at(*slots, *final(outs), a) == exit_again(
                old(self).settings(),
                old(self).world(*slots, *old(outs)),
                x,
                now_ns,
            ),
    {
        if x.k as u64 + 1 >= self.cfg.exit.max_attempts as u64 {
            return self.end_exit(slots, x, now_ns, outs);
        }
        let mut y = x;
        y.k = y.k + 1;
        self.stage = Stage::ExitPause(y);
        Action::Sleep { ms: self.cfg.exit.retry_interval_ms }
    }

    /// Takes the venue's answer to an order. In a stage that waits for none, nothing
    /// happens.
    pub fn on_outcome(
        &mut self,
        slots: &mut Slots,
        o: VenueOutcome,
        now_ns: i64,
        outs: &mut Vec<Out>,
    ) -> (a: Action)
        requires
            old(self).wf(),
        ensures
            final(self).keeps(*old(self)),
            final(self).at(*final(slots), *final(outs), a) == ({
                let w = old(self).world(*old(slots), *old(outs));
                match old(self).stage_view() {
                    StageV::Entering(c) => entry_answered(old(self).settings(), w, c, o, now_ns),
                    StageV::Exiting(x) => exit_answered(old(self).settings(), w, x, o, now_ns),
                    st => Next { w, stage: st, action: EngineActionV::Done },
                }
            }),
    {
        let mut stage = Stage::Ready;
        std::mem::swap(&mut stage, &mut self.stage);
        match stage {
            Stage::Entering(mut c) => match o {
                VenueOutcome::Acked { fills, .. } => {
                    if fills.len() > 0 {
                        if let Err(e) = ingest_fills(&mut self.pm, &fills, &mut c.entry) {
                            self.risk.trip();
                            tell(outs, &c.plan, Note::Halt(e));
                            self.show(outs, c.plan.instrument.as_str());
                            self.pm.end_trade(now_ns, self.cfg.risk.cooldown_ms);
                            self.unclaim(slots, &c.plan, c.decoupled);
                            return Action::Done;
                        }
                        return self.end_entry(slots, c, now_ns, outs);
                    }
                    if c.attempt as u64 + 1 >= self.cfg.entry.max_attempts as u64 {
                        return self.end_entry(slots, c, now_ns, outs);
                    }
                    c.attempt = c.attempt + 1;
                    self.stage = Stage::EntryPause(c);
                    Action::Sleep { ms: self.cfg.entry.retry_delay_ms }
                },
                VenueOutcome::Rejected(r) => {
                    tell(outs, &c.plan, Note::VenueReject(r));
                    self.end_entry(slots, c, now_ns, outs)
                },
            },
            Stage::Exiting(mut x) => match o {
                VenueOutcome::Acked { fills, .. } => {
                    match ingest_fills(&mut self.pm, &fills, &mut x.exit) {
                        Err(e) => {
                            tell(outs, &x.plan, Note::ExitFillError(e));
                            self.end_exit(slots, x, now_ns, outs)
                        },
                        Ok(()) => self.sell_again(slots, x, now_ns, outs),
                    }
                },
                VenueOutcome::Rejected(r) => {
                    tell(outs, &x.plan, Note::VenueReject(r));
                    self.sell_again(slots, x, now_ns, outs)
                },
            },
            other => {
                self.stage = other;
                Action::Done
            },
        }
    }

    /// Takes the end of a pause or of the hold. In a stage that waits for none, nothing
    /// happens.
    pub fn on_wake(
        &mut self,
        slots: &mut Slots,
        mirror: &ExecBookMirror,
        now_ns: i64,
        outs: &mut Vec<Out>,
    ) -> (a: Action)
        requires
            old(self).wf(),
        ensures
            final(self).keeps(*old(self)),
            final(self).at(*final(slots), *final(outs), a) == ({
                let w = old(self).world(*old(slots), *old(outs));
                let cfg = old(self).settings();
                match old(self).stage_view() {
                    StageV::EntryPause(c) => chase_next(cfg, w, c, mirror@, now_ns),
                    StageV::Holding { plan, entry } => exit_started(
                        cfg,
                        w,
                        plan,
                        entry,
                        mirror@,
                        now_ns,
                    ),
                    StageV::ExitPause(x) => exit_next(cfg, w, x, mirror@, now_ns),
                    st => Next { w, stage: st, action: EngineActionV::Done },
                }
            }),
    {
        let mut stage = Stage::Ready;
        std::mem::swap(&mut stage, &mut self.stage);
        match stage {
            Stage::EntryPause(c) => self.chase(slots, mirror, c, now_ns, outs),
            Stage::Holding { plan, entry } => self.start_exit(
                slots,
                mirror,
                plan,
                entry,
                now_ns,
                outs,
            ),
            Stage::ExitPause(x) => self.sell(slots, mirror, x, now_ns, outs),
            other => {
                self.stage = other;
                Action::Done
            },
        }
    }
}

/// With the balance below its floor, or the kill switch on, no signal is traded.
pub proof fn law_halted_engine_takes_no_signal(
    s: TradeSignal,
    halted: bool,
    m: MirrorView,
    cfg: ExecutorCfg,
    gate: RiskGate,
    now_ns: i64,
)
    requires
        halted || gate.is_killed(),
    ensures
        plan::plan_reject(s, halted, m, cfg, gate, now_ns) is Some,
{
}

/// A dry run places no order: a trade that starts in one ends at once, with the trade slot
/// free.
pub proof fn law_dry_run_places_no_order(
    cfg: ExecutorCfg,
    w: World,
    p: TradePlan,
    decoupled: bool,
    m: MirrorView,
    now_ns: i64,
)
    requires
        cfg.dry_run,
    ensures
        entered(cfg, w, p, decoupled, m, now_ns).action == EngineActionV::Done,
        entered(cfg, w, p, decoupled, m, now_ns).stage == StageV::Ready,
        entered(cfg, w, p, decoupled, m, now_ns).w.pm.active is None,
{
}

/// An entry order is a buy of the planned instrument, for no more than what is still
/// wanted, at no more than the chase allows over the ask at the signal.
pub proof fn law_entry_orders_keep_the_plan(
    cfg: ExecutorCfg,
    w: World,
    c: Chase,
    m: MirrorView,
    now_ns: i64,
    i: IntentV,
)
    requires
        chase_next(cfg, w, c, m, now_ns).action == EngineActionV::Submit(i),
    ensures
        i.side == Side::Buy,
        i.instrument == c.plan.instrument@,
        i.price - c.plan.signal_ask <= cfg.entry.max_chase_total_c,
        0 <= i.size,
        c.entry.qty >= 0 && c.plan.size_shares >= 0 ==> i.size <= c.plan.size_shares,
        now_ns - c.plan.signal_ts_ns < cfg.entry.ttl_ms * 1_000_000,
{
}

/// An exit order sells what is held, no more and no less, no deeper than the largest slip
/// below the bid, never below a tick, and only before the deadline.
pub proof fn law_exit_orders_sell_what_is_held(
    cfg: ExecutorCfg,
    w: World,
    x: ExitRun,
    m: MirrorView,
    now_ns: i64,
    i: IntentV,
)
    requires
        position::state_wf(w.pm),
        exit_next(cfg, w, x, m, now_ns).action == EngineActionV::Submit(i),
    ensures
        i.side == Side::Sell,
        i.instrument == x.plan.instrument@,
        i.size == position::held(w.pm, x.plan.instrument@),
        i.size > EPS,
        i.price >= x.plan.params.tick_size,
        i.price >= fixed::clamp64(
            mirror::top_of(m.books[x.plan.instrument@]).best_bid - cfg.exit.max_slip_c,
        ),
        now_ns < x.plan.exit_deadline_ns,
{
}

/// Whenever an answer or the end of a pause brings the engine back to waiting for signals,
/// the trade slot is free.
pub proof fn law_finished_trades_free_the_slot(
    cfg: ExecutorCfg,
    w: World,
    c: Chase,
    x: ExitRun,
    o: VenueOutcome,
    m: MirrorView,
    now_ns: i64,
)
    ensures
        entry_answered(cfg, w, c, o, now_ns).stage == StageV::Ready ==> entry_answered(
            cfg,
            w,
            c,
            o,
            now_ns,
        ).w.pm.active is None,
        chase_next(cfg, w, c, m, now_ns).stage == StageV::Ready ==> chase_next(
            cfg,
            w,
            c,
            m,
            now_ns,
        ).w.pm.active is None,
        exit_answered(cfg, w, x, o, now_ns).stage == StageV::Ready ==> exit_answered(
            cfg,
            w,
            x,
            o,
            now_ns,
        ).w.pm.active is None,
        exit_next(cfg, w, x, m, now_ns).stage == StageV::Ready ==> exit_next(
            cfg,
            w,
            x,
            m,
            now_ns,
        ).w.pm.active is None,
{
}

/// Where it is not known whether the resting close is off the book, its reference is given
/// back and nothing is ordered.
pub proof fn law_unconfirmed_cancel_keeps_the_reference(
    cfg: ExecutorCfg,
    w: World,
    p: TradePlan,
    r: RestV,
    since_ns: i64,
    f: Fill,
    m: MirrorView,
    now_ns: i64,
)
    requires
        w.slots.contains_key(market_of(p)),
    ensures
        ({
            let t = cleared(cfg, w, p, r, since_ns, CancelReply::Failed, f, m, now_ns);
            &&& t.action == EngineActionV::Done
            &&& t.w.slots[market_of(p)].resting == Some(r)
            &&& t.w.slots[market_of(p)].state == slot::TradeState::Rest
        }),
{
}

/// A close is taken off the book before an entry goes out on the same market: where one
/// rests, taking a plan up leads to its cancel and to no order.
pub proof fn law_closes_are_cleared_before_entries(
    cfg: ExecutorCfg,
    w: World,
    p: TradePlan,
    m: MirrorView,
    now_ns: i64,
)
    requires
        decoupled_mode(cfg),
        venue_spec::market_id_text(p.instrument@) is Some,
        w.slots.contains_key(market_of(p)),
        w.slots[market_of(p)].resting is Some,
    ensures
        ({
            let t = taken_up(cfg, w, p, m, now_ns);
            ||| t.action == EngineActionV::Done
            ||| t.action == EngineActionV::Cancel(w.slots[market_of(p)].resting->0.order_id)
        }),
{
}

/// A trade whose exit is the reconciler's leaves no claim behind: when its entry is over,
/// the market is settling with a reconciler in charge, or free again.
pub proof fn law_entries_leave_no_claim(cfg: ExecutorCfg, w: World, c: Chase, now_ns: i64)
    requires
        c.decoupled,
        w.slots.contains_key(market_of(c.plan)),
    ensures
        ({
            let s = entry_over(cfg, w, c, now_ns).w.slots[market_of(c.plan)];
            if c.entry.qty <= EPS {
                s.state == slot::TradeState::Rest || s.state == slot::TradeState::Idle
            } else {
                s.state is Filled && s.reconciler_alive
            }
        }),
{
}

/// The profit of a round trip is what the exit brought in less what the entry cost, and the
/// net one is that less the fees of both legs; so the same size sold at a higher price than
/// it was bought at is a gain. An entry that paid more than the ask at the signal slipped by
/// the difference, an exit that got less than the bid likewise.
pub proof fn law_profit_is_what_came_in_over_what_went_out(
    p: TradePlan,
    outcome: TradeOutcome,
    entry: LegSummary,
    exit: LegSummary,
    hold_ms: u64,
    ref_bid: i64,
)
    requires
        -0x2000_0000_0000_0000_0000_0000_0000_0000 <= entry.notional
            <= 0x2000_0000_0000_0000_0000_0000_0000_0000,
        -0x2000_0000_0000_0000_0000_0000_0000_0000 <= exit.notional
            <= 0x2000_0000_0000_0000_0000_0000_0000_0000,
    ensures
        ({
            let r = record_of(p, outcome, entry, exit, hold_ms, ref_bid);
            &&& r.pnl_gross == exit.notional - entry.notional
            &&& r.pnl_net == r.pnl_gross - (entry.fees + exit.fees) * 1_000_000
            &&& forall|q: int, a: int, b: int|
                q > 0 && a < b && entry.notional == #[trigger] (q * a) && exit.notional
                    == #[trigger] (q * b) ==> r.pnl_gross > 0
            &&& forall|q: int, a: int, b: int|
                q > 0 && a > b && entry.notional == #[trigger] (q * a) && exit.notional
                    == #[trigger] (q * b) ==> r.pnl_gross < 0
            &&& entry.fees >= 0 && exit.fees >= 0 ==> r.pnl_net <= r.pnl_gross
            &&& r.entry == entry && r.exit == exit && r.outcome == outcome && r.direction
                == p.direction && r.instrument == p.instrument && r.trade_id == p.trade_id
            &&& r.hold_actual_ms == hold_ms && r.signal_ts_ns == p.signal_ts_ns && r.trigger
                == p.trigger
            &&& i64::MIN <= entry.vwap_spec() - p.signal_ask <= i64::MAX ==> r.slippage_entry
                == entry.vwap_spec() - p.signal_ask
            &&& exit.qty > 0 && i64::MIN <= ref_bid - exit.vwap_spec() <= i64::MAX
                ==> r.slippage_exit == ref_bid - exit.vwap_spec()
            &&& exit.qty <= 0 ==> r.slippage_exit == 0
            &&& 0 <= p.signal_ts_ns <= entry.first_ts_ns ==> r.lat_signal_to_submit_ns
                == entry.first_ts_ns - p.signal_ts_ns
            &&& entry.first_ts_ns < p.signal_ts_ns ==> r.lat_signal_to_submit_ns == 0
        }),
{
    assert forall|q: int, a: int, b: int|
        q > 0 && a < b && entry.notional == #[trigger] (q * a) && exit.notional == #[trigger] (q
            * b) implies exit.notional > entry.notional by {
        assert(q * a < q * b) by (nonlinear_arith)
            requires
                q > 0,
                a < b,
        ;
    }
    assert forall|q: int, a: int, b: int|
        q > 0 && a > b && entry.notional == #[trigger] (q * a) && exit.notional == #[trigger] (q
            * b) implies exit.notional < entry.notional by {
        assert(q * a > q * b) by (nonlinear_arith)
            requires
                q > 0,
                a > b,
        ;
    }
}

/// A leg adds its fills up: sizes, sizes times prices, and fees; it counts them, and spans
/// from the first to the last.
pub proof fn law_legs_add_up(leg: LegSummary, f: Fill)
    ensures
        ({
            let t = leg_with(leg, f);
            &&& i64::MIN <= leg.qty + f.qty <= i64::MAX ==> t.qty == leg.qty + f.qty
            &&& -0x4000_0000_0000_0000_0000_0000_0000_0000 < leg.notional
                < 0x4000_0000_0000_0000_0000_0000_0000_0000 ==> t.notional == leg.notional + f.qty
                * f.px
            &&& i64::MIN <= leg.fees + f.fee <= i64::MAX ==> t.fees == leg.fees + f.fee
            &&& leg.n_fills < u32::MAX ==> t.n_fills == leg.n_fills + 1
            &&& t.last_ts_ns == f.ts_ns
            &&& leg.first_ts_ns != 0 ==> t.first_ts_ns == leg.first_ts_ns
            &&& leg.first_ts_ns == 0 ==> t.first_ts_ns == f.ts_ns
        }),
{
    assert(-0x4000_0000_0000_0000_0000_0000_0000_0000 <= f.qty * f.px
        <= 0x4000_0000_0000_0000_0000_0000_0000_0000) by (nonlinear_arith)
        requires
            -0x8000_0000_0000_0000 <= f.qty <= 0x7fff_ffff_ffff_ffff,
            -0x8000_0000_0000_0000 <= f.px <= 0x7fff_ffff_ffff_ffff,
    ;
}

/// An entry order goes out exactly while the signal is within its lifetime, there is a book,
/// and the ask with the chase on top is within the cap over the ask at the signal. It takes
/// what is still wanted at once, at the best ask and the chase on top.
pub proof fn law_entries_chase_the_ask(
    cfg: ExecutorCfg,
    w: World,
    c: Chase,
    m: MirrorView,
    now_ns: i64,
)
    requires
        m.books.contains_key(c.plan.instrument@) ==> m.books[c.plan.instrument@].asks.len() > 0 && (
        i64::MIN <= m.books[c.plan.instrument@].asks[0].0 + cfg.entry.chase_c <= i64::MAX),
        0 <= c.entry.qty <= c.plan.size_shares,
    ensures
        ({
            let inst = c.plan.instrument@;
            let price = m.books[inst].asks[0].0 + cfg.entry.chase_c;
            let t = chase_next(cfg, w, c, m, now_ns);
            let goes = now_ns - c.plan.signal_ts_ns < cfg.entry.ttl_ms * 1_000_000
                && m.books.contains_key(inst) && price <= c.plan.signal_ask
                + cfg.entry.max_chase_total_c;
            &&& goes <==> t.action is Submit
            &&& t.action matches EngineActionV::Submit(i) ==> {
                &&& i.side == Side::Buy
                &&& i.price == price
                &&& i.size == c.plan.size_shares - c.entry.qty
                &&& i.kind == IntentKind::TakeNow
                &&& i.instrument == inst
                &&& i.params == c.plan.params
                &&& i.expiry_ns == c.plan.expiry_ns
                &&& t.w == w
            }
        }),
{
}

/// The entry ends with its first fills: no other order follows. Without a fill it is tried
/// again after the pause, as often as the settings say; a refusal ends it.
pub proof fn law_entries_end_with_a_fill(
    cfg: ExecutorCfg,
    w: World,
    c: Chase,
    o: VenueOutcome,
    now_ns: i64,
)
    ensures
        ({
            let t = entry_answered(cfg, w, c, o, now_ns);
            &&& !(t.action is Submit) && !(t.action is Cancel)
            &&& o is Rejected && c.entry.qty <= EPS ==> t.action == EngineActionV::Done
            &&& o matches VenueOutcome::Acked { fills, .. } ==> (fills@.len() == 0 && c.attempt + 1
                < cfg.entry.max_attempts ==> {
                &&& t.action == (EngineActionV::Sleep { ms: cfg.entry.retry_delay_ms })
                &&& t.stage matches StageV::EntryPause(d) && d.attempt == c.attempt + 1 && d.plan
                    == c.plan && d.entry == c.entry && d.decoupled == c.decoupled
            })
            &&& o matches VenueOutcome::Acked { fills, .. } ==> (fills@.len() == 0 && c.attempt + 1
                >= cfg.entry.max_attempts && c.entry.qty <= EPS ==> t.action
                == EngineActionV::Done)
            &&& t.action is Sleep ==> t.w == w
        }),
{
}

/// After its entry a trade is held from its first fill for as long as planned, but not past
/// the deadline; one without a fill is abandoned and frees the slot.
pub proof fn law_trades_are_held_as_planned(cfg: ExecutorCfg, w: World, c: Chase, now_ns: i64)
    requires
        !c.decoupled,
    ensures
        ({
            let t = entry_over(cfg, w, c, now_ns);
            let until = c.entry.first_ts_ns + c.plan.hold_ms * 1_000_000;
            &&& c.entry.qty > EPS ==> {
                &&& t.stage == (StageV::Holding { plan: c.plan, entry: c.entry })
                &&& t.action matches EngineActionV::SleepUntil { ns } && ns
                    <= c.plan.exit_deadline_ns && (until <= i64::MAX ==> ns <= until && (ns == until
                    || ns == c.plan.exit_deadline_ns))
                &&& t.w.pm == w.pm
            }
            &&& c.entry.qty <= EPS ==> {
                &&& t.stage == StageV::Ready
                &&& t.action == EngineActionV::Done
                &&& t.w.pm.active is None
                &&& t.w.outs.last() matches OutV::Trade(r) && r.outcome == TradeOutcome::Abandoned
            }
        }),
{
}

/// An exit order goes out exactly while something is held, the deadline is not past and
/// there is a book: it sells all that is held, at the bid at first, a step lower each time,
/// never lower than the largest slip, nor than a tick.
pub proof fn law_exits_step_down_from_the_bid(
    cfg: ExecutorCfg,
    w: World,
    x: ExitRun,
    m: MirrorView,
    now_ns: i64,
)
    requires
        position::state_wf(w.pm),
        m.books.contains_key(x.plan.instrument@) ==> m.books[x.plan.instrument@].bids.len() > 0,
        0 <= cfg.exit.step_c,
        0 <= cfg.exit.max_slip_c,
        m.books.contains_key(x.plan.instrument@) ==> m.books[x.plan.instrument@].bids[0].0
            - cfg.exit.max_slip_c >= i64::MIN,
    ensures
        ({
            let inst = x.plan.instrument@;
            let t = exit_next(cfg, w, x, m, now_ns);
            let bid = m.books[inst].bids[0].0;
            let tick = x.plan.params.tick_size;
            let step = cfg.exit.step_c;
            &&& t.action is Submit <==> (position::held(w.pm, inst) > EPS && now_ns
                < x.plan.exit_deadline_ns && m.books.contains_key(inst))
            &&& t.action matches EngineActionV::Submit(i) ==> {
                &&& i.side == Side::Sell
                &&& i.kind == IntentKind::TakeNow
                &&& i.size == position::held(w.pm, inst)
                &&& x.k == 0 && bid >= tick ==> i.price == bid
                &&& tick <= bid - x.k * step && x.k * step <= cfg.exit.max_slip_c ==> i.price == bid
                    - x.k * step
                &&& bid >= tick ==> i.price <= bid
                &&& i.price >= tick && i.price >= bid - cfg.exit.max_slip_c
                &&& x.k * step > cfg.exit.max_slip_c && bid - cfg.exit.max_slip_c >= tick ==> i.price
                    == bid - cfg.exit.max_slip_c
            }
        }),
{
    let k = x.k as int;
    let step = cfg.exit.step_c as int;
    assert(0 <= k * step && (k == 0 ==> k * step == 0)) by (nonlinear_arith)
        requires
            0 <= k,
            0 <= step,
    ;
    if exit_next(cfg, w, x, m, now_ns).action is Submit {
        let bid = m.books[x.plan.instrument@].bids[0].0;
        let price = exit_floor(cfg.exit, bid, x.k, x.plan.params.tick_size);
        assert(exit_next(cfg, w, x, m, now_ns).action->Submit_0.price == price);
        assert(price >= x.plan.params.tick_size);
        assert(price >= bid - cfg.exit.max_slip_c);
    }
}

/// An exit that left nothing is closed, one that left something waits for the resolution;
/// either way its record has both legs and how long it was held, and the slot is free.
pub proof fn law_exits_end_closed_or_pending(cfg: ExecutorCfg, w: World, x: ExitRun, now_ns: i64)
    requires
        position::state_wf(w.pm),
    ensures
        ({
            let t = exit_over(cfg, w, x, now_ns);
            let inst = x.plan.instrument@;
            &&& t.action == EngineActionV::Done && t.stage == StageV::Ready && t.w.pm.active is None
            &&& t.w.outs.last() matches OutV::Trade(r) && r.entry == x.entry && r.exit == x.exit
                && (r.outcome == TradeOutcome::Closed <==> position::held(w.pm, inst) <= EPS)
                && (r.outcome == TradeOutcome::PendingResolution <==> position::held(w.pm, inst)
                > EPS) && (0 <= x.entry.first_ts_ns <= x.exit.last_ts_ns ==> r.hold_actual_ms
                * 1_000_000 <= x.exit.last_ts_ns - x.entry.first_ts_ns < (r.hold_actual_ms + 1)
                * 1_000_000)
            &&& position::held(t.w.pm, inst) == position::held(w.pm, inst)
            &&& position::held(w.pm, inst) > EPS ==> t.w.pm.positions[inst].status
                == PosStatus::PendingResolution
            &&& t.w.pm.cash == w.pm.cash
        }),
{
}

/// The exit ladder goes on after each answer, one step further, up to its last attempt.
pub proof fn law_exits_go_on_to_the_last_attempt(
    cfg: ExecutorCfg,
    w: World,
    x: ExitRun,
    now_ns: i64,
)
    ensures
        ({
            let t = exit_again(cfg, w, x, now_ns);
            &&& x.k + 1 < cfg.exit.max_attempts ==> t.action == (EngineActionV::Sleep {
                ms: cfg.exit.retry_interval_ms,
            }) && (t.stage matches StageV::ExitPause(y) && y.k == x.k + 1 && y.exit == x.exit
                && y.entry == x.entry && y.plan == x.plan)
            &&& x.k + 1 >= cfg.exit.max_attempts ==> t.action == EngineActionV::Done
        }),
{
}

/// A plan is taken up exactly where no trade is active and the cooldown is over; where exits
/// are the reconciler's, its market has to take the entry too. Every plan that is taken up
/// counts for the rate limit and holds the trade slot until it is done.
pub proof fn law_one_trade_at_a_time(
    cfg: ExecutorCfg,
    w: World,
    p: TradePlan,
    m: MirrorView,
    now_ns: i64,
)
    requires
        w.pm.active is Some || now_ns < w.pm.cooldown_until_ns,
    ensures
        taken_up(cfg, w, p, m, now_ns).action == EngineActionV::Done,
        taken_up(cfg, w, p, m, now_ns).w.pm == w.pm,
        taken_up(cfg, w, p, m, now_ns).w.slots == w.slots,
        taken_up(cfg, w, p, m, now_ns).w.starts == w.starts,
        taken_up(cfg, w, p, m, now_ns).w.outs.len() == w.outs.len() + 1,
        taken_up(cfg, w, p, m, now_ns).w.outs.last() matches OutV::Report(_, _, n) && n is Rejected,
{
}

/// How much of a canceled close had filled: what it was for, less what was left of it.
pub proof fn law_the_rest_of_a_cancel_was_filled(count: i64, reduced_by: i64)
    requires
        0 <= reduced_by <= count,
    ensures
        filled_part(count, reduced_by) == count - reduced_by,
{
}

/// A close fill within what is held takes its size off the holding; a larger one takes what
/// is left and no more; one on nothing changes no position.
pub proof fn law_booked_closes_shrink_the_position(w: World, f: Fill)
    requires
        position::state_wf(w.pm),
        f.side == Side::Sell,
        f.qty > EPS,
        position::fill_sign(w.pm, f) == 1,
    ensures
        ({
            let t = close_booked(w, f);
            let before = position::held(w.pm, f.instrument@);
            let after = position::held(t.pm, f.instrument@);
            &&& before <= EPS ==> t.pm == w.pm && t.killed == w.killed
            &&& before > EPS && !t.killed && !w.killed ==> after == (if f.qty <= before {
                before - f.qty
            } else {
                0
            })
            &&& t.slots == w.slots && t.starts == w.starts
        }),
{
    if position::held(w.pm, f.instrument@) > EPS {
        let c = slot::clamped(position::held(w.pm, f.instrument@) as i64, f)->0;
        slot::law_fills_are_cut_to_the_holding(position::held(w.pm, f.instrument@) as i64, f);
        assert(position::fill_sign(w.pm, c) == 1);
    }
}

/// The timing of the reconciler is that of the settings, with a cadence of fifty
/// milliseconds at least.
pub proof fn law_reconcilers_keep_the_settings(e: ExitCfg)
    ensures
        recon_of(e).cadence_ms >= 50,
        e.cadence_ms >= 50 ==> recon_of(e).cadence_ms == e.cadence_ms,
        e.transit_ms * 1_000_000 <= i64::MAX ==> recon_of(e).transit_ns == e.transit_ms * 1_000_000,
        e.submitted_timeout_ms * 1_000_000 <= i64::MAX ==> recon_of(e).submitted_timeout_ns
            == e.submitted_timeout_ms * 1_000_000,
        recon_of(e).settle_wait_ms == e.settle_wait_ms,
{
}

/// A dry run sends nothing: its entry ends at once and frees the slot.
pub proof fn law_dry_runs_send_nothing(
    cfg: ExecutorCfg,
    w: World,
    p: TradePlan,
    decoupled: bool,
    m: MirrorView,
    now_ns: i64,
)
    requires
        cfg.dry_run,
    ensures
        entered(cfg, w, p, decoupled, m, now_ns).action == EngineActionV::Done,
        entered(cfg, w, p, decoupled, m, now_ns).w.pm.active is None,
        entered(cfg, w, p, decoupled, m, now_ns).w.pm.cash == w.pm.cash,
        entered(cfg, w, p, decoupled, m, now_ns).w.pm.positions == w.pm.positions,
{
}

/// A plan that is free to start holds the slot while its first order is out, counts for the
/// rate, and wants all of its size at first.
pub proof fn law_plans_hold_the_slot(
    cfg: ExecutorCfg,
    w: World,
    p: TradePlan,
    m: MirrorView,
    now_ns: i64,
)
    requires
        cfg.exit.mode@ != "reconcile"@,
        !cfg.dry_run,
        w.pm.active is None,
        now_ns >= w.pm.cooldown_until_ns,
        p.size_shares >= 0,
        m.books.contains_key(p.instrument@) ==> m.books[p.instrument@].asks.len() > 0,
    ensures
        taken_up(cfg, w, p, m, now_ns).action matches EngineActionV::Submit(i) ==> {
            &&& taken_up(cfg, w, p, m, now_ns).w.pm.active == Some(p.trade_id@)
            &&& i.side == Side::Buy && i.size == p.size_shares && i.instrument == p.instrument@
        },
        now_ns - p.signal_ts_ns >= cfg.entry.ttl_ms * 1_000_000 ==> taken_up(
            cfg,
            w,
            p,
            m,
            now_ns,
        ).action == EngineActionV::Done,
{
}

/// Where exits are the reconciler's, a close that rests in the market is canceled before an
/// entry is sent.
pub proof fn law_resting_closes_go_first(
    cfg: ExecutorCfg,
    w: World,
    p: TradePlan,
    m: MirrorView,
    now_ns: i64,
    mid: Seq<char>,
    r: RestV,
)
    requires
        cfg.exit.mode@ == "reconcile"@,
        venue_spec::market_id_text(p.instrument@) == Some(mid),
        w.slots.contains_key(mid),
        w.slots[mid].resting == Some(r),
    ensures
        !(taken_up(cfg, w, p, m, now_ns).action is Submit),
        taken_up(cfg, w, p, m, now_ns).action matches EngineActionV::Cancel(id) ==> id == r.order_id,
{
}

/// An entry that the reconciler is to close is handed to its market with its size, the side
/// that it bought, when it was filled and how long it is to be held.
pub proof fn law_entries_are_handed_to_their_market(
    cfg: ExecutorCfg,
    w: World,
    c: Chase,
    now_ns: i64,
    mid: Seq<char>,
)
    requires
        c.decoupled,
        c.entry.qty > EPS,
        c.entry.first_ts_ns > 0,
        venue_spec::market_id_text(c.plan.instrument@) == Some(mid),
        w.slots.contains_key(mid),
    ensures
        entry_over(cfg, w, c, now_ns).action == EngineActionV::Done,
        entry_over(cfg, w, c, now_ns).w.slots[mid] == slot::handed_over(
            w.slots[mid],
            c.plan.instrument@ == venue_spec::yes_text(c.plan.instrument@),
            c.entry.qty,
            c.entry.first_ts_ns,
            c.plan.hold_ms,
        ),
        entry_over(cfg, w, c, now_ns).w.pm.active is None,
        !w.slots[mid].reconciler_alive ==> entry_over(cfg, w, c, now_ns).w.outs.contains(
            OutV::Spawn(mid),
        ),
{
    if !w.slots[mid].reconciler_alive {
        let o = entry_over(cfg, w, c, now_ns).w.outs;
        assert(o[o.len() - 1] == OutV::Spawn(mid));
    }
}

/// A resolved market pays the winner's holders a unit a share, and the loser's nothing;
/// either way nothing is held of it any more. What is not held is left alone.
pub proof fn law_resolutions_pay_the_winner(
    w: World,
    inst: Seq<char>,
    winner: Seq<char>,
    now_ns: i64,
    cooldown_ms: u64,
)
    requires
        position::state_wf(w.pm),
    ensures
        ({
            let t = one_settled(w, inst, winner, now_ns, cooldown_ms);
            let q = position::held(w.pm, inst);
            &&& q <= EPS ==> t == w
            &&& q > EPS && position::settle_fits(w.pm, inst, winner) ==> {
                &&& inst == winner ==> t.pm.cash == w.pm.cash + q * 1_000_000_000_000
                &&& inst != winner ==> t.pm.cash == w.pm.cash
                &&& position::held(t.pm, inst) == 0
                &&& t.pm.active is None
            }
        }),
{
    if position::held(w.pm, inst) > EPS && position::settle_fits(w.pm, inst, winner) {
        position::law_winners_are_paid(w.pm, inst, winner);
    }
}

/// Fills are taken in one after the other: each that the books take moves them and the leg,
/// and the first that they refuse ends it.
pub proof fn law_fills_are_taken_in_turn(pm: PmState, leg: LegSummary, fills: Seq<Fill>, f: Fill)
    ensures
        ({
            let (p, l, e) = ingested(pm, leg, fills);
            let (q, k, g) = ingested(pm, leg, fills.push(f));
            &&& e is Some ==> q == p && k == l && g == e
            &&& e is None && position::fill_outcome(p, f) is None ==> q == position::filled(p, f)
                && k == leg_with(l, f) && g is None
            &&& e is None && position::fill_outcome(p, f) is Some ==> k == l && g
                == position::fill_outcome(p, f) && q.cash == p.cash
        }),
        ingested(pm, leg, Seq::empty()) == (pm, leg, None::<FillError>),
{
    assert(fills.push(f).drop_last() =~= fills);
}

/// The exit starts with what is held, at the bid; the maker's offer is compared at the ask,
/// or a tick below it.
pub proof fn law_exits_start_at_the_bid(
    cfg: ExecutorCfg,
    w: World,
    p: TradePlan,
    entry: LegSummary,
    m: MirrorView,
    now_ns: i64,
)
    requires
        position::state_wf(w.pm),
        m.books.contains_key(p.instrument@),
        m.books[p.instrument@].bids.len() > 0,
        m.books[p.instrument@].asks.len() > 0,
        m.books[p.instrument@].bids[0].0 >= p.params.tick_size,
        m.books[p.instrument@].bids[0].0 - cfg.exit.max_slip_c >= i64::MIN,
        0 <= cfg.exit.step_c,
        0 <= cfg.exit.max_slip_c,
        position::held(w.pm, p.instrument@) > EPS,
        now_ns < p.exit_deadline_ns,
    ensures
        exit_started(cfg, w, p, entry, m, now_ns).action matches EngineActionV::Submit(i) && i.side
            == Side::Sell && i.size == position::held(w.pm, p.instrument@) && i.price
            == m.books[p.instrument@].bids[0].0,
        cfg.maker_probe.enabled && !cfg.maker_probe.improve_tick ==> (exit_started(
            cfg,
            w,
            p,
            entry,
            m,
            now_ns,
        ).w.outs.last() matches OutV::Maker(o) && o.offer_px == m.books[p.instrument@].asks[0].0
            && o.bid0 == m.books[p.instrument@].bids[0].0 && o.t0_ns == now_ns),
        !cfg.maker_probe.enabled ==> exit_started(cfg, w, p, entry, m, now_ns).w.outs.len()
            == w.outs.len() + 1,
{
    let k = 0u32;
    let step = cfg.exit.step_c as int;
    assert(k as int * step == 0) by (nonlinear_arith)
        requires
            k == 0,
    ;
}

/// A liquidation sells what is held, and no more, and leaves it settled.
pub proof fn law_liquidations_leave_nothing(w: World, f: Fill)
    requires
        position::state_wf(w.pm),
        f.side == Side::Sell,
        f.qty > EPS,
        position::fill_sign(w.pm, f) == 1,
        !w.killed,
    ensures
        ({
            let t = liquidation_booked(w, f);
            let before = position::held(w.pm, f.instrument@);
            &&& before <= EPS ==> t.pm == w.pm && !t.killed
            &&& before > EPS && !t.killed && f.qty >= before ==> position::held(t.pm, f.instrument@)
                == 0
            &&& before > EPS && !t.killed && f.qty < before ==> position::held(t.pm, f.instrument@)
                == before - f.qty
            &&& before > EPS && !t.killed ==> t.pm.positions[f.instrument@].status
                == PosStatus::Settled
        }),
{
    if position::held(w.pm, f.instrument@) > EPS {
        let c = slot::clamped(position::held(w.pm, f.instrument@) as i64, f)->0;
        slot::law_fills_are_cut_to_the_holding(position::held(w.pm, f.instrument@) as i64, f);
        assert(position::fill_sign(w.pm, c) == 1);
    }
}

/// A resting close that a cancel found filled in part sold the other side of what it bought,
/// at one less its price, for what it was for less what was left of it.
pub proof fn law_canceled_closes_sold_the_held_side(f: Fill, r: RestV, reduced_by: i64, now_ns: i64)
    requires
        is_close_of(f, r, reduced_by, now_ns),
        0 <= reduced_by <= r.count,
        0 <= r.px <= 1_000_000,
    ensures
        f.side == Side::Sell,
        f.instrument@ == venue_spec::complement_text(r.instrument),
        f.qty == r.count - reduced_by,
        f.px == 1_000_000 - r.px,
        f.fee == 0,
        f.order_id@ == r.order_id,
        f.ts_ns == now_ns,
{
}

/// After the cancel of a resting close the entry starts: as things stand where nothing of it
/// was filled or it was gone, and with the fill booked where something was. Where the cancel
/// failed nothing is entered, and the close rests on.
pub proof fn law_entries_follow_their_cancel(
    cfg: ExecutorCfg,
    w: World,
    p: TradePlan,
    r: RestV,
    since_ns: i64,
    reduced_by: i64,
    f: Fill,
    m: MirrorView,
    now_ns: i64,
    mid: Seq<char>,
)
    requires
        venue_spec::market_id_text(p.instrument@) == Some(mid),
        w.slots.contains_key(mid),
        0 <= reduced_by <= r.count,
    ensures
        cleared(cfg, w, p, r, since_ns, CancelReply::Gone, f, m, now_ns) == entered(
            cfg,
            w,
            p,
            true,
            m,
            now_ns,
        ),
        r.count - reduced_by <= EPS ==> cleared(
            cfg,
            w,
            p,
            r,
            since_ns,
            CancelReply::Canceled { reduced_by },
            f,
            m,
            now_ns,
        ) == entered(cfg, w, p, true, m, now_ns),
        ({
            let t = cleared(cfg, w, p, r, since_ns, CancelReply::Failed, f, m, now_ns);
            &&& t.action == EngineActionV::Done
            &&& t.w.slots[mid].resting == Some(r)
            &&& t.w.pm.active is None
            &&& t.w.pm.cash == w.pm.cash
        }),
{
}

/// A reconciler that is alive is not started again.
pub proof fn law_one_reconciler_to_a_market(
    cfg: ExecutorCfg,
    w: World,
    c: Chase,
    now_ns: i64,
    mid: Seq<char>,
)
    requires
        c.decoupled,
        c.entry.qty > EPS,
        venue_spec::market_id_text(c.plan.instrument@) == Some(mid),
        w.slots.contains_key(mid),
        w.slots[mid].reconciler_alive,
    ensures
        entry_over(cfg, w, c, now_ns).w.outs.last() matches OutV::Trade(r) && r.entry == c.entry,
{
}

/// Both outcomes of a resolved market are settled, and nothing else.
pub proof fn law_resolutions_settle_both_outcomes(
    w: World,
    inst: Seq<char>,
    winner: Seq<char>,
    now_ns: i64,
    cooldown_ms: u64,
)
    requires
        position::held(w.pm, inst) <= EPS,
    ensures
        market_settled(w, inst, winner, now_ns, cooldown_ms) == one_settled(
            w,
            venue_spec::traded_text(inst, -1i8),
            winner,
            now_ns,
            cooldown_ms,
        ),
        position::held(w.pm, venue_spec::traded_text(inst, -1i8)) <= EPS ==> market_settled(
            w,
            inst,
            winner,
            now_ns,
            cooldown_ms,
        ) == w,
{
}

} // verus!
