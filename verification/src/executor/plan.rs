//! From a signal to a plan: sizing, per-market economics and the risk gate.
use vstd::prelude::*;
use crate::executor::config::{ExecutorCfg, SimCfg, SizingCfg};
use crate::executor::mirror;
use crate::executor::mirror::{ExecBookMirror, MarketMetaLite};
use crate::executor::mirror::MirrorView;
use crate::executor::risk;
use crate::executor::risk::{Proposal, RiskGate, RiskReject};
use crate::executor::slot::GateReject;
use crate::executor::types::{BookTop, MarketParams, TradePlan};
use crate::executor::venue_spec;
use crate::executor::venue_spec::traded_instrument;
use crate::fixed;
use crate::fixed::{div_floor, min64, product, sat};
use crate::model::{TradeSignal, Trigger};
use crate::numeral;
use crate::numeral::i64_text;
use crate::ring;
use crate::text::joined;

verus! {

/// Why a signal is not traded.
#[derive(Clone, Copy, Debug, PartialEq, Eq, Structural)]
pub enum Reject {
    /// The venue's balance fell below its floor.
    BalanceKill,
    NoBook,
    /// The size is below the market's smallest order.
    TooSmall { size: i64 },
    Risk(RiskReject),
    /// Another trade is active, or the cooldown runs.
    Busy,
    /// The instrument leads to no market.
    NoMarket,
    Gate(GateReject),
    /// Whether the resting close is off the book is not known.
    CancelFailed,
}

/// A plan, as the contracts see it.
pub struct PlanV {
    pub trade_id: Seq<char>,
    pub instrument: Seq<char>,
    pub token_id: Seq<char>,
    pub direction: i8,
    pub size_shares: i64,
    pub hold_ms: u64,
    pub exit_deadline_ns: i64,
    pub signal_ts_ns: i64,
    pub trigger: Trigger,
    pub signal_ask: i64,
    pub params: MarketParams,
    pub expiry_ns: i64,
}

impl View for TradePlan {
    type V = PlanV;

    open spec fn view(&self) -> PlanV {
        PlanV {
            trade_id: self.trade_id@,
            instrument: self.instrument@,
            token_id: self.token_id@,
            direction: self.direction,
            size_shares: self.size_shares,
            hold_ms: self.hold_ms,
            exit_deadline_ns: self.exit_deadline_ns,
            signal_ts_ns: self.signal_ts_ns,
            trigger: self.trigger,
            signal_ask: self.signal_ask,
            params: self.params,
            expiry_ns: self.expiry_ns,
        }
    }
}

/// `a`, or `b` where it is missing.
pub open spec fn given(a: Option<i64>, b: i64) -> i64 {
    match a {
        Some(x) => x,
        None => b,
    }
}

/// A market's economics: what its catalog gave, and the settings for the rest.
pub open spec fn params_for(meta: Option<MarketMetaLite>, sim: SimCfg) -> MarketParams {
    match meta {
        Some(m) => MarketParams {
            min_order_size: given(m.min_order_size, sim.min_order_size),
            tick_size: given(m.tick_size, sim.tick_size),
            fee_rate: given(m.fee_rate, sim.fee_rate),
        },
        None => MarketParams {
            min_order_size: sim.min_order_size,
            tick_size: sim.tick_size,
            fee_rate: sim.fee_rate,
        },
    }
}

/// A market's economics.
pub fn market_params(mirror: &ExecBookMirror, instrument: &str, sim: &SimCfg) -> (r: MarketParams)
    ensures
        r == params_for(mirror::meta_for(mirror@, instrument@), *sim),
{
    match mirror.meta_of(instrument) {
        Some(m) => MarketParams {
            min_order_size: m.min_order_size.unwrap_or(sim.min_order_size),
            tick_size: m.tick_size.unwrap_or(sim.tick_size),
            fee_rate: m.fee_rate.unwrap_or(sim.fee_rate),
        },
        None => MarketParams {
            min_order_size: sim.min_order_size,
            tick_size: sim.tick_size,
            fee_rate: sim.fee_rate,
        },
    }
}

/// The size of a trade: the target, but no more than its share of the displayed depth.
pub open spec fn sized(c: SizingCfg, ask_sz: i64) -> i64 {
    fixed::smaller(
        c.size_shares as int,
        fixed::clamp64(c.depth_frac * ask_sz / 1_000_000),
    ) as i64
}

/// The size of a trade.
pub fn trade_size(c: &SizingCfg, ask_sz: i64) -> (r: i64)
    ensures
        r == sized(*c, ask_sz),
{
    min64(c.size_shares, sat(div_floor(product(c.depth_frac, ask_sz), 1_000_000)))
}

/// What a signal looks like to the risk gate.
pub open spec fn proposal(s: TradeSignal, m: MirrorView, size: i64, now_ns: i64) -> Proposal {
    let inst = venue_spec::traded_text(s.target@, s.direction);
    let book = mirror::top_of(m.books[inst]);
    Proposal {
        signal_ts_ns: s.ts_ns,
        signal_ttl_ms: s.ttl_ms,
        book,
        tte_ms: match mirror::meta_for(m, inst) {
            Some(x) => Some(mirror::ms_toward_zero(x.expiry_ns - now_ns) as i64),
            None => None,
        },
        now_ns,
        size,
        price: book.best_ask,
    }
}

/// The size that a signal would be traded in.
pub open spec fn signal_size(s: TradeSignal, m: MirrorView, cfg: ExecutorCfg) -> i64 {
    let inst = venue_spec::traded_text(s.target@, s.direction);
    sized(cfg.sizing, mirror::top_of(m.books[inst]).ask_sz)
}

/// The first rule of the risk gate that a signal breaks.
pub open spec fn signal_breach(
    s: TradeSignal,
    m: MirrorView,
    cfg: ExecutorCfg,
    gate: RiskGate,
    now_ns: i64,
) -> Option<RiskReject> {
    risk::first_breach(
        gate.limits(),
        gate.is_killed(),
        ring::dropped(gate.starts(), now_ns - risk::RATE_WINDOW_NS).len() as int,
        proposal(s, m, signal_size(s, m, cfg), now_ns),
    )
}

/// Why a signal is not planned for, if it is not: the balance, the book, the size and the
/// risk gate are asked in this order.
pub open spec fn plan_reject(
    s: TradeSignal,
    halted: bool,
    m: MirrorView,
    cfg: ExecutorCfg,
    gate: RiskGate,
    now_ns: i64,
) -> Option<Reject> {
    let inst = venue_spec::traded_text(s.target@, s.direction);
    let size = signal_size(s, m, cfg);
    if halted {
        Some(Reject::BalanceKill)
    } else if !m.books.contains_key(inst) {
        Some(Reject::NoBook)
    } else if size < params_for(mirror::meta_for(m, inst), cfg.sim).min_order_size {
        Some(Reject::TooSmall { size })
    } else {
        match signal_breach(s, m, cfg, gate, now_ns) {
            Some(e) => Some(Reject::Risk(e)),
            None => None,
        }
    }
}

/// The id of a signal's trade.
pub open spec fn trade_id_of(s: TradeSignal) -> Seq<char> {
    s.strategy@ + "-"@ + numeral::int_text(s.ts_ns as int)
}

/// The plan for a signal.
pub open spec fn planned(s: TradeSignal, m: MirrorView, cfg: ExecutorCfg, now_ns: i64) -> PlanV {
    let inst = venue_spec::traded_text(s.target@, s.direction);
    let expiry_ns = match mirror::meta_for(m, s.target@) {
        Some(x) => x.expiry_ns,
        None => now_ns,
    };
    PlanV {
        trade_id: trade_id_of(s),
        instrument: inst,
        token_id: Seq::empty(),
        direction: s.direction,
        size_shares: signal_size(s, m, cfg),
        hold_ms: if s.hold_ms > 0 {
            s.hold_ms
        } else {
            cfg.hold_ms
        },
        exit_deadline_ns: fixed::clamp64(
            expiry_ns - cfg.exit.deadline_buffer_ms * 1_000_000,
        ) as i64,
        signal_ts_ns: s.ts_ns,
        trigger: s.trigger,
        signal_ask: mirror::top_of(m.books[inst]).best_ask,
        params: params_for(mirror::meta_for(m, inst), cfg.sim),
        expiry_ns,
    }
}

/// The id of a signal's trade.
pub fn trade_id(s: &TradeSignal) -> (r: String)
    ensures
        r@ == trade_id_of(*s),
{
    let head = joined(s.strategy.as_str(), "-");
    joined(head.as_str(), i64_text(s.ts_ns).as_str())
}

/// Whether the risk gate was asked about a signal.
pub open spec fn reaches_gate(
    s: TradeSignal,
    halted: bool,
    m: MirrorView,
    cfg: ExecutorCfg,
) -> bool {
    let inst = venue_spec::traded_text(s.target@, s.direction);
    &&& !halted
    &&& m.books.contains_key(inst)
    &&& signal_size(s, m, cfg) >= params_for(mirror::meta_for(m, inst), cfg.sim).min_order_size
}

/// Makes the plan for a signal, or says why it is not traded. `halted` is the balance kill
/// switch.
pub fn make_plan(
    s: &TradeSignal,
    halted: bool,
    mirror: &ExecBookMirror,
    cfg: &ExecutorCfg,
    gate: &mut RiskGate,
    now_ns: i64,
) -> (r: Result<TradePlan, Reject>)
    ensures
        match r {
            Ok(p) => plan_reject(*s, halted, mirror@, *cfg, *old(gate), now_ns) is None && p@
                == planned(*s, mirror@, *cfg, now_ns),
            Err(e) => plan_reject(*s, halted, mirror@, *cfg, *old(gate), now_ns) == Some(e),
        },
        final(gate).limits() == old(gate).limits(),
        final(gate).is_killed() == old(gate).is_killed(),
        final(gate).starts() == if reaches_gate(*s, halted, mirror@, *cfg) {
            risk::starts_after_check(
                old(gate).starts(),
                signal_breach(*s, mirror@, *cfg, *old(gate), now_ns),
                now_ns,
            )
        } else {
            old(gate).starts()
        },
{
    if halted {
        return Err(Reject::BalanceKill);
    }
    let inst = traded_instrument(s.target.as_str(), s.direction);
    let book: BookTop = match mirror.top(inst.as_str()) {
        Some(b) => b,
        None => {
            return Err(Reject::NoBook);
        },
    };
    let tte_ms = mirror.tte_ms(inst.as_str(), now_ns);
    let params = market_params(mirror, inst.as_str(), &cfg.sim);
    let size = trade_size(&cfg.sizing, book.ask_sz);
    if size < params.min_order_size {
        return Err(Reject::TooSmall { size });
    }
    let p = Proposal {
        signal_ts_ns: s.ts_ns,
        signal_ttl_ms: s.ttl_ms,
        book,
        tte_ms,
        now_ns,
        size,
        price: book.best_ask,
    };
    assert(p == proposal(*s, mirror@, size, now_ns));
    if let Err(e) = gate.check(&p) {
        return Err(Reject::Risk(e));
    }
    let expiry_ns: i64 = match mirror.meta_of(s.target.as_str()) {
        Some(m) => m.expiry_ns,
        None => now_ns,
    };
    let r = TradePlan {
        trade_id: trade_id(s),
        instrument: inst,
        token_id: String::new(),
        direction: s.direction,
        size_shares: size,
        hold_ms: if s.hold_ms > 0 {
            s.hold_ms
        } else {
            cfg.hold_ms
        },
        exit_deadline_ns: sat(
            expiry_ns as i128 - cfg.exit.deadline_buffer_ms as i128 * 1_000_000,
        ),
        signal_ts_ns: s.ts_ns,
        trigger: s.trigger,
        signal_ask: book.best_ask,
        params,
        expiry_ns,
    };
    assert(r@.token_id =~= Seq::<char>::empty());
    Ok(r)
}

/// A trade has the target size where the depth allows it, and otherwise as much as its share
/// of the depth comes to.
pub proof fn law_sizes_keep_to_the_depth(c: SizingCfg, ask_sz: i64)
    requires
        0 <= c.depth_frac <= 1_000_000,
        0 <= ask_sz,
    ensures
        sized(c, ask_sz) <= c.size_shares,
        sized(c, ask_sz) * 1_000_000 <= c.depth_frac * ask_sz,
        sized(c, ask_sz) == c.size_shares || c.depth_frac * ask_sz < (sized(c, ask_sz) + 1)
            * 1_000_000,
{
    let p = c.depth_frac * ask_sz;
    assert(0 <= p <= 1_000_000 * ask_sz) by (nonlinear_arith)
        requires
            p == c.depth_frac * ask_sz,
            0 <= c.depth_frac <= 1_000_000,
            0 <= ask_sz,
    ;
}

/// A signal is planned for exactly where the balance allows it, the side that it trades has a
/// book, the size is at least the least of the market, and the risk gate lets it through; the
/// first of these that fails is told.
pub proof fn law_why_a_signal_is_not_planned(
    s: TradeSignal,
    halted: bool,
    m: MirrorView,
    cfg: ExecutorCfg,
    gate: RiskGate,
    now_ns: i64,
)
    ensures
        ({
            let inst = venue_spec::traded_text(s.target@, s.direction);
            let r = plan_reject(s, halted, m, cfg, gate, now_ns);
            let least = params_for(mirror::meta_for(m, inst), cfg.sim).min_order_size;
            let size = signal_size(s, m, cfg);
            let breach = signal_breach(s, m, cfg, gate, now_ns);
            &&& halted <==> r == Some(Reject::BalanceKill)
            &&& r == Some(Reject::NoBook) <==> !halted && !m.books.contains_key(inst)
            &&& (r is Some && r->0 is TooSmall) <==> !halted && m.books.contains_key(inst)
                && size < least
            &&& (r is Some && r->0 is Risk) <==> !halted && m.books.contains_key(inst) && size
                >= least && breach is Some
            &&& r is None <==> !halted && m.books.contains_key(inst) && size >= least && breach
                is None
            &&& gate.is_killed() ==> r is Some
        }),
{
}

/// A plan trades the side of the signal's direction in the size of the signal, from the ask
/// at the signal, for as long as the signal says, or else as the settings say, and has to be
/// out so long before the end.
pub proof fn law_plans_follow_their_signal(
    s: TradeSignal,
    m: MirrorView,
    cfg: ExecutorCfg,
    now_ns: i64,
    x: MarketMetaLite,
)
    requires
        m.books.contains_key(venue_spec::traded_text(s.target@, s.direction)),
        m.books[venue_spec::traded_text(s.target@, s.direction)].asks.len() > 0,
        mirror::meta_for(m, s.target@) == Some(x),
    ensures
        ({
            let inst = venue_spec::traded_text(s.target@, s.direction);
            let p = planned(s, m, cfg, now_ns);
            let ask = m.books[inst].asks[0];
            &&& p.instrument == inst && p.direction == s.direction
            &&& p.signal_ask == ask.0
            &&& p.size_shares == sized(cfg.sizing, ask.1)
            &&& s.hold_ms > 0 ==> p.hold_ms == s.hold_ms
            &&& s.hold_ms == 0 ==> p.hold_ms == cfg.hold_ms
            &&& p.expiry_ns == x.expiry_ns
            &&& x.expiry_ns - cfg.exit.deadline_buffer_ms * 1_000_000 >= i64::MIN
                ==> p.exit_deadline_ns == x.expiry_ns - cfg.exit.deadline_buffer_ms * 1_000_000
            &&& p.signal_ts_ns == s.ts_ns && p.trigger == s.trigger
            &&& proposal(s, m, p.size_shares, now_ns).price == ask.0
            &&& proposal(s, m, p.size_shares, now_ns).size == p.size_shares
            &&& proposal(s, m, p.size_shares, now_ns).book.recv_ts_ns == m.books[inst].recv_ts_ns
            &&& proposal(s, m, p.size_shares, now_ns).signal_ts_ns == s.ts_ns
            &&& proposal(s, m, p.size_shares, now_ns).signal_ttl_ms == s.ttl_ms
        }),
{
}

/// A market's own economics come before those of the settings.
pub proof fn law_markets_set_their_economics(m: MarketMetaLite, sim: SimCfg)
    ensures
        m.min_order_size matches Some(x) ==> params_for(Some(m), sim).min_order_size == x,
        m.tick_size matches Some(x) ==> params_for(Some(m), sim).tick_size == x,
        m.fee_rate matches Some(x) ==> params_for(Some(m), sim).fee_rate == x,
        m.min_order_size is None ==> params_for(Some(m), sim).min_order_size == sim.min_order_size,
        m.tick_size is None ==> params_for(Some(m), sim).tick_size == sim.tick_size,
        m.fee_rate is None ==> params_for(Some(m), sim).fee_rate == sim.fee_rate,
        params_for(None, sim).min_order_size == sim.min_order_size,
        params_for(None, sim).tick_size == sim.tick_size,
        params_for(None, sim).fee_rate == sim.fee_rate,
{
}

/// The risk gate is asked with the time that is left until the end and with the trades of the
/// last minute.
pub proof fn law_the_gate_is_asked_with_what_is(
    s: TradeSignal,
    m: MirrorView,
    cfg: ExecutorCfg,
    gate: RiskGate,
    now_ns: i64,
    size: i64,
    x: MarketMetaLite,
)
    requires
        ring::in_order(gate.starts()),
        mirror::meta_for(m, venue_spec::traded_text(s.target@, s.direction)) == Some(x),
        0 <= now_ns,
        0 <= x.expiry_ns,
    ensures
        proposal(s, m, size, now_ns).tte_ms matches Some(t) && (x.expiry_ns >= now_ns ==> t
            * 1_000_000 <= x.expiry_ns - now_ns < (t + 1) * 1_000_000) && (x.expiry_ns < now_ns
            ==> t <= 0),
        proposal(s, m, size, now_ns).now_ns == now_ns,
        signal_breach(s, m, cfg, gate, now_ns) == risk::first_breach(
            gate.limits(),
            gate.is_killed(),
            gate.starts().filter(|y: (i64, ())| y.0 >= now_ns - 60_000_000_000).len() as int,
            proposal(s, m, signal_size(s, m, cfg), now_ns),
        ),
{
    ring::law_dropped_keeps_the_recent(gate.starts(), now_ns - 60_000_000_000);
}

} // verus!
