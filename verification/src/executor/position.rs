//! What is held and what it is worth: fills applied once each, long-only, with the
//! one-trade gate and resolution settlement.
//!
//! Money is in units of 1e-18: a size times a price, both in micro-units, is in units of
//! 1e-12, and an average cost is kept in units of 1e-12 per share.
use vstd::prelude::*;
use crate::executor::types::{Fill, FillStatus, EPS};
use crate::fixed;
use crate::model::{PositionSnapshot, Side};
use crate::strmap::StrMap;
use crate::text::same;

verus! {

/// Where a position stands.
#[derive(Clone, Copy, Debug, PartialEq, Eq, Structural)]
pub enum PosStatus {
    Open,
    PendingResolution,
    Settled,
}

impl PosStatus {
    /// The name of a status.
    pub open spec fn name(self) -> Seq<char> {
        match self {
            PosStatus::Open => "Open"@,
            PosStatus::PendingResolution => "PendingResolution"@,
            PosStatus::Settled => "Settled"@,
        }
    }

    /// The name of a status.
    pub fn as_str(&self) -> (r: &'static str)
        ensures
            r@ == self.name(),
    {
        match self {
            PosStatus::Open => "Open",
            PosStatus::PendingResolution => "PendingResolution",
            PosStatus::Settled => "Settled",
        }
    }
}

/// What is held of one instrument.
#[derive(Debug)]
pub struct Position {
    pub instrument: String,
    pub qty: i64,
    pub avg_cost: i128,
    pub realized_pnl: i128,
    pub fees_paid: i128,
    pub mark_px: Option<i64>,
    pub status: PosStatus,
}

impl Clone for Position {
    fn clone(&self) -> (r: Position)
        ensures
            r == *self,
    {
        Position {
            instrument: self.instrument.clone(),
            qty: self.qty,
            avg_cost: self.avg_cost,
            realized_pnl: self.realized_pnl,
            fees_paid: self.fees_paid,
            mark_px: self.mark_px,
            status: self.status,
        }
    }
}

/// Whether an amount of money can be held.
pub open spec fn fits(x: int) -> bool {
    i128::MIN <= x <= i128::MAX
}

impl Position {
    /// Nothing held of `instrument` yet.
    pub open spec fn fresh(instrument: String) -> Position {
        Position {
            instrument,
            qty: 0,
            avg_cost: 0,
            realized_pnl: 0,
            fees_paid: 0,
            mark_px: None,
            status: PosStatus::Open,
        }
    }

    fn new(instrument: String) -> (r: Position)
        ensures
            r == Position::fresh(instrument),
    {
        Position {
            instrument,
            qty: 0,
            avg_cost: 0,
            realized_pnl: 0,
            fees_paid: 0,
            mark_px: None,
            status: PosStatus::Open,
        }
    }

    /// Never short.
    pub open spec fn wf(self) -> bool {
        self.qty >= 0
    }

    /// What the holding would gain at its mark, over its cost; cut to what can be held.
    pub open spec fn upnl_spec(self) -> int {
        match self.mark_px {
            Some(m) => if self.qty > 0 {
                fixed::clamp128(self.qty * fixed::clamp128(m * 1_000_000 - self.avg_cost))
            } else {
                0
            },
            None => 0,
        }
    }

    /// What the holding would gain at its mark, over its cost.
    pub fn upnl(&self) -> (r: i128)
        ensures
            r == self.upnl_spec(),
    {
        match self.mark_px {
            Some(m) => if self.qty > 0 {
                let gap: i128 = match (m as i128 * 1_000_000).checked_sub(self.avg_cost) {
                    Some(x) => if x == i128::MIN {
                        -i128::MAX
                    } else {
                        x
                    },
                    None => if self.avg_cost < 0 {
                        i128::MAX
                    } else {
                        -i128::MAX
                    },
                };
                fixed::product128(self.qty as i128, gap)
            } else {
                0
            },
            None => 0,
        }
    }
}

/// A published position, as the contracts see it.
pub struct SnapV {
    pub instrument: Seq<char>,
    pub qty: i64,
    pub avg_cost: i128,
    pub realized_pnl: i128,
    pub fees_paid: i128,
    pub mark_px: Option<i64>,
    pub upnl: int,
    pub status: Seq<char>,
    pub cash: int,
}

impl View for PositionSnapshot {
    type V = SnapV;

    open spec fn view(&self) -> SnapV {
        SnapV {
            instrument: self.instrument@,
            qty: self.qty,
            avg_cost: self.avg_cost,
            realized_pnl: self.realized_pnl,
            fees_paid: self.fees_paid,
            mark_px: self.mark_px,
            upnl: self.upnl as int,
            status: self.status@,
            cash: self.cash_usdc as int,
        }
    }
}

/// The day's running totals.
#[derive(Clone, Copy, Debug, PartialEq, Eq, Structural)]
pub struct DailyStats {
    pub realized: i128,
    pub fees: i128,
    pub n_trades: u32,
}

/// Why a fill was not applied.
#[derive(Clone, Copy, Debug, PartialEq, Eq, Structural)]
pub enum FillError {
    /// A sell of more than is held.
    Oversold { qty: i64, held: i64 },
    /// A buy that is taken back, of which less is held: it would leave this.
    Overdrawn { left: i64 },
    /// An amount would be more than can be held.
    TooLarge,
}

/// All that the manager knows.
pub struct PmState {
    pub cash: int,
    pub positions: Map<Seq<char>, Position>,
    pub active: Option<Seq<char>>,
    pub cooldown_until_ns: int,
    pub daily: DailyStats,
    pub seen: Map<Seq<char>, FillStatus>,
}

/// Size times price of a fill, in money.
pub open spec fn gross(f: Fill) -> int {
    f.qty * f.px * 1_000_000
}

/// The fee of a fill, in money.
pub open spec fn fee_money(f: Fill) -> int {
    f.fee * 1_000_000_000_000
}

/// `x`, or its negation where `s` is negative.
pub open spec fn turn(s: int, x: int) -> int {
    if s < 0 {
        -x
    } else {
        x
    }
}

/// The position that a fill applies to: the one held, or a fresh one.
pub open spec fn position_for(st: PmState, f: Fill) -> Position {
    if st.positions.contains_key(f.instrument@) {
        st.positions[f.instrument@]
    } else {
        Position::fresh(f.instrument)
    }
}

/// How much is held after a fill, before anything below zero is cut off. `s` is 1 to apply
/// the fill and -1 to take it back.
pub open spec fn qty_after(p: Position, f: Fill, s: int) -> int {
    match f.side {
        Side::Buy => p.qty + turn(s, f.qty as int),
        Side::Sell => p.qty - turn(s, f.qty as int),
    }
}

/// The average cost after a fill: a buy mixes its price and fee in, a sell leaves it.
pub open spec fn cost_after(p: Position, f: Fill, s: int) -> int {
    match f.side {
        Side::Buy => if qty_after(p, f, s) > EPS {
            (p.qty * p.avg_cost + turn(s, gross(f)) + turn(s, fee_money(f))) / qty_after(p, f, s)
        } else {
            p.avg_cost as int
        },
        Side::Sell => p.avg_cost as int,
    }
}

/// What a fill adds to the realized profit: nothing on a buy; on a sell, its proceeds over
/// cost, less the fee.
pub open spec fn pnl_of(p: Position, f: Fill, s: int) -> int {
    match f.side {
        Side::Buy => 0,
        Side::Sell => turn(s, gross(f) - f.qty * p.avg_cost - fee_money(f)),
    }
}

/// What a fill adds to the cash.
pub open spec fn cash_of(f: Fill, s: int) -> int {
    match f.side {
        Side::Buy => -turn(s, gross(f) + fee_money(f)),
        Side::Sell => turn(s, gross(f) - fee_money(f)),
    }
}

/// What a fill moves in cash: the price and the fee on a buy, the price less the fee on a
/// sell.
pub open spec fn moved(f: Fill) -> int {
    match f.side {
        Side::Buy => gross(f) + fee_money(f),
        Side::Sell => gross(f) - fee_money(f),
    }
}

/// Whether every amount that a fill leads to, and each on the way to it, can be held.
pub open spec fn fill_fits(st: PmState, f: Fill, s: int) -> bool {
    let p = position_for(st, f);
    &&& qty_after(p, f, s) <= i64::MAX
    &&& fits(gross(f))
    &&& fits(moved(f))
    &&& match f.side {
        Side::Buy => qty_after(p, f, s) > EPS ==> fits(p.qty * p.avg_cost) && fits(
            p.qty * p.avg_cost + turn(s, gross(f)),
        ) && fits(p.qty * p.avg_cost + turn(s, gross(f)) + turn(s, fee_money(f))),
        Side::Sell => fits(f.qty * p.avg_cost) && fits(gross(f) - f.qty * p.avg_cost) && fits(
            gross(f) - f.qty * p.avg_cost - fee_money(f),
        ),
    }
    &&& fits(p.realized_pnl + pnl_of(p, f, s))
    &&& fits(p.fees_paid + turn(s, f.fee as int))
    &&& fits(st.cash + cash_of(f, s))
    &&& fits(st.daily.realized + pnl_of(p, f, s))
    &&& fits(st.daily.fees + turn(s, f.fee as int))
}

/// Why a fill cannot be applied, if it cannot.
pub open spec fn fill_error(st: PmState, f: Fill, s: int) -> Option<FillError> {
    let p = position_for(st, f);
    if qty_after(p, f, s) < -EPS {
        Some(
            match f.side {
                Side::Buy => FillError::Overdrawn { left: qty_after(p, f, s) as i64 },
                Side::Sell => FillError::Oversold { qty: f.qty, held: p.qty },
            },
        )
    } else if !fill_fits(st, f, s) {
        Some(FillError::TooLarge)
    } else {
        None
    }
}

/// The state after a fill was applied (`s` is 1) or taken back (`s` is -1).
pub open spec fn applied(st: PmState, f: Fill, s: int) -> PmState {
    let p = position_for(st, f);
    let q = qty_after(p, f, s);
    PmState {
        cash: st.cash + cash_of(f, s),
        positions: st.positions.insert(
            f.instrument@,
            Position {
                qty: if q < 0 {
                    0
                } else {
                    q as i64
                },
                avg_cost: cost_after(p, f, s) as i128,
                realized_pnl: (p.realized_pnl + pnl_of(p, f, s)) as i128,
                fees_paid: (p.fees_paid + turn(s, f.fee as int)) as i128,
                ..p
            },
        ),
        daily: DailyStats {
            realized: (st.daily.realized + pnl_of(p, f, s)) as i128,
            fees: (st.daily.fees + turn(s, f.fee as int)) as i128,
            ..st.daily
        },
        ..st
    }
}

/// Whether a fill of this id is already counted in.
pub open spec fn counted(st: PmState, id: Seq<char>) -> bool {
    st.seen.contains_key(id) && st.seen[id] != FillStatus::Failed
}

/// Which way a fill acts: 1 to apply it, -1 to take it back, 0 where only its status is
/// noted. A status seen before does nothing; a failure takes back what was counted in; any
/// other status counts in what was not.
pub open spec fn fill_sign(st: PmState, f: Fill) -> int {
    let id = f.venue_trade_id@;
    if st.seen.contains_key(id) && st.seen[id] == f.status {
        0
    } else if f.status == FillStatus::Failed {
        if counted(st, id) {
            -1
        } else {
            0
        }
    } else if counted(st, id) {
        0
    } else {
        1
    }
}

/// The error that applying a fill gives, if any.
pub open spec fn fill_outcome(st: PmState, f: Fill) -> Option<FillError> {
    if fill_sign(st, f) == 0 {
        None
    } else {
        fill_error(st, f, fill_sign(st, f))
    }
}

/// The state after a fill that gives no error.
pub open spec fn filled(st: PmState, f: Fill) -> PmState {
    let t = if fill_sign(st, f) == 0 {
        st
    } else {
        applied(st, f, fill_sign(st, f))
    };
    PmState { seen: st.seen.insert(f.venue_trade_id@, f.status), ..t }
}

/// The state after a fill that gives an error: only that its instrument is known now.
pub open spec fn refused(st: PmState, f: Fill) -> PmState {
    PmState { positions: st.positions.insert(f.instrument@, position_for(st, f)), ..st }
}

/// Every position is well formed, and the cash is an amount that can be held.
pub open spec fn state_wf(st: PmState) -> bool {
    &&& fits(st.cash)
    &&& forall|k: Seq<char>| #[trigger]
        st.positions.contains_key(k) ==> st.positions[k].wf() && st.positions[k].instrument@ == k
}

/// What is held of an instrument.
pub open spec fn held(st: PmState, inst: Seq<char>) -> int {
    if st.positions.contains_key(inst) {
        st.positions[inst].qty as int
    } else {
        0
    }
}

/// The single authority on what is held and what it is worth.
pub struct PositionManager {
    cash_usdc: i128,
    positions: StrMap<Position>,
    active_trade: Option<String>,
    cooldown_until_ns: i64,
    daily: DailyStats,
    seen_fills: StrMap<FillStatus>,
}

/// The sum of two amounts, or with `neg` their difference, where it can be held.
fn plus(a: i128, b: i128, neg: bool) -> (r: Option<i128>)
    ensures
        ({
            let x = a + turn(if neg {
                -1
            } else {
                1
            }, b as int);
            match r {
                Some(y) => y == x,
                None => !fits(x),
            }
        }),
{
    if neg {
        a.checked_sub(b)
    } else {
        a.checked_add(b)
    }
}

/// What the amounts of a fill come to.
struct Change {
    avg_cost: i128,
    /// What is realized, before it is turned round for a fill that is taken back.
    pnl: i128,
    /// What moves in cash, likewise.
    moved: i128,
}

/// The amounts of a fill on a position, where each can be held.
fn change_of(p: &Position, f: &Fill, back: bool, q: i128) -> (r: Option<Change>)
    requires
        q == qty_after(*p, *f, if back {
            -1
        } else {
            1
        }),
    ensures
        ({
            let s = if back {
                -1int
            } else {
                1int
            };
            let ok = fits(gross(*f)) && fits(moved(*f)) && match f.side {
                Side::Buy => q > EPS ==> fits(p.qty * p.avg_cost) && fits(
                    p.qty * p.avg_cost + turn(s, gross(*f)),
                ) && fits(p.qty * p.avg_cost + turn(s, gross(*f)) + turn(s, fee_money(*f))),
                Side::Sell => fits(f.qty * p.avg_cost) && fits(gross(*f) - f.qty * p.avg_cost)
                    && fits(gross(*f) - f.qty * p.avg_cost - fee_money(*f)),
            };
            match r {
                Some(c) => {
                    &&& ok
                    &&& c.avg_cost == cost_after(*p, *f, s)
                    &&& turn(s, c.pnl as int) == pnl_of(*p, *f, s)
                    &&& c.moved == moved(*f)
                },
                None => !ok,
            }
        }),
{
    assert(f.qty * f.px * 1_000_000 == (f.qty * f.px) * 1_000_000);
    assert(-0x4000_0000_0000_0000_0000_0000_0000_0000 <= f.qty * f.px
        <= 0x4000_0000_0000_0000_0000_0000_0000_0000) by (nonlinear_arith)
        requires
            -0x8000_0000_0000_0000 <= f.qty <= 0x7fff_ffff_ffff_ffff,
            -0x8000_0000_0000_0000 <= f.px <= 0x7fff_ffff_ffff_ffff,
    ;
    let g: i128 = match (f.qty as i128 * f.px as i128).checked_mul(1_000_000) {
        Some(x) => x,
        None => {
            return None;
        },
    };
    let fee: i128 = f.fee as i128 * 1_000_000_000_000;
    let buy: bool = f.side == Side::Buy;
    let moved: i128 = match plus(g, fee, !buy) {
        Some(x) => x,
        None => {
            return None;
        },
    };
    if buy {
        if q <= EPS as i128 {
            return Some(Change { avg_cost: p.avg_cost, pnl: 0, moved });
        }
        let basis: i128 = match (p.qty as i128).checked_mul(p.avg_cost) {
            Some(x) => x,
            None => {
                return None;
            },
        };
        let part: i128 = match plus(basis, g, back) {
            Some(x) => x,
            None => {
                return None;
            },
        };
        match plus(part, fee, back) {
            Some(x) => Some(Change { avg_cost: fixed::div_floor(x, q), pnl: 0, moved }),
            None => None,
        }
    } else {
        let out: i128 = match (f.qty as i128).checked_mul(p.avg_cost) {
            Some(x) => x,
            None => {
                return None;
            },
        };
        let part: i128 = match plus(g, out, true) {
            Some(x) => x,
            None => {
                return None;
            },
        };
        match plus(part, fee, true) {
            Some(pnl) => Some(Change { avg_cost: p.avg_cost, pnl, moved }),
            None => None,
        }
    }
}

impl PositionManager {
    /// All that the manager knows.
    pub closed spec fn state(&self) -> PmState {
        PmState {
            cash: self.cash_usdc as int,
            positions: self.positions@,
            active: match self.active_trade {
                Some(t) => Some(t@),
                None => None,
            },
            cooldown_until_ns: self.cooldown_until_ns as int,
            daily: self.daily,
            seen: self.seen_fills@,
        }
    }

    /// No position is short.
    pub open spec fn wf(&self) -> bool {
        state_wf(self.state())
    }

    /// A manager with this much cash (in money units) and nothing held.
    pub fn new(cash_usdc: i128) -> (r: PositionManager)
        ensures
            r.wf(),
            r.state().cash == cash_usdc,
            r.state().positions == Map::<Seq<char>, Position>::empty(),
            r.state().active is None,
            r.state().cooldown_until_ns == 0,
            r.state().daily == (DailyStats { realized: 0, fees: 0, n_trades: 0 }),
            r.state().seen == Map::<Seq<char>, FillStatus>::empty(),
    {
        PositionManager {
            cash_usdc,
            positions: StrMap::new(),
            active_trade: None,
            cooldown_until_ns: 0,
            daily: DailyStats { realized: 0, fees: 0, n_trades: 0 },
            seen_fills: StrMap::new(),
        }
    }

    /// The cash.
    pub fn cash(&self) -> (r: i128)
        ensures
            r == self.state().cash,
    {
        self.cash_usdc
    }

    /// The day's totals.
    pub fn daily(&self) -> (r: DailyStats)
        ensures
            r == self.state().daily,
    {
        self.daily
    }

    /// What is held of an instrument.
    pub fn qty(&self, instrument: &str) -> (r: i64)
        ensures
            r == held(self.state(), instrument@),
    {
        match self.positions.get(instrument) {
            Some(p) => p.qty,
            None => 0,
        }
    }

    /// The position in an instrument.
    pub fn position(&self, instrument: &str) -> (r: Option<&Position>)
        ensures
            match r {
                Some(p) => self.state().positions.contains_key(instrument@) && *p
                    == self.state().positions[instrument@],
                None => !self.state().positions.contains_key(instrument@),
            },
    {
        self.positions.get(instrument)
    }

    /// Claims the one trade slot: only where none is active and the cooldown is over.
    pub fn try_begin_trade(&mut self, trade_id: &str, now_ns: i64) -> (r: bool)
        ensures
            r == may_begin(old(self).state(), now_ns),
            final(self).state() == if r {
                PmState { active: Some(trade_id@), ..old(self).state() }
            } else {
                old(self).state()
            },
    {
        if self.active_trade.is_none() && now_ns >= self.cooldown_until_ns {
            self.active_trade = Some(trade_id.to_string());
            true
        } else {
            false
        }
    }

    /// Frees the slot and starts the cooldown; an end of the cooldown beyond the last
    /// instant is that instant.
    pub fn end_trade(&mut self, now_ns: i64, cooldown_ms: u64)
        ensures
            final(self).state() == ended(old(self).state(), now_ns, cooldown_ms),
    {
        self.active_trade = None;
        let until: i128 = now_ns as i128 + cooldown_ms as i128 * 1_000_000;
        self.cooldown_until_ns = if until > i64::MAX as i128 {
            i64::MAX
        } else {
            until as i64
        };
    }

    /// The id of the active trade.
    pub fn active_trade(&self) -> (r: Option<&str>)
        ensures
            match r {
                Some(t) => self.state().active == Some(t@),
                None => self.state().active is None,
            },
    {
        match &self.active_trade {
            Some(t) => Some(t.as_str()),
            None => None,
        }
    }

    /// Applies one fill: once per trade id, taken back where it fails later. An error
    /// means that the fill would break the long-only rule, or that an amount could not be
    /// held.
    pub fn apply_fill(&mut self, f: &Fill) -> (r: Result<(), FillError>)
        requires
            old(self).wf(),
        ensures
            final(self).wf(),
            match r {
                Ok(()) => fill_outcome(old(self).state(), *f) is None && final(self).state()
                    == filled(old(self).state(), *f),
                Err(e) => fill_outcome(old(self).state(), *f) == Some(e) && final(self).state()
                    == refused(old(self).state(), *f),
            },
    {
        let ghost st = self.state();
        let prev: Option<FillStatus> = match self.seen_fills.get(f.venue_trade_id.as_str()) {
            Some(s) => Some(*s),
            None => None,
        };
        let done: bool = match prev {
            Some(s) => s != FillStatus::Failed,
            None => false,
        };
        if let Some(s) = prev {
            if s == f.status {
                assert(st.seen.insert(f.venue_trade_id@, f.status) =~= st.seen);
                return Ok(());
            }
        }
        if f.status == FillStatus::Failed {
            if done {
                self.apply_math(f, true)?;
            }
        } else if !done {
            self.apply_math(f, false)?;
        }
        self.seen_fills.insert(f.venue_trade_id.clone(), f.status);
        Ok(())
    }

    /// Applies the arithmetic of a fill, or takes it back.
    fn apply_math(&mut self, f: &Fill, back: bool) -> (r: Result<(), FillError>)
        requires
            old(self).wf(),
        ensures
            final(self).wf(),
            ({
                let s = if back {
                    -1int
                } else {
                    1int
                };
                match r {
                    Ok(()) => fill_error(old(self).state(), *f, s) is None && final(self).state()
                        == applied(old(self).state(), *f, s),
                    Err(e) => fill_error(old(self).state(), *f, s) == Some(e) && final(self).state() == refused(old(self).state(), *f),
                }
            }),
    {
        let ghost st = self.state();
        let p: Position = match self.positions.get(f.instrument.as_str()) {
            Some(p) => p.clone(),
            None => Position::new(f.instrument.clone()),
        };
        assert(p == position_for(st, *f));
        assert(p.wf());
        self.positions.insert(f.instrument.clone(), p.clone());
        assert(self.state() == refused(st, *f));
        let ghost sg = if back { -1int } else { 1int };
        let buy: bool = f.side == Side::Buy;
        let q: i128 = if buy == back {
            p.qty as i128 - f.qty as i128
        } else {
            p.qty as i128 + f.qty as i128
        };
        assert(q == qty_after(p, *f, sg));
        if q < -(EPS as i128) {
            return Err(
                if buy {
                    FillError::Overdrawn { left: q as i64 }
                } else {
                    FillError::Oversold { qty: f.qty, held: p.qty }
                },
            );
        }
        if q > i64::MAX as i128 {
            return Err(FillError::TooLarge);
        }
        let c = match change_of(&p, f, back, q) {
            Some(c) => c,
            None => {
                return Err(FillError::TooLarge);
            },
        };
        let fee: i128 = f.fee as i128;
        let (realized, fees, cash, day, day_fees): (i128, i128, i128, i128, i128) = match (
            plus(p.realized_pnl, c.pnl, back),
            plus(p.fees_paid, fee, back),
            plus(self.cash_usdc, c.moved, buy != back),
            plus(self.daily.realized, c.pnl, back),
            plus(self.daily.fees, fee, back),
        ) {
            (Some(a), Some(b), Some(x), Some(d), Some(e)) => (a, b, x, d, e),
            _ => {
                return Err(FillError::TooLarge);
            },
        };
        let next = Position {
            instrument: p.instrument.clone(),
            qty: if q < 0 {
                0
            } else {
                q as i64
            },
            avg_cost: c.avg_cost,
            realized_pnl: realized,
            fees_paid: fees,
            mark_px: p.mark_px,
            status: p.status,
        };
        self.positions.insert(f.instrument.clone(), next);
        self.cash_usdc = cash;
        self.daily = DailyStats {
            realized: day,
            fees: day_fees,
            n_trades: self.daily.n_trades,
        };
        assert(self.state().positions =~= applied(st, *f, sg).positions);
        Ok(())
    }

    /// Marks a holding to a price.
    pub fn mark(&mut self, instrument: &str, best_bid: i64)
        requires
            old(self).wf(),
        ensures
            final(self).wf(),
            final(self).state() == if old(self).state().positions.contains_key(instrument@) {
                PmState {
                    positions: old(self).state().positions.insert(
                        instrument@,
                        Position {
                            mark_px: Some(best_bid),
                            ..old(self).state().positions[instrument@]
                        },
                    ),
                    ..old(self).state()
                }
            } else {
                old(self).state()
            },
    {
        let found: Option<Position> = match self.positions.get(instrument) {
            Some(p) => Some(p.clone()),
            None => None,
        };
        if let Some(mut p) = found {
            p.mark_px = Some(best_bid);
            self.positions.insert(instrument.to_string(), p);
        }
    }

    /// Sets where a position stands.
    pub fn set_status(&mut self, instrument: &str, status: PosStatus)
        requires
            old(self).wf(),
        ensures
            final(self).wf(),
            final(self).state() == with_status(old(self).state(), instrument@, status),
    {
        let found: Option<Position> = match self.positions.get(instrument) {
            Some(p) => Some(p.clone()),
            None => None,
        };
        if let Some(mut p) = found {
            p.status = status;
            self.positions.insert(instrument.to_string(), p);
        }
    }

    /// Settles a position at resolution: one unit a share where the instrument won, else
    /// nothing. `false`, with nothing changed, where an amount could not be held.
    pub fn settle(&mut self, instrument: &str, winner: &str) -> (r: bool)
        requires
            old(self).wf(),
        ensures
            final(self).wf(),
            r == settle_fits(old(self).state(), instrument@, winner@),
            final(self).state() == if r {
                settled(old(self).state(), instrument@, winner@)
            } else {
                old(self).state()
            },
    {
        let ghost st = self.state();
        let found: Option<Position> = match self.positions.get(instrument) {
            Some(p) => Some(p.clone()),
            None => None,
        };
        match found {
            None => true,
            Some(p) => {
                assert(p.wf());
                if p.qty < EPS {
                    return true;
                }
                let pay: i128 = if same(instrument, winner) {
                    1_000_000_000_000
                } else {
                    0
                };
                let gain: i128 = match pay.checked_sub(p.avg_cost) {
                    Some(x) => x,
                    None => {
                        return false;
                    },
                };
                let pnl: i128 = match (p.qty as i128).checked_mul(gain) {
                    Some(x) => x,
                    None => {
                        return false;
                    },
                };
                let paid: i128 = p.qty as i128 * pay;
                assert(pnl == payout_pnl(p, instrument@ == winner@));
                let (realized, day, cash): (i128, i128, i128) = match (
                    plus(p.realized_pnl, pnl, false),
                    plus(self.daily.realized, pnl, false),
                    plus(self.cash_usdc, paid, false),
                ) {
                    (Some(a), Some(b), Some(c)) => (a, b, c),
                    _ => {
                        return false;
                    },
                };
                let next = Position {
                    instrument: p.instrument.clone(),
                    qty: 0,
                    avg_cost: p.avg_cost,
                    realized_pnl: realized,
                    fees_paid: p.fees_paid,
                    mark_px: p.mark_px,
                    status: PosStatus::Settled,
                };
                self.positions.insert(instrument.to_string(), next);
                self.cash_usdc = cash;
                self.daily = DailyStats {
                    realized: day,
                    fees: self.daily.fees,
                    n_trades: self.daily.n_trades,
                };
                assert(self.state().positions =~= settled(st, instrument@, winner@).positions);
                true
            },
        }
    }

    /// What is held of an instrument, for publishing.
    pub fn snapshot(&self, instrument: &str) -> (r: Option<PositionSnapshot>)
        requires
            self.wf(),
        ensures
            match r {
                Some(s) => snapshot_of(self.state(), instrument@) == Some(s@),
                None => snapshot_of(self.state(), instrument@) is None,
            },
    {
        match self.positions.get(instrument) {
            None => None,
            Some(p) => Some(
                PositionSnapshot {
                    instrument: p.instrument.clone(),
                    qty: p.qty,
                    avg_cost: p.avg_cost,
                    realized_pnl: p.realized_pnl,
                    fees_paid: p.fees_paid,
                    mark_px: p.mark_px,
                    upnl: p.upnl(),
                    status: p.status.as_str().to_string(),
                    cash_usdc: self.cash_usdc,
                },
            ),
        }
    }
}

/// The state after a trade ended: the slot is free, and the cooldown runs.
pub open spec fn ended(st: PmState, now_ns: i64, cooldown_ms: u64) -> PmState {
    PmState {
        active: None,
        cooldown_until_ns: if now_ns + cooldown_ms * 1_000_000 > i64::MAX {
            i64::MAX as int
        } else {
            now_ns + cooldown_ms * 1_000_000
        },
        ..st
    }
}

/// Whether a trade may begin.
pub open spec fn may_begin(st: PmState, now_ns: i64) -> bool {
    st.active is None && now_ns >= st.cooldown_until_ns
}

/// The state with a position's status set, where there is such a position.
pub open spec fn with_status(st: PmState, inst: Seq<char>, status: PosStatus) -> PmState {
    if st.positions.contains_key(inst) {
        PmState {
            positions: st.positions.insert(inst, Position { status, ..st.positions[inst] }),
            ..st
        }
    } else {
        st
    }
}

/// What is published of an instrument.
pub open spec fn snapshot_of(st: PmState, inst: Seq<char>) -> Option<SnapV> {
    if st.positions.contains_key(inst) {
        let p = st.positions[inst];
        Some(
            SnapV {
                instrument: p.instrument@,
                qty: p.qty,
                avg_cost: p.avg_cost,
                realized_pnl: p.realized_pnl,
                fees_paid: p.fees_paid,
                mark_px: p.mark_px,
                upnl: p.upnl_spec(),
                status: p.status.name(),
                cash: st.cash,
            },
        )
    } else {
        None
    }
}

/// What a payout gains on a share, over its cost.
pub open spec fn payout_gain(p: Position, won: bool) -> int {
    if won {
        1_000_000_000_000 - p.avg_cost
    } else {
        0 - p.avg_cost
    }
}

/// What a payout adds to the realized profit of a position.
pub open spec fn payout_pnl(p: Position, won: bool) -> int {
    p.qty * payout_gain(p, won)
}

/// What a payout adds to the cash.
pub open spec fn payout_cash(p: Position, won: bool) -> int {
    p.qty * (if won {
        1_000_000_000_000int
    } else {
        0int
    })
}

/// Whether every amount that a settlement leads to, and each on the way to it, can be held.
pub open spec fn settle_fits(st: PmState, inst: Seq<char>, winner: Seq<char>) -> bool {
    held(st, inst) >= EPS ==> {
        let p = st.positions[inst];
        &&& fits(payout_gain(p, inst == winner))
        &&& fits(payout_pnl(p, inst == winner))
        &&& fits(p.realized_pnl + payout_pnl(p, inst == winner))
        &&& fits(st.daily.realized + payout_pnl(p, inst == winner))
        &&& fits(st.cash + payout_cash(p, inst == winner))
    }
}

/// The state after a settlement.
pub open spec fn settled(st: PmState, inst: Seq<char>, winner: Seq<char>) -> PmState {
    if held(st, inst) < EPS {
        st
    } else {
        let p = st.positions[inst];
        PmState {
            cash: st.cash + payout_cash(p, inst == winner),
            positions: st.positions.insert(
                inst,
                Position {
                    qty: 0,
                    realized_pnl: (p.realized_pnl + payout_pnl(p, inst == winner)) as i128,
                    status: PosStatus::Settled,
                    ..p
                },
            ),
            daily: DailyStats {
                realized: (st.daily.realized + payout_pnl(p, inst == winner)) as i128,
                ..st.daily
            },
            ..st
        }
    }
}

/// A fill delivered twice counts once: the second delivery changes nothing.
pub proof fn law_replayed_fill_counts_once(st: PmState, f: Fill)
    requires
        fill_outcome(st, f) is None,
    ensures
        fill_outcome(filled(st, f), f) is None,
        filled(filled(st, f), f) == filled(st, f),
{
    let t = filled(st, f);
    assert(t.seen.insert(f.venue_trade_id@, f.status) =~= t.seen);
}

/// A provisional sell that fails leaves no trace in the money or in the position.
pub proof fn law_failed_sell_is_undone(st: PmState, m: Fill, x: Fill)
    requires
        state_wf(st),
        m.side == Side::Sell,
        m.status == FillStatus::Matched,
        x == (Fill { status: FillStatus::Failed, ..m }),
        !st.seen.contains_key(m.venue_trade_id@),
        st.positions.contains_key(m.instrument@),
        m.qty <= held(st, m.instrument@),
        fill_outcome(st, m) is None,
    ensures
        fill_outcome(filled(st, m), x) is None,
        filled(filled(st, m), x).cash == st.cash,
        filled(filled(st, m), x).positions == st.positions,
        filled(filled(st, m), x).daily == st.daily,
{
    let a = filled(st, m);
    let b = filled(a, x);
    let p = st.positions[m.instrument@];
    let p1 = a.positions[m.instrument@];
    assert(p.wf());
    assert(fill_sign(st, m) == 1);
    assert(fill_sign(a, x) == -1);
    assert(position_for(a, x) == p1);
    assert(gross(x) == gross(m));
    assert(qty_after(p1, x, -1) == p.qty);
    assert(b.positions =~= st.positions);
}

/// A provisional buy that fails gives back the cash, the size and the fees.
pub proof fn law_failed_buy_is_undone(st: PmState, m: Fill, x: Fill)
    requires
        state_wf(st),
        m.side == Side::Buy,
        m.status == FillStatus::Matched,
        x == (Fill { status: FillStatus::Failed, ..m }),
        !st.seen.contains_key(m.venue_trade_id@),
        m.qty >= 0,
        fill_outcome(st, m) is None,
        fill_outcome(filled(st, m), x) is None,
    ensures
        filled(filled(st, m), x).cash == st.cash,
        held(filled(filled(st, m), x), m.instrument@) == held(st, m.instrument@),
        filled(filled(st, m), x).daily.fees == st.daily.fees,
        filled(filled(st, m), x).daily.realized == st.daily.realized,
{
    let a = filled(st, m);
    assert(position_for(st, m).wf());
    assert(fill_sign(st, m) == 1);
    assert(fill_sign(a, x) == -1);
    assert(gross(x) == gross(m));
}

/// No sequence of fills takes a position below zero.
pub proof fn law_long_only(st: PmState, f: Fill, inst: Seq<char>)
    requires
        state_wf(st),
    ensures
        held(st, inst) >= 0,
        fill_outcome(st, f) is None ==> state_wf(filled(st, f)),
        state_wf(refused(st, f)),
{
    assert(position_for(st, f).wf());
    if fill_outcome(st, f) is None {
        let t = filled(st, f);
        assert forall|k: Seq<char>| #[trigger] t.positions.contains_key(k) implies
            t.positions[k].wf() && t.positions[k].instrument@ == k by {
            if k != f.instrument@ {
                assert(st.positions.contains_key(k));
            }
        }
    }
}

/// Selling moves cost into profit and profit into cash: cash and cost of what is held,
/// less the realized profit, stay the same, on every sell within what is held.
pub proof fn law_sell_keeps_the_books(st: PmState, f: Fill)
    requires
        state_wf(st),
        f.side == Side::Sell,
        fill_sign(st, f) == 1,
        fill_outcome(st, f) is None,
        f.qty <= held(st, f.instrument@),
    ensures
        ({
            let t = filled(st, f);
            let p = position_for(st, f);
            let p1 = t.positions[f.instrument@];
            t.cash + p1.qty * p1.avg_cost - p1.realized_pnl == st.cash + p.qty * p.avg_cost
                - p.realized_pnl
        }),
{
    let t = filled(st, f);
    let p = position_for(st, f);
    let p1 = t.positions[f.instrument@];
    assert(p.wf());
    assert((p.qty - f.qty) * p.avg_cost == p.qty * p.avg_cost - f.qty * p.avg_cost)
        by (nonlinear_arith);
}

/// What a fill does that counts in. A buy costs its size times its price and its fee, and
/// adds its size; a sell earns its size times its price less its fee, takes its size off,
/// and realizes what it earned over the cost of what it sold. A fee is paid either way.
pub proof fn law_buys_cost_and_sells_earn(st: PmState, f: Fill)
    requires
        state_wf(st),
        fill_sign(st, f) == 1,
        fill_outcome(st, f) is None,
    ensures
        ({
            let t = filled(st, f);
            let inst = f.instrument@;
            let p = position_for(st, f);
            let n = t.positions[inst];
            let value = f.qty * f.px * 1_000_000;
            let fee = f.fee * 1_000_000_000_000;
            &&& t.positions.contains_key(inst)
            &&& n.fees_paid == p.fees_paid + f.fee
            &&& t.daily.fees == st.daily.fees + f.fee
            &&& f.side == Side::Buy ==> {
                &&& t.cash == st.cash - value - fee
                &&& p.qty + f.qty >= 0 ==> n.qty == p.qty + f.qty
                &&& n.realized_pnl == p.realized_pnl
                &&& t.daily.realized == st.daily.realized
                &&& p.qty + f.qty > EPS ==> n.avg_cost * (p.qty + f.qty) <= p.qty * p.avg_cost
                    + value + fee < (n.avg_cost + 1) * (p.qty + f.qty)
            }
            &&& f.side == Side::Sell ==> {
                &&& t.cash == st.cash + value - fee
                &&& p.qty - f.qty >= 0 ==> n.qty == p.qty - f.qty
                &&& n.realized_pnl == p.realized_pnl + value - f.qty * p.avg_cost - fee
                &&& t.daily.realized == st.daily.realized + value - f.qty * p.avg_cost - fee
                &&& n.avg_cost == p.avg_cost
            }
            &&& n.mark_px == p.mark_px && n.status == p.status
            &&& forall|k: Seq<char>|
                k != inst ==> (t.positions.contains_key(k) <==> st.positions.contains_key(k)) && (
                st.positions.contains_key(k) ==> #[trigger] t.positions[k] == st.positions[k])
            &&& t.active == st.active && t.cooldown_until_ns == st.cooldown_until_ns
        }),
{
    let p = position_for(st, f);
    if f.side == Side::Buy && p.qty + f.qty > EPS {
        let num = p.qty * p.avg_cost + gross(f) + fee_money(f);
        let d = p.qty + f.qty;
        vstd::arithmetic::div_mod::lemma_fundamental_div_mod(num, d);
        let q = num / d;
        assert(q * d <= num < (q + 1) * d) by (nonlinear_arith)
            requires
                num == d * q + num % d,
                0 <= num % d < d,
        ;
        assert(i128::MIN <= q <= i128::MAX) by (nonlinear_arith)
            requires
                q * d <= num < (q + 1) * d,
                d >= 1,
                i128::MIN <= num <= i128::MAX,
        ;
    }
}

/// When a fill counts: the first time its trade is told as matched or confirmed it is
/// counted in; a failure takes back what was counted in, and only that; any other telling
/// changes no money and no position.
pub proof fn law_when_a_fill_counts(st: PmState, f: Fill)
    ensures
        ({
            let id = f.venue_trade_id@;
            let known = st.seen.contains_key(id);
            let counted_in = known && (st.seen[id] == FillStatus::Matched || st.seen[id]
                == FillStatus::Confirmed);
            &&& fill_sign(st, f) == 1 <==> f.status != FillStatus::Failed && !counted_in
            &&& fill_sign(st, f) == -1 <==> f.status == FillStatus::Failed && counted_in
            &&& fill_sign(st, f) == 1 || fill_sign(st, f) == -1 || fill_sign(st, f) == 0
            &&& fill_sign(st, f) == 0 ==> fill_outcome(st, f) is None && filled(st, f).cash
                == st.cash && filled(st, f).positions == st.positions && filled(st, f).daily
                == st.daily
            &&& filled(st, f).seen.contains_key(id) && filled(st, f).seen[id] == f.status
        }),
{
}

/// A sell of more than is held, by more than the tolerance, is refused and changes no money
/// and no holding; one within it is not refused for that.
pub proof fn law_nothing_is_sold_short(st: PmState, f: Fill)
    requires
        state_wf(st),
        f.side == Side::Sell,
        fill_sign(st, f) == 1,
    ensures
        f.qty > held(st, f.instrument@) + EPS ==> fill_outcome(st, f) == Some(
            FillError::Oversold { qty: f.qty, held: held(st, f.instrument@) as i64 },
        ),
        f.qty <= held(st, f.instrument@) + EPS ==> !(fill_outcome(st, f) matches Some(
            FillError::Oversold { .. },
        )),
        refused(st, f).cash == st.cash,
        refused(st, f).daily == st.daily,
        refused(st, f).seen == st.seen,
        held(refused(st, f), f.instrument@) == held(st, f.instrument@),
{
}

/// A resolution pays one unit a share to the winner and nothing to the loser; what that is
/// over the cost is realized, and nothing is held any more.
pub proof fn law_winners_are_paid(st: PmState, inst: Seq<char>, winner: Seq<char>)
    requires
        state_wf(st),
        held(st, inst) >= EPS,
        settle_fits(st, inst, winner),
    ensures
        ({
            let t = settled(st, inst, winner);
            let p = st.positions[inst];
            let n = t.positions[inst];
            &&& inst == winner ==> t.cash == st.cash + p.qty * 1_000_000_000_000
            &&& inst != winner ==> t.cash == st.cash
            &&& inst == winner ==> n.realized_pnl == p.realized_pnl + p.qty * 1_000_000_000_000
                - p.qty * p.avg_cost
            &&& inst != winner ==> n.realized_pnl == p.realized_pnl - p.qty * p.avg_cost
            &&& t.daily.realized - st.daily.realized == n.realized_pnl - p.realized_pnl
            &&& held(t, inst) == 0
            &&& n.status == PosStatus::Settled
            &&& t.daily.fees == st.daily.fees && n.fees_paid == p.fees_paid
        }),
{
    let p = st.positions[inst];
    let u = 1_000_000_000_000int;
    assert(p.qty * (u - p.avg_cost) == p.qty * u - p.qty * p.avg_cost) by (nonlinear_arith);
    assert(p.qty * (0 - p.avg_cost) == -(p.qty * p.avg_cost)) by (nonlinear_arith);
}

/// A holding marked above its cost shows a gain, one marked below it a loss, and nothing
/// held shows neither.
pub proof fn law_marks_show_gain_and_loss(p: Position)
    ensures
        p.mark_px matches Some(m) ==> {
            &&& p.qty > 0 && m * 1_000_000 > p.avg_cost ==> p.upnl_spec() > 0
            &&& p.qty > 0 && m * 1_000_000 < p.avg_cost ==> p.upnl_spec() < 0
            &&& p.qty > 0 && m * 1_000_000 == p.avg_cost ==> p.upnl_spec() == 0
            &&& -0x4000_0000_0000_0000 <= p.avg_cost <= 0x4000_0000_0000_0000 && 0 < p.qty
                <= 0x1000_0000_0000 && 0 <= m <= 1_000_000 ==> p.upnl_spec() == p.qty * m * 1_000_000
                - p.qty * p.avg_cost
        },
        p.mark_px is None || p.qty <= 0 ==> p.upnl_spec() == 0,
{
    if p.mark_px is Some {
        let m = p.mark_px->0;
        let g = fixed::clamp128(m * 1_000_000 - p.avg_cost);
        assert(p.qty > 0 && g > 0 ==> p.qty * g > 0) by (nonlinear_arith);
        assert(p.qty > 0 && g < 0 ==> p.qty * g < 0) by (nonlinear_arith);
        assert(p.qty * 0 == 0);
        if -0x4000_0000_0000_0000 <= p.avg_cost <= 0x4000_0000_0000_0000 && 0 < p.qty
            <= 0x1000_0000_0000 && 0 <= m <= 1_000_000 {
            assert(p.qty * (m * 1_000_000 - p.avg_cost) == p.qty * m * 1_000_000 - p.qty
                * p.avg_cost) by (nonlinear_arith);
            let h = m * 1_000_000 - p.avg_cost;
            assert(-0x10_0000_0000_0000_0000_0000_0000_0000 <= p.qty * h
                <= 0x10_0000_0000_0000_0000_0000_0000_0000) by (nonlinear_arith)
                requires
                    -0x8000_0000_0000_0000 <= h <= 0x8000_0000_0000_0000,
                    0 < p.qty <= 0x1000_0000_0000,
            ;
        }
    }
}

/// A trade may begin exactly where none is active and the cooldown has run out; one that
/// ended starts it.
pub proof fn law_cooldowns_keep_trades_apart(st: PmState, now_ns: i64, cooldown_ms: u64, later_ns: i64)
    requires
        now_ns + cooldown_ms * 1_000_000 <= i64::MAX,
    ensures
        may_begin(ended(st, now_ns, cooldown_ms), later_ns) <==> later_ns - now_ns >= cooldown_ms
            * 1_000_000,
        st.active is Some ==> !may_begin(st, later_ns),
{
}

} // verus!
