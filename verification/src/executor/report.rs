//! What is said of a trade beside its state.
use vstd::prelude::*;
use crate::executor::config::RiskCfg;
use crate::executor::engine::Note;
use crate::executor::plan::Reject;
use crate::executor::position::FillError;
use crate::executor::risk::RiskReject;
use crate::executor::slot::GateReject;
use crate::numeral;
use crate::numeral::{micros_to_text, push_i64, push_money, push_places, push_u64, push_whole};

verus! {

/// An amount in micro-units with two places.
pub open spec fn two(x: int) -> Seq<char> {
    numeral::places(x, 10_000, 100, 2, false)
}

/// An amount in micro-units with three places.
pub open spec fn three(x: int) -> Seq<char> {
    numeral::places(x, 1_000, 1_000, 3, false)
}

/// An amount in micro-units with four places.
pub open spec fn four(x: int) -> Seq<char> {
    numeral::places(x, 100, 10_000, 4, false)
}

/// An amount in micro-units with as many places as it needs, and at least one.
pub open spec fn shown(x: int) -> Seq<char> {
    numeral::micros_text(x) + if x % 1_000_000 == 0 {
        ".0"@
    } else {
        Seq::empty()
    }
}

/// Why a fill was not applied, in words.
pub open spec fn fill_words(e: FillError) -> Seq<char> {
    match e {
        FillError::Oversold { qty, held } => "long-only violation: sell "@ + four(qty as int)
            + " exceeds held "@ + four(held as int),
        FillError::Overdrawn { left } => "long-only violation: buy reverse would drive qty "@
            + four(left as int) + " < 0"@,
        FillError::TooLarge => "amount too large"@,
    }
}

/// Why the limits refuse a trade, in words.
pub open spec fn risk_words(r: RiskReject, c: RiskCfg) -> Seq<char> {
    match r {
        RiskReject::KillSwitch => "kill switch engaged"@,
        RiskReject::StaleBook { age_ms } => "stale book ("@ + numeral::int_text(age_ms as int)
            + "ms)"@,
        RiskReject::OutsideBucket { ask } => "ask "@ + three(ask as int) + " outside bucket ("@
            + shown(c.yes_bucket.0 as int) + ", "@ + shown(c.yes_bucket.1 as int) + ")"@,
        RiskReject::NearExpiry { tte_ms } => "tte "@ + numeral::int_text(tte_ms as int)
            + "ms < min "@ + numeral::int_text(c.min_tte_ms as int) + "ms"@,
        RiskReject::NoExpiry => "no expiry meta"@,
        RiskReject::StaleSignal { age_ms } => "signal stale ("@ + numeral::int_text(age_ms as int)
            + "ms)"@,
        RiskReject::Notional { cost } => "notional "@ + two(cost as int) + " > max "@ + two(
            c.max_order_notional as int,
        ),
        RiskReject::RateLimit => "rate limit "@ + numeral::dec(c.max_trades_per_min as nat)
            + " trades/min"@,
    }
}

/// Why a signal is not traded, in words. `said` is what the venue answered to a cancel.
pub open spec fn reject_words(r: Reject, c: RiskCfg, reconciles: bool, said: Seq<char>) -> Seq<
    char,
> {
    match r {
        Reject::BalanceKill => "real-balance kill switch"@,
        Reject::NoBook => "no book in mirror"@,
        Reject::TooSmall { size } => "size "@ + two(size as int) + " < min"@,
        Reject::Risk(x) => risk_words(x, c),
        Reject::Busy => if reconciles {
            "cooldown"@
        } else {
            "active trade / cooldown"@
        },
        Reject::NoMarket => "no market id"@,
        Reject::Gate(GateReject::InFlight) => "entry in flight"@,
        Reject::Gate(GateReject::Transit) => "entry transit gate"@,
        Reject::Gate(GateReject::Exposure) => "exposure cap"@,
        Reject::CancelFailed => "cancel resting close failed: "@ + said,
    }
}

/// What a note says beside its state. `said` is what the venue answered to a cancel, or the
/// winner that the catalog told.
pub open spec fn note_words(n: Note, c: RiskCfg, reconciles: bool, said: Seq<char>) -> Seq<char> {
    match n {
        Note::Rejected(r) => reject_words(r, c, reconciles, said),
        Note::Entering { size } => "size="@ + two(size as int),
        Note::Shadow => "dry_run: probe only, no order"@,
        Note::TtlElapsed => "entry ttl elapsed"@,
        Note::RanAway => "ask ran past chase cap"@,
        Note::VenueReject(why) => why@,
        Note::Abandoned => "no entry fill"@,
        Note::Holding { leg } => "qty="@ + two(leg.qty as int) + " @ "@ + three(leg.vwap_spec())
            + (if reconciles {
            " (exit: reconciler)"@
        } else {
            Seq::empty()
        }),
        Note::Exiting => Seq::empty(),
        Note::ExitFillError(_) => "exit fill-apply error"@,
        Note::Closed { leg } => "exit qty="@ + two(leg.qty as int) + " @ "@ + three(
            leg.vwap_spec(),
        ),
        Note::Pending { qty } => "ALERT: long "@ + two(qty as int)
            + " at exit deadline; awaiting resolution"@,
        Note::Halt(FillError::TooLarge) => "amount too large — see logs"@,
        Note::Halt(_) => "long-only violation — see logs"@,
        Note::LiquidationSkip { qty, px } => two(qty as int) + " @ "@ + three(px as int)
            + ": already flat (normal exit beat the liquidator)"@,
        Note::Liquidated { qty, px } => two(qty as int) + " @ "@ + three(px as int)
            + " (near expiry, sim)"@,
        Note::LiquidationHalt(e) => "fill error: "@ + fill_words(e),
        Note::CloseSkip => "close fill on already-flat PM (accounting)"@,
        Note::CloseFill { qty, px, held } => "close fill "@ + numeral::whole(qty as int) + " @ "@
            + three(px as int) + " (held "@ + numeral::whole(held as int) + ")"@,
        Note::CloseFlat { realized } => "flat; realized_total="@ + numeral::places(
            realized as int,
            100_000_000_000_000,
            10_000,
            4,
            false,
        ),
        Note::CloseHalt(e) => "close fill: "@ + fill_words(e),
        Note::Settled => "winner="@ + said,
        Note::SettleHalt => "amount too large"@,
    }
}

fn push_two(s: &mut String, x: i64)
    ensures
        final(s)@ == old(s)@ + two(x as int),
{
    push_places(s, x, 10_000, 100, 2, false);
}

fn push_three(s: &mut String, x: i64)
    ensures
        final(s)@ == old(s)@ + three(x as int),
{
    push_places(s, x, 1_000, 1_000, 3, false);
}

fn push_four(s: &mut String, x: i64)
    ensures
        final(s)@ == old(s)@ + four(x as int),
{
    push_places(s, x, 100, 10_000, 4, false);
}

fn push_shown(s: &mut String, x: i64)
    ensures
        final(s)@ == old(s)@ + shown(x as int),
{
    let ghost s0 = s@;
    s.append(micros_to_text(x).as_str());
    if x % 1_000_000 == 0 {
        s.append(".0");
    }
    proof {
        if x < 0 {
            vstd::arithmetic::div_mod::lemma_fundamental_div_mod(-x as int, 1_000_000);
        }
    }
    assert(s@ =~= s0 + shown(x as int));
}

/// Why a fill was not applied, in words.
pub fn fill_text(e: &FillError) -> (s: String)
    ensures
        s@ == fill_words(*e),
{
    let mut s = String::new();
    match e {
        FillError::Oversold { qty, held } => {
            s.append("long-only violation: sell ");
            push_four(&mut s, *qty);
            s.append(" exceeds held ");
            push_four(&mut s, *held);
        },
        FillError::Overdrawn { left } => {
            s.append("long-only violation: buy reverse would drive qty ");
            push_four(&mut s, *left);
            s.append(" < 0");
        },
        FillError::TooLarge => {
            s.append("amount too large");
        },
    }
    assert(s@ =~= fill_words(*e));
    s
}

/// Why the limits refuse a trade, in words.
pub fn risk_text(r: &RiskReject, c: &RiskCfg) -> (s: String)
    ensures
        s@ == risk_words(*r, *c),
{
    let mut s = String::new();
    match r {
        RiskReject::KillSwitch => {
            s.append("kill switch engaged");
        },
        RiskReject::StaleBook { age_ms } => {
            s.append("stale book (");
            push_i64(&mut s, *age_ms);
            s.append("ms)");
        },
        RiskReject::OutsideBucket { ask } => {
            s.append("ask ");
            push_three(&mut s, *ask);
            s.append(" outside bucket (");
            push_shown(&mut s, c.yes_bucket.0);
            s.append(", ");
            push_shown(&mut s, c.yes_bucket.1);
            s.append(")");
        },
        RiskReject::NearExpiry { tte_ms } => {
            s.append("tte ");
            push_i64(&mut s, *tte_ms);
            s.append("ms < min ");
            push_i64(&mut s, c.min_tte_ms);
            s.append("ms");
        },
        RiskReject::NoExpiry => {
            s.append("no expiry meta");
        },
        RiskReject::StaleSignal { age_ms } => {
            s.append("signal stale (");
            push_i64(&mut s, *age_ms);
            s.append("ms)");
        },
        RiskReject::Notional { cost } => {
            s.append("notional ");
            push_two(&mut s, *cost);
            s.append(" > max ");
            push_two(&mut s, c.max_order_notional);
        },
        RiskReject::RateLimit => {
            s.append("rate limit ");
            push_u64(&mut s, c.max_trades_per_min as u64);
            s.append(" trades/min");
        },
    }
    assert(s@ =~= risk_words(*r, *c));
    s
}

/// Why a signal is not traded, in words.
pub fn reject_text(r: &Reject, c: &RiskCfg, reconciles: bool, said: &str) -> (s: String)
    ensures
        s@ == reject_words(*r, *c, reconciles, said@),
{
    let mut s = String::new();
    match r {
        Reject::BalanceKill => {
            s.append("real-balance kill switch");
        },
        Reject::NoBook => {
            s.append("no book in mirror");
        },
        Reject::TooSmall { size } => {
            s.append("size ");
            push_two(&mut s, *size);
            s.append(" < min");
        },
        Reject::Risk(x) => {
            return risk_text(x, c);
        },
        Reject::Busy => {
            if reconciles {
                s.append("cooldown");
            } else {
                s.append("active trade / cooldown");
            }
        },
        Reject::NoMarket => {
            s.append("no market id");
        },
        Reject::Gate(GateReject::InFlight) => {
            s.append("entry in flight");
        },
        Reject::Gate(GateReject::Transit) => {
            s.append("entry transit gate");
        },
        Reject::Gate(GateReject::Exposure) => {
            s.append("exposure cap");
        },
        Reject::CancelFailed => {
            s.append("cancel resting close failed: ");
            s.append(said);
        },
    }
    assert(s@ =~= reject_words(*r, *c, reconciles, said@));
    s
}

/// What a note says beside its state.
pub fn note_text(n: &Note, c: &RiskCfg, reconciles: bool, said: &str) -> (s: String)
    ensures
        s@ == note_words(*n, *c, reconciles, said@),
{
    let mut s = String::new();
    match n {
        Note::Rejected(r) => {
            return reject_text(r, c, reconciles, said);
        },
        Note::Entering { size } => {
            s.append("size=");
            push_two(&mut s, *size);
        },
        Note::Shadow => {
            s.append("dry_run: probe only, no order");
        },
        Note::TtlElapsed => {
            s.append("entry ttl elapsed");
        },
        Note::RanAway => {
            s.append("ask ran past chase cap");
        },
        Note::VenueReject(why) => {
            s.append(why.as_str());
        },
        Note::Abandoned => {
            s.append("no entry fill");
        },
        Note::Holding { leg } => {
            s.append("qty=");
            push_two(&mut s, leg.qty);
            s.append(" @ ");
            push_three(&mut s, leg.vwap());
            if reconciles {
                s.append(" (exit: reconciler)");
            }
        },
        Note::Exiting => {},
        Note::ExitFillError(_) => {
            s.append("exit fill-apply error");
        },
        Note::Closed { leg } => {
            s.append("exit qty=");
            push_two(&mut s, leg.qty);
            s.append(" @ ");
            push_three(&mut s, leg.vwap());
        },
        Note::Pending { qty } => {
            s.append("ALERT: long ");
            push_two(&mut s, *qty);
            s.append(" at exit deadline; awaiting resolution");
        },
        Note::Halt(FillError::TooLarge) => {
            s.append("amount too large — see logs");
        },
        Note::Halt(_) => {
            s.append("long-only violation — see logs");
        },
        Note::LiquidationSkip { qty, px } => {
            push_two(&mut s, *qty);
            s.append(" @ ");
            push_three(&mut s, *px);
            s.append(": already flat (normal exit beat the liquidator)");
        },
        Note::Liquidated { qty, px } => {
            push_two(&mut s, *qty);
            s.append(" @ ");
            push_three(&mut s, *px);
            s.append(" (near expiry, sim)");
        },
        Note::LiquidationHalt(e) => {
            s.append("fill error: ");
            s.append(fill_text(e).as_str());
        },
        Note::CloseSkip => {
            s.append("close fill on already-flat PM (accounting)");
        },
        Note::CloseFill { qty, px, held } => {
            s.append("close fill ");
            push_whole(&mut s, *qty);
            s.append(" @ ");
            push_three(&mut s, *px);
            s.append(" (held ");
            push_whole(&mut s, *held);
            s.append(")");
        },
        Note::CloseFlat { realized } => {
            s.append("flat; realized_total=");
            push_money(&mut s, *realized);
        },
        Note::CloseHalt(e) => {
            s.append("close fill: ");
            s.append(fill_text(e).as_str());
        },
        Note::Settled => {
            s.append("winner=");
            s.append(said);
        },
        Note::SettleHalt => {
            s.append("amount too large");
        },
    }
    assert(s@ =~= note_words(*n, *c, reconciles, said@));
    s
}

} // verus!
