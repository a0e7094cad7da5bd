//! The checks before a trade.
use vstd::prelude::*;
use std::collections::VecDeque;
use crate::executor::config::RiskCfg;
use crate::executor::types::BookTop;
use crate::fixed;
use crate::fixed::sat;
use crate::ring;
use crate::ring::drop_before;

verus! {

/// The length of the window that trades are counted over.
pub const RATE_WINDOW_NS: i64 = 60_000_000_000;

/// Why a trade is not let through, with the number that breaks the rule.
#[derive(Clone, Copy, Debug, PartialEq, Eq, Structural)]
pub enum RiskReject {
    KillSwitch,
    /// The book is this old.
    StaleBook { age_ms: i64 },
    OutsideBucket { ask: i64 },
    NearExpiry { tte_ms: i64 },
    NoExpiry,
    /// The signal is this old.
    StaleSignal { age_ms: i64 },
    /// The cost, in micro-units.
    Notional { cost: i64 },
    RateLimit,
}

/// Whole milliseconds between two instants.
pub open spec fn millis_between(from_ns: i64, to_ns: i64) -> i64 {
    fixed::toward_zero(fixed::clamp64(to_ns - from_ns), 1_000_000) as i64
}

fn millis(from_ns: i64, to_ns: i64) -> (r: i64)
    ensures
        r == millis_between(from_ns, to_ns),
{
    fixed::div_toward_zero(sat(to_ns as i128 - from_ns as i128), 1_000_000)
}

/// What lets trades through: its limits, the kill switch, and the starts of the latest trades.
pub struct RiskGate {
    cfg: RiskCfg,
    kill_switch: bool,
    trade_times_ns: VecDeque<(i64, ())>,
}

/// What is asked about a trade.
#[derive(Clone, Copy, Debug, PartialEq, Eq, Structural)]
pub struct Proposal {
    pub signal_ts_ns: i64,
    pub signal_ttl_ms: u64,
    pub book: BookTop,
    pub tte_ms: Option<i64>,
    pub now_ns: i64,
    pub size: i64,
    /// The traded token's ask.
    pub price: i64,
}

/// The first rule that a trade breaks, if any; `recent` is the number of trades started
/// within the rate window. The rules in their order: the kill switch; a fresh book; an ask
/// within the bucket; a known expiry, far enough off; a signal within its lifetime; a cost
/// within the cap; a rate within the limit.
pub open spec fn first_breach(cfg: RiskCfg, killed: bool, recent: int, p: Proposal) -> Option<
    RiskReject,
> {
    if killed {
        Some(RiskReject::KillSwitch)
    } else if p.now_ns - p.book.recv_ts_ns > cfg.stale_ms * 1_000_000 {
        Some(RiskReject::StaleBook { age_ms: millis_between(p.book.recv_ts_ns, p.now_ns) })
    } else if !(cfg.yes_bucket.0 <= p.price <= cfg.yes_bucket.1) {
        Some(RiskReject::OutsideBucket { ask: p.price })
    } else if p.tte_ms is None {
        Some(RiskReject::NoExpiry)
    } else if p.tte_ms->0 < cfg.min_tte_ms {
        Some(RiskReject::NearExpiry { tte_ms: p.tte_ms->0 })
    } else if p.now_ns - p.signal_ts_ns > p.signal_ttl_ms * 1_000_000 {
        Some(RiskReject::StaleSignal { age_ms: millis_between(p.signal_ts_ns, p.now_ns) })
    } else if p.size * p.price > cfg.max_order_notional * 1_000_000 {
        Some(
            RiskReject::Notional {
                cost: fixed::clamp64(p.size * p.price / 1_000_000) as i64,
            },
        )
    } else if recent >= cfg.max_trades_per_min {
        Some(RiskReject::RateLimit)
    } else {
        None
    }
}

/// The starts that are kept after a check: those out of the window are forgotten once a
/// trade gets as far as the rate limit.
pub open spec fn starts_after_check(
    starts: Seq<(i64, ())>,
    breach: Option<RiskReject>,
    now_ns: i64,
) -> Seq<(i64, ())> {
    if breach is None || breach == Some(RiskReject::RateLimit) {
        ring::dropped(starts, now_ns - RATE_WINDOW_NS)
    } else {
        starts
    }
}

impl RiskGate {
    /// The limits.
    pub closed spec fn limits(&self) -> RiskCfg {
        self.cfg
    }

    /// Whether the kill switch is on.
    pub closed spec fn is_killed(&self) -> bool {
        self.kill_switch
    }

    /// The starts of the trades that still count, oldest first.
    pub closed spec fn starts(&self) -> Seq<(i64, ())> {
        self.trade_times_ns@
    }

    /// A gate with these limits and no history.
    pub fn new(cfg: RiskCfg) -> (r: RiskGate)
        ensures
            r.limits() == cfg,
            !r.is_killed(),
            r.starts().len() == 0,
    {
        RiskGate { cfg, kill_switch: false, trade_times_ns: VecDeque::new() }
    }

    /// Whether the kill switch is on.
    pub fn killed(&self) -> (r: bool)
        ensures
            r == self.is_killed(),
    {
        self.kill_switch
    }

    /// Turns the kill switch on; `true` where it was off.
    pub fn trip(&mut self) -> (r: bool)
        ensures
            final(self).is_killed(),
            final(self).limits() == old(self).limits(),
            final(self).starts() == old(self).starts(),
            r == !old(self).is_killed(),
    {
        let first: bool = !self.kill_switch;
        self.kill_switch = true;
        first
    }

    /// Turns the kill switch off.
    pub fn resume(&mut self)
        ensures
            !final(self).is_killed(),
            final(self).limits() == old(self).limits(),
            final(self).starts() == old(self).starts(),
    {
        self.kill_switch = false;
    }

    /// Counts a trade that starts now, and forgets those out of the window.
    pub fn note_trade(&mut self, now_ns: i64)
        ensures
            final(self).starts() == ring::dropped(
                old(self).starts().push((now_ns, ())),
                now_ns - RATE_WINDOW_NS,
            ),
            final(self).limits() == old(self).limits(),
            final(self).is_killed() == old(self).is_killed(),
    {
        self.trade_times_ns.push_back((now_ns, ()));
        self.prune_rate_window(now_ns);
    }

    /// Forgets the trades that started before the window.
    fn prune_rate_window(&mut self, now_ns: i64)
        ensures
            final(self).starts() == ring::dropped(old(self).starts(), now_ns - RATE_WINDOW_NS),
            final(self).limits() == old(self).limits(),
            final(self).is_killed() == old(self).is_killed(),
    {
        drop_before(&mut self.trade_times_ns, now_ns as i128 - RATE_WINDOW_NS as i128);
    }

    /// Lets a trade through, or says which rule it breaks first.
    pub fn check(&mut self, p: &Proposal) -> (r: Result<(), RiskReject>)
        ensures
            ({
                let recent = ring::dropped(old(self).starts(), p.now_ns - RATE_WINDOW_NS).len();
                let b = first_breach(old(self).limits(), old(self).is_killed(), recent as int, *p);
                &&& match r {
                    Ok(()) => b is None,
                    Err(e) => b == Some(e),
                }
                &&& final(self).starts() == starts_after_check(old(self).starts(), b, p.now_ns)
            }),
            final(self).limits() == old(self).limits(),
            final(self).is_killed() == old(self).is_killed(),
    {
        if self.kill_switch {
            return Err(RiskReject::KillSwitch);
        }
        if p.now_ns as i128 - p.book.recv_ts_ns as i128 > self.cfg.stale_ms as i128 * 1_000_000 {
            return Err(RiskReject::StaleBook { age_ms: millis(p.book.recv_ts_ns, p.now_ns) });
        }
        if !(p.price >= self.cfg.yes_bucket.0 && p.price <= self.cfg.yes_bucket.1) {
            return Err(RiskReject::OutsideBucket { ask: p.price });
        }
        match p.tte_ms {
            None => {
                return Err(RiskReject::NoExpiry);
            },
            Some(t) => {
                if t < self.cfg.min_tte_ms {
                    return Err(RiskReject::NearExpiry { tte_ms: t });
                }
            },
        }
        if p.now_ns as i128 - p.signal_ts_ns as i128 > p.signal_ttl_ms as i128 * 1_000_000 {
            return Err(RiskReject::StaleSignal { age_ms: millis(p.signal_ts_ns, p.now_ns) });
        }
        assert(-85070591730234615865843651857942052864 <= p.size * p.price
            <= 85070591730234615865843651857942052864) by (nonlinear_arith)
            requires
                -9223372036854775808 <= p.size <= 9223372036854775808,
                -9223372036854775808 <= p.price <= 9223372036854775808,
        ;
        if p.size as i128 * p.price as i128 > self.cfg.max_order_notional as i128 * 1_000_000 {
            return Err(
                RiskReject::Notional {
                    cost: sat(fixed::div_floor(p.size as i128 * p.price as i128, 1_000_000)),
                },
            );
        }
        self.prune_rate_window(p.now_ns);
        if self.trade_times_ns.len() as u64 >= self.cfg.max_trades_per_min as u64 {
            return Err(RiskReject::RateLimit);
        }
        Ok(())
    }
}

/// With the kill switch on nothing gets through, whatever the trade.
pub proof fn law_kill_switch_stops_everything(cfg: RiskCfg, recent: int, p: Proposal)
    ensures
        first_breach(cfg, true, recent, p) == Some(RiskReject::KillSwitch),
{
}

/// A trade that gets through keeps every limit.
pub proof fn law_passed_trade_keeps_the_limits(cfg: RiskCfg, killed: bool, recent: int, p: Proposal)
    requires
        first_breach(cfg, killed, recent, p) is None,
    ensures
        !killed,
        cfg.yes_bucket.0 <= p.price <= cfg.yes_bucket.1,
        p.tte_ms is Some && p.tte_ms->0 >= cfg.min_tte_ms,
        p.size * p.price <= cfg.max_order_notional * 1_000_000,
        recent < cfg.max_trades_per_min,
{
}

/// A trade gets through exactly where every limit is kept: the switch is off, the book and
/// the signal are young enough, the price is in the bucket, the end is known and far enough
/// off, the cost is within the cap, and there is room in the rate.
pub proof fn law_trades_within_all_limits_get_through(
    cfg: RiskCfg,
    killed: bool,
    recent: int,
    p: Proposal,
)
    ensures
        first_breach(cfg, killed, recent, p) is None <==> {
            &&& !killed
            &&& p.now_ns - p.book.recv_ts_ns <= cfg.stale_ms * 1_000_000
            &&& cfg.yes_bucket.0 <= p.price && p.price <= cfg.yes_bucket.1
            &&& p.tte_ms is Some && p.tte_ms->0 >= cfg.min_tte_ms
            &&& p.now_ns - p.signal_ts_ns <= p.signal_ttl_ms * 1_000_000
            &&& p.size * p.price <= cfg.max_order_notional * 1_000_000
            &&& recent < cfg.max_trades_per_min
        },
{
}

/// Each refusal says which limit was broken, and by how much.
pub proof fn law_refusals_tell_the_limit(cfg: RiskCfg, recent: int, p: Proposal)
    requires
        0 <= p.now_ns && 0 <= p.book.recv_ts_ns && 0 <= p.signal_ts_ns,
    ensures
        first_breach(cfg, false, recent, p) matches Some(RiskReject::StaleBook { age_ms }) ==> p.now_ns
            - p.book.recv_ts_ns > cfg.stale_ms * 1_000_000 && (p.now_ns >= p.book.recv_ts_ns
            ==> age_ms * 1_000_000 <= p.now_ns - p.book.recv_ts_ns < (age_ms + 1) * 1_000_000),
        first_breach(cfg, false, recent, p) matches Some(RiskReject::OutsideBucket { ask }) ==> ask
            == p.price && (ask < cfg.yes_bucket.0 || ask > cfg.yes_bucket.1),
        first_breach(cfg, false, recent, p) matches Some(RiskReject::NearExpiry { tte_ms })
            ==> p.tte_ms == Some(tte_ms) && tte_ms < cfg.min_tte_ms,
        first_breach(cfg, false, recent, p) == Some(RiskReject::NoExpiry) ==> p.tte_ms is None,
        first_breach(cfg, false, recent, p) matches Some(RiskReject::StaleSignal { age_ms })
            ==> p.now_ns - p.signal_ts_ns > p.signal_ttl_ms * 1_000_000 && (p.now_ns
            >= p.signal_ts_ns ==> age_ms * 1_000_000 <= p.now_ns - p.signal_ts_ns < (age_ms + 1)
            * 1_000_000),
        first_breach(cfg, false, recent, p) matches Some(RiskReject::Notional { .. }) ==> p.size
            * p.price > cfg.max_order_notional * 1_000_000,
        first_breach(cfg, false, recent, p) == Some(RiskReject::RateLimit) ==> recent
            >= cfg.max_trades_per_min,
        first_breach(cfg, false, recent, p) != Some(RiskReject::KillSwitch),
{
}

/// The rate counts the trades of the last minute.
pub proof fn law_the_rate_is_of_the_last_minute(starts: Seq<(i64, ())>, now_ns: i64)
    requires
        ring::in_order(starts),
    ensures
        starts_after_check(starts, None, now_ns) == starts.filter(
            |x: (i64, ())| x.0 >= now_ns - 60_000_000_000,
        ),
        starts_after_check(starts, Some(RiskReject::RateLimit), now_ns) == starts.filter(
            |x: (i64, ())| x.0 >= now_ns - 60_000_000_000,
        ),
        starts_after_check(starts, Some(RiskReject::KillSwitch), now_ns) == starts,
{
    ring::law_dropped_keeps_the_recent(starts, now_ns - 60_000_000_000);
}

} // verus!
