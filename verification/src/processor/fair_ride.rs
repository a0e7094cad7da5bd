//! Riding the gap between a fair price and the market: when to ask for a fair price, what
//! it has to be for a crossing, and which crossings are worth a trade. The fair price
//! itself comes from a surface that is asked for it, in billionths.
use vstd::prelude::*;
use std::collections::VecDeque;
use crate::event::{Event, Payload};
use crate::fixed;
use crate::fixed::{abs64, div_toward_zero, max64, product, sat, sum128};
use crate::model::{CalibUpdate, MarketStatus, TradeSignal, Trigger};
use crate::numeral;
use crate::numeral::{push_places, push_u64};
use crate::processor::features;
use crate::processor::features::{copy_ratios, FeatureState, Ratio};
use crate::processor::features::FeatureV;
use crate::processor::state;
use crate::processor::state::MarketState;
use crate::processor::state::{InstrumentV, MarketStateV};
use crate::ring;
use crate::ring::drop_before;
use crate::strmap;
use crate::strmap::StrMap;
use crate::text;
use crate::text::{ends_with, joined, same};

verus! {

/// The rule's settings. Gaps are in billionths, times in nanoseconds or milliseconds.
#[derive(Debug)]
pub struct FairRideCfg {
    pub model_path: String,
    /// The instrument whose price the surface reads.
    pub reference: String,
    /// The instrument that the basis is taken against.
    pub basis_reference: String,
    /// How large a gap has to be.
    pub delta: i64,
    /// The share of the gap's opening that the model has to have made, in millionths.
    pub share_min: i32,
    /// How far the gap has to have opened over the lookback.
    pub open_min: i64,
    /// How small the gap has to become again.
    pub rearm_eps: i64,
    pub entry_min_tte_ns: i64,
    pub entry_max_tte_ns: i64,
    pub max_entries_per_event: u8,
    pub lookback_min_ms: i64,
    pub lookback_max_ms: i64,
    /// A fit is stale once a refit is overdue by the grace time.
    pub refit_every_ns: i64,
    pub calib_grace_ns: i64,
    pub stale_ms: i64,
    pub max_spread: i64,
    pub ref_max_age_ms: i64,
    pub hold_ms: u64,
    pub ttl_ms: u64,
    /// Where positive, the gap is taken against its mean over this time.
    pub demean_window_ns: i64,
    /// Where positive, a crossing is not traded if the basis reference is older than this.
    pub stale_veto_ns: i64,
}

impl Default for FairRideCfg {
    fn default() -> (r: FairRideCfg)
        ensures
            r.model_path@ == "models/fair-cb-x60.json"@,
            r.reference@ == "coinbase.BTC"@,
            r.basis_reference@ == "coinbase.BTC"@,
            r.delta == 50_000_000,
            r.share_min == 750_000,
            r.open_min == 5_000_000,
            r.rearm_eps == 20_000_000,
            r.entry_min_tte_ns == 60_000_000_000,
            r.entry_max_tte_ns == 300_000_000_000,
            r.max_entries_per_event == 3,
            r.lookback_min_ms == 1000,
            r.lookback_max_ms == 10000,
            r.refit_every_ns == 60_000_000_000,
            r.calib_grace_ns == 30_000_000_000,
            r.stale_ms == 1500,
            r.max_spread == 150_000,
            r.ref_max_age_ms == 5000,
            r.hold_ms == 0,
            r.ttl_ms == 500,
            r.demean_window_ns == 0,
            r.stale_veto_ns == 0,
    {
        FairRideCfg {
            model_path: "models/fair-cb-x60.json".to_string(),
            reference: "coinbase.BTC".to_string(),
            basis_reference: "coinbase.BTC".to_string(),
            delta: 50_000_000,
            share_min: 750_000,
            open_min: 5_000_000,
            rearm_eps: 20_000_000,
            entry_min_tte_ns: 60_000_000_000,
            entry_max_tte_ns: 300_000_000_000,
            max_entries_per_event: 3,
            lookback_min_ms: 1000,
            lookback_max_ms: 10000,
            refit_every_ns: 60_000_000_000,
            calib_grace_ns: 30_000_000_000,
            stale_ms: 1500,
            max_spread: 150_000,
            ref_max_age_ms: 5000,
            hold_ms: 0,
            ttl_ms: 500,
            demean_window_ns: 0,
            stale_veto_ns: 0,
        }
    }
}

/// One look at a market and its references: raw, so that it can be priced again under
/// another fit. Mids are in halves of a micro-unit.
#[derive(Debug)]
pub struct Sample {
    pub px: i64,
    pub px2: Option<i64>,
    pub mid: i64,
    pub feats: Vec<Ratio>,
}

/// A sample, as the contracts see it.
pub struct SampleV {
    pub px: i64,
    pub px2: Option<i64>,
    pub mid: i64,
    pub feats: Seq<Ratio>,
}

impl View for Sample {
    type V = SampleV;

    open spec fn view(&self) -> SampleV {
        SampleV { px: self.px, px2: self.px2, mid: self.mid, feats: self.feats@ }
    }
}

/// The views of a run of samples.
pub open spec fn sample_views(s: Seq<(i64, Sample)>) -> Seq<(i64, SampleV)> {
    Seq::new(s.len(), |i: int| (s[i].0, s[i].1@))
}

/// What a fit is known by.
#[derive(Clone, Copy, Debug, PartialEq, Eq, Structural)]
pub struct Fit {
    pub seq: u64,
    pub fitted_at_tte_ms: i64,
    pub model_hash: u64,
}

/// A question to the surface: the fair price of a sample, under a fit.
#[derive(Debug)]
pub struct Query {
    pub px: i64,
    pub px2: Option<i64>,
    pub tte_ns: i64,
    pub strike: i64,
    pub fit: u64,
    pub feats: Vec<Ratio>,
}

/// Whether a query asks for the fair price of a sample.
pub open spec fn asks(q: Query, s: SampleV, tte_ns: int, strike: i64, fit: u64) -> bool {
    &&& q.px == s.px
    &&& q.px2 == s.px2
    &&& q.tte_ns == fixed::clamp64(tte_ns)
    &&& q.strike == strike
    &&& q.fit == fit
    &&& q.feats@ == s.feats
}

fn query_of(s: &Sample, tte_ns: i128, strike: i64, fit: u64) -> (r: Query)
    ensures
        asks(r, s@, tte_ns as int, strike, fit),
{
    Query {
        px: s.px,
        px2: s.px2,
        tte_ns: sat(tte_ns),
        strike,
        fit,
        feats: copy_ratios(&s.feats),
    }
}

/// The sum of the second parts.
pub open spec fn total(s: Seq<(i64, i64)>) -> int
    decreases s.len(),
{
    if s.len() == 0 {
        0
    } else {
        total(s.drop_last()) + s.last().1
    }
}

proof fn lemma_total_bound(s: Seq<(i64, i64)>)
    ensures
        -9223372036854775808 * s.len() <= total(s) <= 9223372036854775807 * s.len(),
    decreases s.len(),
{
    if s.len() > 0 {
        lemma_total_bound(s.drop_last());
    }
}

proof fn lemma_total_front(s: Seq<(i64, i64)>)
    requires
        s.len() > 0,
    ensures
        total(s) == s[0].1 + total(s.skip(1)),
    decreases s.len(),
{
    if s.len() == 1 {
        assert(s.drop_last() =~= Seq::<(i64, i64)>::empty());
        assert(s.skip(1) =~= Seq::<(i64, i64)>::empty());
    } else {
        lemma_total_front(s.drop_last());
        assert(s.drop_last().skip(1) =~= s.skip(1).drop_last());
        assert(s.skip(1).last() == s.last());
    }
}

/// One event that is ridden.
pub struct RideState {
    fit: Option<Fit>,
    ring: VecDeque<(i64, Sample)>,
    entries: u8,
    armed: bool,
    base: VecDeque<(i64, i64)>,
    base_sum: i128,
    base_last: i64,
    dir: i8,
}

/// An event that is ridden, as the contracts see it.
#[verifier::ext_equal]
pub struct RideV {
    /// The fit in force.
    pub fit: Option<Fit>,
    /// The recent samples.
    pub ring: Seq<(i64, SampleV)>,
    /// The crossings so far.
    pub entries: u8,
    /// Whether a crossing counts.
    pub armed: bool,
    /// The recent gaps, at most one a second, under the fit in force.
    pub base: Seq<(i64, i64)>,
    /// The instant of the last of them.
    pub base_last: i64,
    /// Which way the last crossing went.
    pub dir: i8,
}

impl View for RideState {
    type V = RideV;

    closed spec fn view(&self) -> RideV {
        RideV {
            fit: self.fit,
            ring: sample_views(self.ring@),
            entries: self.entries,
            armed: self.armed,
            base: self.base@,
            base_last: self.base_last,
            dir: self.dir,
        }
    }
}

/// An event that is not ridden yet.
pub open spec fn fresh() -> RideV {
    RideV {
        fit: None,
        ring: Seq::empty(),
        entries: 0,
        armed: true,
        base: Seq::empty(),
        base_last: 0,
        dir: 0,
    }
}

/// What one look at a market comes to.
pub enum RowV {
    /// Something is not known.
    Missing,
    /// The market is over.
    Over,
    /// A quote is stale, a book is wide or a feature cannot be told.
    Bad,
    /// A sample, with the market's end and its strike.
    Row(SampleV, i64, i64),
}

/// Whether a book is fit to trade against.
pub open spec fn good_book(t: InstrumentV, cfg: FairRideCfg, now: i64) -> bool {
    &&& 0 < t.best_bid < t.best_ask
    &&& t.best_ask - t.best_bid <= cfg.max_spread
    &&& now - t.recv_ts_ns <= cfg.stale_ms * 1_000_000
}

/// The features and the second price of a sample.
pub open spec fn extras_at(f: FeatureV, two_price: bool, now: i64) -> Option<
    (Seq<Ratio>, Option<i64>),
> {
    let fs = if f.extras.len() > 0 {
        features::all_features(f, now)
    } else {
        Some(Seq::empty())
    };
    match fs {
        Some(x) => if two_price {
            match features::fresh_cb(f, now) {
                Some(c) => Some((x, Some(c))),
                None => None,
            }
        } else {
            Some((x, None))
        },
        None => None,
    }
}

/// One look at a market.
pub open spec fn row_of(
    cfg: FairRideCfg,
    f: FeatureV,
    two_price: bool,
    m: MarketStateV,
    inst: Seq<char>,
    now: i64,
) -> RowV {
    match (state::known_in(m, inst), state::known_in(m, cfg.reference@)) {
        (Some(t), Some(r)) => match (t.expiry_ts_ns, t.strike) {
            (Some(expiry), Some(strike)) => if expiry <= now {
                RowV::Over
            } else if r.mid is None || r.mid->0 <= 0 || now - r.recv_ts_ns > cfg.ref_max_age_ms
                * 1_000_000 || !good_book(t, cfg, now) {
                RowV::Bad
            } else {
                match extras_at(f, two_price, now) {
                    Some((feats, px2)) => RowV::Row(
                        SampleV {
                            px: r.mid->0,
                            px2,
                            mid: fixed::clamp64(t.best_bid + t.best_ask) as i64,
                            feats,
                        },
                        expiry,
                        strike,
                    ),
                    None => RowV::Bad,
                }
            },
            _ => RowV::Missing,
        },
        _ => RowV::Missing,
    }
}

/// How long samples are kept, in milliseconds: for the lookback, and for the mean.
pub open spec fn keep_ms(cfg: FairRideCfg) -> int {
    fixed::larger(
        cfg.lookback_max_ms as int,
        fixed::toward_zero(cfg.demean_window_ns as int, 1_000_000),
    )
}

/// An event with one more sample; those that are too old go.
pub open spec fn sampled(v: RideV, cfg: FairRideCfg, now: i64, s: SampleV) -> RideV {
    RideV {
        ring: ring::dropped(v.ring, now - keep_ms(cfg) * 1_200_000).push((now, s)),
        ..v
    }
}

/// Whether a fit may be traded on: it is of this model, it is not stale, and the event is
/// in the time in which it is entered.
pub open spec fn may_enter(cfg: FairRideCfg, fit: Option<Fit>, model_hash: u64, tte_ns: int) -> bool {
    match fit {
        Some(f) => {
            &&& f.model_hash == model_hash
            &&& tte_ns >= f.fitted_at_tte_ms * 1_000_000 - cfg.refit_every_ns - cfg.calib_grace_ns
            &&& cfg.entry_min_tte_ns < tte_ns <= cfg.entry_max_tte_ns
        },
        None => false,
    }
}

/// The gap between a fair price and the market.
pub open spec fn gap_of(fair: i64, mid: i64) -> i64 {
    fixed::clamp64(fair - mid * 500) as i64
}

/// The recent gaps after this one: those that are too old go, and it is noted unless one
/// was noted less than a second ago.
pub open spec fn base_after(v: RideV, win_ns: i64, now: i64, gap: i64) -> RideV {
    let b = ring::dropped(v.base, now - win_ns);
    if now - v.base_last >= 1_000_000_000 {
        RideV { base: b.push((now, gap)), base_last: now, ..v }
    } else {
        RideV { base: b, ..v }
    }
}

/// The trigger as a numerator over a denominator: the gap, or the gap above its mean. There
/// is none until the mean rests on five gaps.
pub open spec fn trigger_of(v: RideV, demeaned: bool, gap: i64) -> Option<(int, int)> {
    if !demeaned {
        Some((gap as int, 1))
    } else if v.base.len() < 5 {
        None
    } else {
        Some((gap * v.base.len() - total(v.base), v.base.len() as int))
    }
}

/// The trigger that a gap comes to.
pub open spec fn trigger_at(v: RideV, cfg: FairRideCfg, now: i64, gap: i64) -> Option<(int, int)> {
    if cfg.demean_window_ns > 0 {
        trigger_of(base_after(v, cfg.demean_window_ns, now, gap), true, gap)
    } else {
        trigger_of(v, false, gap)
    }
}

/// A trigger as one number, in billionths.
pub open spec fn sig_of(t: (int, int)) -> i64 {
    fixed::clamp64(fixed::clamp128(t.0) / t.1) as i64
}

/// Which way a crossing goes.
pub open spec fn way(num: int) -> i8 {
    if num > 0 {
        1
    } else {
        -1i8
    }
}

/// An event after a fair price, and the crossing if there is one. An event that is not
/// armed only rearms: once the trigger has come back to within the hysteresis of the last
/// crossing, or has changed sides. A crossing counts, and disarms, whatever becomes of it.
pub open spec fn weighed(v: RideV, cfg: FairRideCfg, now: i64, gap: i64) -> (
    RideV,
    Option<(int, int)>,
) {
    let demeaned = cfg.demean_window_ns > 0;
    let u = if demeaned {
        base_after(v, cfg.demean_window_ns, now, gap)
    } else {
        v
    };
    match trigger_of(u, demeaned, gap) {
        Some((num, den)) => if !u.armed {
            if num * u.dir <= cfg.rearm_eps * den {
                (RideV { armed: true, ..u }, None)
            } else {
                (u, None)
            }
        } else if u.entries >= cfg.max_entries_per_event || fixed::magnitude(num) < cfg.delta
            * den {
            (u, None)
        } else {
            (
                RideV { entries: (u.entries + 1) as u8, armed: false, dir: way(num), ..u },
                Some((num, den)),
            )
        },
        None => (u, None),
    }
}

/// The last sample that is between two ages.
pub open spec fn last_within(s: Seq<(i64, SampleV)>, lo: int, hi: int) -> Option<(i64, SampleV)>
    decreases s.len(),
{
    if s.len() == 0 {
        None
    } else if lo <= s.last().0 <= hi {
        Some(s.last())
    } else {
        last_within(s.drop_last(), lo, hi)
    }
}

/// All samples but the one just taken.
pub open spec fn earlier(s: Seq<(i64, SampleV)>) -> Seq<(i64, SampleV)> {
    if s.len() > 0 {
        s.drop_last()
    } else {
        s
    }
}

/// The sample that a crossing is held against: the youngest that is old enough, but not the
/// one just taken.
pub open spec fn look_back(v: RideV, cfg: FairRideCfg, now: i64) -> Option<(i64, SampleV)> {
    last_within(
        earlier(v.ring),
        now - cfg.lookback_max_ms * 1_000_000,
        now - cfg.lookback_min_ms * 1_000_000,
    )
}

/// How far the model pushed the gap open since then.
pub open spec fn push_of(way: i8, fair: i64, fair_then: i64) -> int {
    way * (fair - fair_then)
}

/// How far the market drew back since then.
pub open spec fn pull_of(way: i8, mid: i64, mid_then: i64) -> int {
    way * (mid_then - mid) * 500
}

/// Whether a crossing is worth a trade: the gap opened far enough, and the model's share in
/// that is large enough.
pub open spec fn is_ride(cfg: FairRideCfg, push: int, pull: int) -> bool {
    let tot = push + pull;
    tot > cfg.open_min && if tot > 0 {
        push * 1_000_000 > cfg.share_min * tot
    } else if tot < 0 {
        push * 1_000_000 < cfg.share_min * tot
    } else {
        cfg.share_min < 0
    }
}

/// Whether a crossing is not traded for the age of the basis reference.
pub open spec fn is_vetoed(cfg: FairRideCfg, f: FeatureV, two_price: bool, now: i64) -> bool {
    cfg.stale_veto_ns > 0 && two_price && match f.cb {
        Some(c) => now - c.0 > cfg.stale_veto_ns,
        None => true,
    }
}

/// What a look at a market leads to.
#[derive(Debug)]
pub enum Scan {
    /// Nothing more.
    Nothing,
    /// Ask for the fair price, and weigh it.
    Ask(Query, Row),
}

/// The look at a market that a fair price belongs to.
#[derive(Clone, Copy, Debug)]
pub struct Row {
    pub now: i64,
    /// The price of the reference.
    pub px: i64,
    pub mid: i64,
    pub bid: i64,
    pub ask: i64,
    pub expiry: i64,
    pub strike: i64,
    pub fit: u64,
}

/// What a fair price leads to.
#[derive(Debug)]
pub enum Weighed {
    /// Nothing more.
    Nothing,
    /// The event is armed again, by this trigger, after a crossing to the side `dir`.
    Rearmed { sig: i64, dir: i8 },
    /// A crossing with no sample to hold it against: nothing more.
    NoLookBack(Crossing),
    /// Ask for the fair price of the sample looked back to, and ride.
    LookBack(Query, Crossing),
}

/// A crossing.
#[derive(Clone, Copy, Debug)]
pub struct Crossing {
    pub row: Row,
    pub way: i8,
    /// The trigger, in billionths.
    pub sig: i64,
    /// The number of the entry.
    pub entry: u8,
    pub fair: i64,
    pub mid_then: i64,
}

/// The markets that are ridden.
pub struct FairRideRule {
    cfg: FairRideCfg,
    two_price: bool,
    model_hash: u64,
    feats: FeatureState,
    evs: StrMap<RideState>,
}

/// The markets that are ridden, as the contracts see them.
#[verifier::ext_equal]
pub struct RuleV {
    pub cfg: FairRideCfg,
    pub two_price: bool,
    pub model_hash: u64,
    pub feats: FeatureV,
    pub evs: Map<Seq<char>, RideV>,
}

impl View for FairRideRule {
    type V = RuleV;

    closed spec fn view(&self) -> RuleV {
        RuleV {
            cfg: self.cfg,
            two_price: self.two_price,
            model_hash: self.model_hash,
            feats: self.feats@,
            evs: self.evs@.map_values(|s: RideState| s@),
        }
    }
}

/// The event of a market, ridden or not.
pub open spec fn event_in(evs: Map<Seq<char>, RideV>, inst: Seq<char>) -> RideV {
    if evs.contains_key(inst) {
        evs[inst]
    } else {
        fresh()
    }
}

proof fn lemma_dropped_views(s: Seq<(i64, Sample)>, cutoff: int)
    ensures
        sample_views(ring::dropped(s, cutoff)) == ring::dropped(sample_views(s), cutoff),
    decreases s.len(),
{
    if s.len() > 0 && s[0].0 < cutoff {
        lemma_dropped_views(s.skip(1), cutoff);
        assert(sample_views(s.skip(1)) =~= sample_views(s).skip(1));
    }
}

impl RideState {
    spec fn wf(&self) -> bool {
        self.base_sum == total(self.base@) && -1 <= self.dir <= 1
    }

    fn new() -> (r: RideState)
        ensures
            r.wf(),
            r@ == fresh(),
    {
        let r = RideState {
            fit: None,
            ring: VecDeque::new(),
            entries: 0,
            armed: true,
            base: VecDeque::new(),
            base_sum: 0,
            base_last: 0,
            dir: 0,
        };
        assert(r@ =~= fresh());
        r
    }

    fn take_sample(&mut self, cfg: &FairRideCfg, now: i64, s: Sample)
        requires
            old(self).wf(),
        ensures
            final(self).wf(),
            final(self)@ == sampled(old(self)@, *cfg, now, s@),
    {
        let keep: i64 = max64(
            cfg.lookback_max_ms,
            div_toward_zero(cfg.demean_window_ns, 1_000_000),
        );
        let cutoff: i128 = now as i128 - keep as i128 * 1_200_000;
        proof {
            lemma_dropped_views(self.ring@, cutoff as int);
        }
        drop_before(&mut self.ring, cutoff);
        let ghost r0 = self.ring@;
        let ghost sv = s@;
        self.ring.push_back((now, s));
        assert(sample_views(self.ring@) =~= sample_views(r0).push((now, sv)));
    }

    fn cut_base(&mut self, cutoff: i128)
        requires
            old(self).wf(),
        ensures
            final(self).wf(),
            final(self)@ == (RideV {
                base: ring::dropped(old(self)@.base, cutoff as int),
                ..old(self)@
            }),
    {
        let mut going: bool = true;
        while going
            invariant
                self.wf(),
                self@ == (RideV { base: self.base@, ..old(self)@ }),
                ring::dropped(self.base@, cutoff as int) == ring::dropped(
                    old(self)@.base,
                    cutoff as int,
                ),
                !going ==> self.base@ == ring::dropped(self.base@, cutoff as int),
            decreases self.base@.len(), going as int,
        {
            if self.base.len() > 0 && (self.base[0].0 as i128) < cutoff {
                let ghost before = self.base@;
                proof {
                    lemma_total_front(before);
                    lemma_total_bound(before.skip(1));
                    lemma_total_bound(before);
                }
                let x: i64 = self.base[0].1;
                let _ = self.base.pop_front();
                assert(self.base@ =~= before.skip(1));
                self.base_sum = self.base_sum - x as i128;
            } else {
                going = false;
            }
        }
    }

    fn note_gap(&mut self, now: i64, gap: i64)
        requires
            old(self).wf(),
        ensures
            final(self).wf(),
            final(self)@ == (RideV {
                base: old(self)@.base.push((now, gap)),
                base_last: now,
                ..old(self)@
            }),
    {
        let ghost before = self.base@;
        self.base.push_back((now, gap));
        proof {
            assert(self.base@.drop_last() =~= before);
            lemma_total_bound(before);
            lemma_total_bound(self.base@);
        }
        let n: usize = self.base.len();
        assert(total(self.base@) == total(before) + gap);
        assert(9223372036854775807 * n <= 170141183460469231722463931679029329921) by (nonlinear_arith)
            requires
                n <= 18446744073709551615,
        ;
        assert(-9223372036854775808 * n >= -170141183460469231722463931679029329920) by (nonlinear_arith)
            requires
                n <= 18446744073709551615,
        ;
        self.base_sum = self.base_sum + gap as i128;
        self.base_last = now;
    }

    fn weigh(&mut self, cfg: &FairRideCfg, now: i64, gap: i64) -> (r: (Option<i8>, i64))
        requires
            old(self).wf(),
        ensures
            final(self).wf(),
            final(self)@ == weighed(old(self)@, *cfg, now, gap).0,
            match (r.0, weighed(old(self)@, *cfg, now, gap).1) {
                (Some(w), Some(t)) => w == way(t.0) && trigger_at(old(self)@, *cfg, now, gap)
                    == Some(t),
                (None, None) => true,
                _ => false,
            },
            trigger_at(old(self)@, *cfg, now, gap) matches Some(t) ==> r.1 == sig_of(t),
            trigger_at(old(self)@, *cfg, now, gap) is None ==> final(self)@.armed
                == old(self)@.armed,
    {
        let demeaned: bool = cfg.demean_window_ns > 0;
        if demeaned {
            self.cut_base(now as i128 - cfg.demean_window_ns as i128);
            if now as i128 - self.base_last as i128 >= 1_000_000_000 {
                self.note_gap(now, gap);
            }
            if self.base.len() < 5 {
                return (None, 0);
            }
        }
        let ghost u = self@;
        let ghost t = trigger_of(u, demeaned, gap)->0;
        let n: usize = if demeaned {
            self.base.len()
        } else {
            1
        };
        let len: i128 = n as i128;
        proof {
            lemma_total_bound(self.base@);
            assert(-170141183460469231722463931679029329920 <= gap * len
                <= 170141183460469231722463931679029329920) by (nonlinear_arith)
                requires
                    0 <= len <= 18446744073709551615,
                    -9223372036854775808 <= gap <= 9223372036854775807,
            ;
            assert(-170141183460469231722463931679029329920 <= cfg.delta * len
                <= 170141183460469231722463931679029329920) by (nonlinear_arith)
                requires
                    0 <= len <= 18446744073709551615,
                    -9223372036854775808 <= cfg.delta <= 9223372036854775807,
            ;
            assert(-170141183460469231722463931679029329920 <= cfg.rearm_eps * len
                <= 170141183460469231722463931679029329920) by (nonlinear_arith)
                requires
                    0 <= len <= 18446744073709551615,
                    -9223372036854775808 <= cfg.rearm_eps <= 9223372036854775807,
            ;
            assert(-9223372036854775808 * len >= -170141183460469231722463931679029329920
                && 9223372036854775807 * len <= 170141183460469231722463931679029329920) by (nonlinear_arith)
                requires
                    0 <= len <= 18446744073709551615,
            ;
        }
        let num: i128 = if demeaned {
            sum128(gap as i128 * len, -self.base_sum)
        } else {
            gap as i128
        };
        assert(num == fixed::clamp128(t.0));
        assert(t.1 == len);
        let sig: i64 = sat(fixed::div_floor(num, len));
        if !self.armed {
            let signed: i128 = if self.dir > 0 {
                num
            } else if self.dir < 0 {
                -num
            } else {
                0
            };
            proof {
                let x = t.0;
                let d = u.dir as int;
                assert(x * d == if d > 0 {
                    x
                } else if d < 0 {
                    -x
                } else {
                    0
                }) by (nonlinear_arith)
                    requires
                        -1 <= d <= 1,
                ;
            }
            if signed <= cfg.rearm_eps as i128 * len {
                self.armed = true;
            }
            return (None, sig);
        }
        let size: i128 = if num < 0 {
            -num
        } else {
            num
        };
        if self.entries >= cfg.max_entries_per_event || size < cfg.delta as i128 * len {
            return (None, sig);
        }
        self.entries = self.entries + 1;
        self.armed = false;
        let w: i8 = if num > 0 {
            1
        } else {
            -1
        };
        self.dir = w;
        (Some(w), sig)
    }
}

/// The state after one look at a market.
pub open spec fn scanned(r: RuleV, m: MarketStateV, inst: Seq<char>, now: i64) -> RuleV {
    match row_of(r.cfg, r.feats, r.two_price, m, inst, now) {
        RowV::Over => RuleV { evs: r.evs.remove(inst), ..r },
        RowV::Row(s, _, _) => RuleV {
            evs: r.evs.insert(inst, sampled(event_in(r.evs, inst), r.cfg, now, s)),
            ..r
        },
        _ => r,
    }
}

/// Whether a look at a market leads to this.
pub open spec fn is_scan(out: Scan, r: RuleV, m: MarketStateV, inst: Seq<char>, now: i64) -> bool {
    match row_of(r.cfg, r.feats, r.two_price, m, inst, now) {
        RowV::Row(s, expiry, strike) => {
            let fit = event_in(r.evs, inst).fit;
            if may_enter(r.cfg, fit, r.model_hash, expiry - now) {
                match out {
                    Scan::Ask(q, row) => {
                        &&& asks(q, s, expiry - now, strike, (fit->0).seq)
                        &&& row == (Row {
                            now,
                            px: s.px,
                            mid: s.mid,
                            bid: m.instruments[inst].best_bid,
                            ask: m.instruments[inst].best_ask,
                            expiry,
                            strike,
                            fit: (fit->0).seq,
                        })
                    },
                    Scan::Nothing => false,
                }
            } else {
                out is Nothing
            }
        },
        _ => out is Nothing,
    }
}

/// Whether a fair price leads to this.
pub open spec fn is_weighed(out: Weighed, r: RuleV, inst: Seq<char>, row: Row, fair: i64) -> bool {
    let (v, crossing) = weighed(r.evs[inst], r.cfg, row.now, gap_of(fair, row.mid));
    let u = r.evs[inst];
    if !r.evs.contains_key(inst) {
        out is Nothing
    } else if crossing is Some {
        let back = look_back(v, r.cfg, row.now);
        let c = Crossing {
            row,
            way: way((crossing->0).0),
            sig: sig_of(crossing->0),
            entry: v.entries,
            fair,
            mid_then: match back {
                Some((_, s)) => s.mid,
                None => row.mid,
            },
        };
        match (out, back) {
            (Weighed::LookBack(q, x), Some((ts, s))) => asks(
                q,
                s,
                row.expiry - ts,
                row.strike,
                row.fit,
            ) && x == c,
            (Weighed::NoLookBack(x), None) => x == c,
            _ => false,
        }
    } else if !u.armed && v.armed {
        out == (Weighed::Rearmed {
            sig: sig_of(trigger_at(u, r.cfg, row.now, gap_of(fair, row.mid))->0),
            dir: u.dir,
        })
    } else {
        out is Nothing
    }
}

/// What becomes of a crossing.
#[derive(Clone, Copy, Debug, PartialEq, Eq, Structural)]
pub enum Gate {
    /// It is no ride.
    Reject,
    /// It is one, but the second price is too old to trade on.
    Stale,
    /// It is traded.
    Pass,
}

/// What becomes of a crossing.
pub open spec fn gate_of(r: RuleV, c: Crossing, fair_then: i64) -> Gate {
    if !is_ride(
        r.cfg,
        push_of(c.way, c.fair, fair_then),
        pull_of(c.way, c.row.mid, c.mid_then),
    ) {
        Gate::Reject
    } else if is_vetoed(r.cfg, r.feats, r.two_price, c.row.now) {
        Gate::Stale
    } else {
        Gate::Pass
    }
}

/// Whether a crossing is traded.
pub open spec fn rides(r: RuleV, c: Crossing, fair_then: i64) -> bool {
    gate_of(r, c, fair_then) == Gate::Pass
}

/// The share of a crossing that the fair price pushed, in millionths.
pub open spec fn share_of(push: int, pull: int) -> i64 {
    if push + pull == 0 {
        0
    } else {
        fixed::clamp64(fixed::floor_quotient(push * 1_000_000, push + pull)) as i64
    }
}

/// What a reader is told of a ride: the trigger, the share that the fair price pushed, the
/// fair price and the mid, the time left, the price of the reference, and the number of the
/// entry.
pub open spec fn ride_reason(c: Crossing, share: i64) -> Seq<char> {
    "gap="@ + numeral::places(c.sig as int, 100_000, 10_000, 4, true) + " share="@
        + numeral::places(share as int, 10_000, 100, 2, false) + " fair="@ + numeral::places(
        c.fair as int,
        100_000,
        10_000,
        4,
        false,
    ) + " mid="@ + numeral::places(c.row.mid as int, 200, 10_000, 4, false) + " tte="@
        + numeral::places(
        fixed::clamp64(c.row.expiry - c.row.now),
        100_000_000,
        10,
        1,
        false,
    ) + "s px="@ + numeral::places(c.row.px as int, 20_000, 100, 2, false) + " entry#"@
        + numeral::dec(c.entry as nat)
}

fn ride_text(c: &Crossing, share: i64) -> (r: String)
    ensures
        r@ == ride_reason(*c, share),
{
    let mut s = String::new();
    s.append("gap=");
    push_places(&mut s, c.sig, 100_000, 10_000, 4, true);
    s.append(" share=");
    push_places(&mut s, share, 10_000, 100, 2, false);
    s.append(" fair=");
    push_places(&mut s, c.fair, 100_000, 10_000, 4, false);
    s.append(" mid=");
    push_places(&mut s, c.row.mid, 200, 10_000, 4, false);
    s.append(" tte=");
    push_places(
        &mut s,
        sat(c.row.expiry as i128 - c.row.now as i128),
        100_000_000,
        10,
        1,
        false,
    );
    s.append("s px=");
    push_places(&mut s, c.row.px, 20_000, 100, 2, false);
    s.append(" entry#");
    push_u64(&mut s, c.entry as u64);
    assert(s@ =~= ride_reason(*c, share));
    s
}

/// Whether a signal is that of a crossing: to buy what the fair price says is cheap.
pub open spec fn is_signal(
    s: TradeSignal,
    cfg: FairRideCfg,
    inst: Seq<char>,
    c: Crossing,
    fair_then: i64,
) -> bool {
    &&& s.strategy@ == "fair_ride"@
    &&& s.ts_ns == c.row.now
    &&& s.reason@ == ride_reason(
        c,
        share_of(
            push_of(c.way, c.fair, fair_then),
            pull_of(c.way, c.row.mid, c.mid_then),
        ),
    )
    &&& s.reference@ == cfg.reference@
    &&& s.target@ == inst
    &&& s.direction == c.way
    &&& s.trigger.move_bps == fixed::toward_zero(
        fixed::clamp64(push_of(c.way, c.fair, fair_then)),
        10,
    )
    &&& s.trigger.window_ms == fixed::larger(cfg.lookback_min_ms as int, 0)
    &&& s.trigger.yes_price == (if c.way > 0 {
        fixed::clamp64(2 * c.row.ask)
    } else {
        fixed::clamp64(2 * (1_000_000 - c.row.bid))
    })
    &&& s.trigger.target_move_c == Some(
        fixed::clamp64((c.row.mid - c.mid_then) * 50) as i64,
    )
    &&& s.hold_ms == cfg.hold_ms
    &&& s.ttl_ms == cfg.ttl_ms
}

/// One gap to note under a new fit: a sample, and the question for its fair price.
#[derive(Debug)]
pub struct Point {
    pub ts: i64,
    pub mid: i64,
    pub query: Query,
}

/// Which samples the mean is rebuilt from: one a second, before the end.
pub open spec fn picks(s: Seq<(i64, SampleV)>, expiry: i64) -> Seq<int>
    decreases s.len(),
{
    if s.len() == 0 {
        Seq::empty()
    } else {
        let p = picks(s.drop_last(), expiry);
        let last = if p.len() == 0 {
            0
        } else {
            s[p.last()].0 as int
        };
        if s.last().0 - last >= 1_000_000_000 && s.last().0 < expiry {
            p.push(s.len() - 1)
        } else {
            p
        }
    }
}

/// Whether the points are these samples, each with the question for its fair price.
pub open spec fn are_points(
    ps: Seq<Point>,
    s: Seq<(i64, SampleV)>,
    picked: Seq<int>,
    expiry: i64,
    strike: i64,
    fit: u64,
) -> bool {
    &&& ps.len() == picked.len()
    &&& forall|i: int|
        0 <= i < ps.len() ==> {
            let x = s[picked[i]];
            &&& (#[trigger] ps[i]).ts == x.0
            &&& ps[i].mid == x.1.mid
            &&& asks(ps[i].query, x.1, expiry - x.0, strike, fit)
        }
}

/// An event under a new fit.
pub open spec fn refitted(v: RideV, demeaned: bool, f: Fit) -> RideV {
    if demeaned {
        RideV { fit: Some(f), base: Seq::empty(), base_last: 0, ..v }
    } else {
        RideV { fit: Some(f), ..v }
    }
}

/// The fit that an update tells of.
pub open spec fn fit_of(c: CalibUpdate) -> Fit {
    Fit { seq: c.seq, fitted_at_tte_ms: c.fitted_at_tte_ms, model_hash: c.model_hash }
}

/// The top of a book, where both sides are there and positive: the mid and the sizes.
pub open spec fn top_of(bids: Seq<(i64, i64)>, asks: Seq<(i64, i64)>) -> Option<(i64, i64, i64)> {
    if bids.len() > 0 && asks.len() > 0 && bids[0].0 > 0 && asks[0].0 > 0 {
        Some((fixed::clamp64(bids[0].0 + asks[0].0) as i64, bids[0].1, asks[0].1))
    } else {
        None
    }
}

/// The state after an event.
pub open spec fn after_event(r: RuleV, ev: Event) -> RuleV {
    let active = r.feats.extras.len() > 0;
    match ev.payload {
        Payload::Calib(c) => if c.reference@ == r.cfg.reference@ {
            RuleV {
                evs: r.evs.insert(
                    c.instrument@,
                    refitted(
                        event_in(r.evs, c.instrument@),
                        r.cfg.demean_window_ns > 0,
                        fit_of(c),
                    ),
                ),
                ..r
            }
        } else {
            r
        },
        Payload::Book(b) => if b.instrument@ == r.cfg.reference@ {
            match top_of(b.bids@, b.asks@) {
                Some((mid, bq, aq)) => if active || r.two_price {
                    RuleV {
                        feats: features::after_perp(r.feats, b.recv_ts_ns, mid, bq, aq),
                        ..r
                    }
                } else {
                    r
                },
                None => r,
            }
        } else if (active || r.two_price) && b.instrument@ == r.cfg.basis_reference@ {
            match top_of(b.bids@, b.asks@) {
                Some((mid, _, _)) => RuleV {
                    feats: features::after_cb(r.feats, b.recv_ts_ns, mid),
                    ..r
                },
                None => r,
            }
        } else {
            r
        },
        Payload::Trade(t) => if active && t.instrument@ == r.cfg.reference@ + ".vol"@ {
            RuleV {
                feats: FeatureV {
                    volume: features::volume_kept(r.feats.volume, t.recv_ts_ns, t.qty),
                    ..r.feats
                },
                ..r
            }
        } else {
            r
        },
        Payload::Meta(m) => if m.status == MarketStatus::Expired || m.status
            == MarketStatus::Resolved {
            RuleV { evs: r.evs.remove(m.instrument@), ..r }
        } else if m.strike is Some {
            RuleV { evs: r.evs.insert(m.instrument@, event_in(r.evs, m.instrument@)), ..r }
        } else {
            r
        },
        _ => r,
    }
}

/// What an event asks for.
#[derive(Debug)]
pub enum Todo {
    /// Nothing more.
    Nothing,
    /// Look at these markets, at this instant.
    Look(Vec<String>, i64),
    /// Price these samples of a market again, and note their gaps.
    Refit(String, Vec<Point>),
}

/// Whether an event asks for this.
pub open spec fn is_todo(out: Todo, r: RuleV, ev: Event, m: MarketStateV) -> bool {
    let active = r.feats.extras.len() > 0;
    match ev.payload {
        Payload::Calib(c) => if c.reference@ == r.cfg.reference@ && r.cfg.demean_window_ns > 0 {
            match state::known_in(m, c.instrument@) {
                Some(t) => match (t.strike, t.expiry_ts_ns) {
                    (Some(strike), Some(expiry)) => match out {
                        Todo::Refit(i, ps) => {
                            let s = event_in(r.evs, c.instrument@).ring;
                            &&& i@ == c.instrument@
                            &&& are_points(ps@, s, picks(s, expiry), expiry, strike, c.seq)
                        },
                        _ => false,
                    },
                    _ => out is Nothing,
                },
                None => out is Nothing,
            }
        } else {
            out is Nothing
        },
        Payload::Book(b) => if b.instrument@ == r.cfg.reference@ {
            match out {
                Todo::Look(v, now) => now == b.recv_ts_ns && strmap::lists_keys(
                    text::views(v@),
                    r.evs.dom(),
                ),
                _ => false,
            }
        } else if !((active || r.two_price) && b.instrument@ == r.cfg.basis_reference@)
            && text::has_suffix(b.instrument@, ".YES"@) {
            match out {
                Todo::Look(v, now) => now == b.recv_ts_ns && text::views(v@) == seq![
                    b.instrument@,
                ],
                _ => false,
            }
        } else {
            out is Nothing
        },
        _ => out is Nothing,
    }
}

/// An event with its mean rebuilt from these gaps: instant, mid and fair price of each.
pub open spec fn rebuilt(v: RideV, points: Seq<(i64, i64, i64)>) -> RideV {
    RideV {
        base: Seq::new(points.len(), |i: int| (points[i].0, gap_of(points[i].2, points[i].1))),
        base_last: if points.len() > 0 {
            points.last().0
        } else {
            0
        },
        ..v
    }
}

/// The top of a book.
pub(crate) fn read_top(bids: &Vec<(i64, i64)>, asks: &Vec<(i64, i64)>) -> (r: Option<(i64, i64, i64)>)
    ensures
        r == top_of(bids@, asks@),
{
    if bids.len() > 0 && asks.len() > 0 && bids[0].0 > 0 && asks[0].0 > 0 {
        Some((sat(bids[0].0 as i128 + asks[0].0 as i128), bids[0].1, asks[0].1))
    } else {
        None
    }
}

impl FairRideRule {
    /// Whether the sums that are carried along are right.
    pub closed spec fn wf(&self) -> bool {
        &&& self.feats.wf()
        &&& forall|k: Seq<char>| #[trigger] self.evs@.contains_key(k) ==> self.evs@[k].wf()
    }

    /// No markets.
    pub fn new(cfg: FairRideCfg, extras: Vec<String>, two_price: bool, model_hash: u64) -> (r:
        FairRideRule)
        ensures
            r.wf(),
            r@.cfg == cfg,
            r@.two_price == two_price,
            r@.model_hash == model_hash,
            r@.feats == features::nothing_seen(text::views(extras@)),
            r@.evs == Map::<Seq<char>, RideV>::empty(),
    {
        let r = FairRideRule {
            cfg,
            two_price,
            model_hash,
            feats: FeatureState::new(extras),
            evs: StrMap::new(),
        };
        assert(r@.evs =~= Map::<Seq<char>, RideV>::empty());
        r
    }

    fn take(&mut self, inst: &str) -> (s: RideState)
        requires
            old(self).wf(),
        ensures
            final(self).wf(),
            s.wf(),
            s@ == event_in(old(self)@.evs, inst@),
            final(self)@ == (RuleV { evs: old(self)@.evs.remove(inst@), ..old(self)@ }),
    {
        let s = match self.evs.remove(inst) {
            Some(s) => s,
            None => RideState::new(),
        };
        assert(self@.evs =~= old(self)@.evs.remove(inst@));
        s
    }

    fn put(&mut self, inst: &str, s: RideState)
        requires
            old(self).wf(),
            s.wf(),
        ensures
            final(self).wf(),
            final(self)@ == (RuleV { evs: old(self)@.evs.insert(inst@, s@), ..old(self)@ }),
    {
        self.evs.insert(inst.to_string(), s);
        assert(self@.evs =~= old(self)@.evs.insert(inst@, s@));
    }

    /// Looks at a market: notes a sample where one can be taken, and asks for its fair price
    /// where the event may be entered.
    pub fn scan(&mut self, inst: &str, state: &MarketState, now: i64) -> (out: Scan)
        requires
            old(self).wf(),
        ensures
            final(self).wf(),
            final(self)@ == scanned(old(self)@, state@, inst@, now),
            is_scan(out, old(self)@, state@, inst@, now),
    {
        let (t, r) = match (state.get(inst), state.get(self.cfg.reference.as_str())) {
            (Some(t), Some(r)) => (t, r),
            _ => {
                return Scan::Nothing;
            },
        };
        let (expiry, strike): (i64, i64) = match (t.expiry_ts_ns, t.strike) {
            (Some(e), Some(k)) => (e, k),
            _ => {
                return Scan::Nothing;
            },
        };
        if expiry <= now {
            let _ = self.evs.remove(inst);
            assert(self@.evs =~= old(self)@.evs.remove(inst@));
            return Scan::Nothing;
        }
        let px: i64 = match r.mid {
            Some(m) => m,
            None => {
                return Scan::Nothing;
            },
        };
        if px <= 0 || now as i128 - r.recv_ts_ns as i128 > self.cfg.ref_max_age_ms as i128
            * 1_000_000 {
            return Scan::Nothing;
        }
        let (bid, ask): (i64, i64) = (t.best_bid, t.best_ask);
        if !(bid > 0 && ask > bid && ask as i128 - bid as i128 <= self.cfg.max_spread as i128)
            || now as i128 - t.recv_ts_ns as i128 > self.cfg.stale_ms as i128 * 1_000_000 {
            return Scan::Nothing;
        }
        let mid = sat(bid as i128 + ask as i128);
        let feats: Vec<Ratio> = if self.feats.active() {
            match self.feats.feats(now) {
                Some(f) => f,
                None => {
                    return Scan::Nothing;
                },
            }
        } else {
            let none: Vec<Ratio> = Vec::new();
            assert(none@ =~= Seq::<Ratio>::empty());
            none
        };
        let px2: Option<i64> = if self.two_price {
            match self.feats.cb_price(now) {
                Some(c) => Some(c),
                None => {
                    return Scan::Nothing;
                },
            }
        } else {
            None
        };
        let sample = Sample { px, px2, mid, feats };
        let tte: i128 = expiry as i128 - now as i128;
        let mut ev = self.take(inst);
        let mut out = Scan::Nothing;
        if let Some(f) = ev.fit {
            if f.model_hash == self.model_hash && tte >= f.fitted_at_tte_ms as i128 * 1_000_000
                - self.cfg.refit_every_ns as i128 - self.cfg.calib_grace_ns as i128 && tte
                > self.cfg.entry_min_tte_ns as i128 && tte <= self.cfg.entry_max_tte_ns as i128 {
                out =
                Scan::Ask(
                    query_of(&sample, tte, strike, f.seq),
                    Row { now, px, mid, bid, ask, expiry, strike, fit: f.seq },
                );
            }
        }
        ev.take_sample(&self.cfg, now, sample);
        let ghost v = ev@;
        self.put(inst, ev);
        assert(self@.evs =~= old(self)@.evs.insert(inst@, v));
        out
    }

    /// Weighs a fair price: a crossing counts and disarms the event, and asks for the fair
    /// price of the sample that it is held against, where there is one.
    pub fn weigh(&mut self, inst: &str, row: &Row, fair: i64) -> (out: Weighed)
        requires
            old(self).wf(),
        ensures
            final(self).wf(),
            final(self)@ == (if old(self)@.evs.contains_key(inst@) {
                RuleV {
                    evs: old(self)@.evs.insert(
                        inst@,
                        weighed(
                            old(self)@.evs[inst@],
                            old(self)@.cfg,
                            row.now,
                            gap_of(fair, row.mid),
                        ).0,
                    ),
                    ..old(self)@
                }
            } else {
                old(self)@
            }),
            is_weighed(out, old(self)@, inst@, *row, fair),
    {
        if !self.evs.contains(inst) {
            return Weighed::Nothing;
        }
        let mut ev = self.take(inst);
        let gap = sat(fair as i128 - row.mid as i128 * 500);
        let was: bool = ev.armed;
        let (crossing, sig): (Option<i8>, i64) = ev.weigh(&self.cfg, row.now, gap);
        let mut out = if !was && ev.armed {
            Weighed::Rearmed { sig, dir: ev.dir }
        } else {
            Weighed::Nothing
        };
        if let Some(w) = crossing {
            out =
            Weighed::NoLookBack(
                Crossing { row: *row, way: w, sig, entry: ev.entries, fair, mid_then: row.mid },
            );
            let lo: i128 = row.now as i128 - self.cfg.lookback_max_ms as i128 * 1_000_000;
            let hi: i128 = row.now as i128 - self.cfg.lookback_min_ms as i128 * 1_000_000;
            if let Some(i) = find_within(&ev.ring, lo, hi) {
                let ts: i64 = ev.ring[i].0;
                let q = query_of(
                    &ev.ring[i].1,
                    row.expiry as i128 - ts as i128,
                    row.strike,
                    row.fit,
                );
                out =
                Weighed::LookBack(
                    q,
                    Crossing {
                        row: *row,
                        way: w,
                        sig,
                        entry: ev.entries,
                        fair,
                        mid_then: ev.ring[i].1.mid,
                    },
                );
            }
        }
        let ghost v = ev@;
        self.put(inst, ev);
        assert(self@.evs =~= old(self)@.evs.insert(inst@, v));
        out
    }

    /// What becomes of a crossing, by the fair price of the sample that it is held against:
    /// how far the fair price pushed and the market pulled, and the verdict.
    pub fn gate(&self, c: &Crossing, fair_then: i64) -> (r: (i128, i128, Gate))
        ensures
            r.0 == push_of(c.way, c.fair, fair_then),
            r.1 == pull_of(c.way, c.row.mid, c.mid_then),
            r.0 + r.1 == c.way * ((c.fair - c.row.mid * 500) - (fair_then - c.mid_then * 500)),
            r.2 == gate_of(self@, *c, fair_then),
            -0x100_0000_0000_0000_0000_0000 <= r.0 <= 0x100_0000_0000_0000_0000_0000,
            -0x100_0000_0000_0000_0000_0000 <= r.1 <= 0x100_0000_0000_0000_0000_0000,
    {
        let df: i128 = c.fair as i128 - fair_then as i128;
        let dm: i128 = (c.mid_then as i128 - c.row.mid as i128) * 500;
        let way: i128 = c.way as i128;
        proof {
            let lim = 0x1_0000_0000_0000_0000_0000int;
            assert(-256 * lim <= way * df <= 256 * lim && -256 * lim <= way * dm <= 256 * lim)
                by (nonlinear_arith)
                requires
                    -128 <= way <= 127,
                    lim == 0x1_0000_0000_0000_0000_0000,
                    -lim <= df <= lim,
                    -lim <= dm <= lim,
            ;
            assert(way * dm == c.way * (c.mid_then - c.row.mid) * 500) by (nonlinear_arith)
                requires
                    way == c.way,
                    dm == (c.mid_then - c.row.mid) * 500,
            ;
        }
        proof {
            law_push_and_pull_open_the_gap(*c, fair_then);
        }
        let push: i128 = way * df;
        let pull: i128 = way * dm;
        let tot: i128 = push + pull;
        let share: i128 = self.cfg.share_min as i128;
        proof {
            assert(-0x400_0000_0000_0000_0000_0000_0000_0000 <= share * tot
                <= 0x400_0000_0000_0000_0000_0000_0000_0000) by (nonlinear_arith)
                requires
                    -2147483648 <= share <= 2147483647,
                    -0x200_0000_0000_0000_0000_0000 <= tot <= 0x200_0000_0000_0000_0000_0000,
            ;
        }
        let shared: bool = if tot > 0 {
            push * 1_000_000 > share * tot
        } else if tot < 0 {
            push * 1_000_000 < share * tot
        } else {
            share < 0
        };
        if !(tot > self.cfg.open_min as i128 && shared) {
            return (push, pull, Gate::Reject);
        }
        if self.cfg.stale_veto_ns > 0 && self.two_price {
            match self.feats.cb_age(c.row.now) {
                Some(a) => if a > self.cfg.stale_veto_ns as i128 {
                    return (push, pull, Gate::Stale);
                },
                None => {
                    return (push, pull, Gate::Stale);
                },
            }
        }
        (push, pull, Gate::Pass)
    }

    /// Decides on a crossing by the fair price of the sample that it is held against.
    pub fn ride(&self, inst: &str, c: &Crossing, fair_then: i64) -> (out: Option<TradeSignal>)
        ensures
            out is Some == rides(self@, *c, fair_then),
            out matches Some(s) ==> is_signal(s, self@.cfg, inst@, *c, fair_then),
    {
        let (push, pull, gate): (i128, i128, Gate) = self.gate(c, fair_then);
        if gate != Gate::Pass {
            return None;
        }
        let tot: i128 = push + pull;
        let pushed: i64 = if tot > 0 {
            sat(fixed::div_floor(push * 1_000_000, tot))
        } else if tot < 0 {
            sat(fixed::div_floor(-(push * 1_000_000), -tot))
        } else {
            0
        };
        Some(
            TradeSignal {
                strategy: "fair_ride".to_string(),
                ts_ns: c.row.now,
                reason: ride_text(c, pushed),
                reference: self.cfg.reference.clone(),
                target: inst.to_string(),
                direction: c.way,
                trigger: Trigger {
                    move_bps: div_toward_zero(sat(push), 10),
                    window_ms: if self.cfg.lookback_min_ms > 0 {
                        self.cfg.lookback_min_ms as u64
                    } else {
                        0
                    },
                    yes_price: if c.way > 0 {
                        sat(2 * c.row.ask as i128)
                    } else {
                        sat(2 * (1_000_000 - c.row.bid as i128))
                    },
                    target_move_c: Some(sat((c.row.mid as i128 - c.mid_then as i128) * 50)),
                },
                hold_ms: self.cfg.hold_ms,
                ttl_ms: self.cfg.ttl_ms,
            },
        )
    }

    fn on_calib(&mut self, c: &CalibUpdate, state: &MarketState) -> (out: Todo)
        requires
            old(self).wf(),
            c.reference@ == old(self)@.cfg.reference@,
        ensures
            final(self).wf(),
            final(self)@ == (RuleV {
                evs: old(self)@.evs.insert(
                    c.instrument@,
                    refitted(
                        event_in(old(self)@.evs, c.instrument@),
                        old(self)@.cfg.demean_window_ns > 0,
                        fit_of(*c),
                    ),
                ),
                ..old(self)@
            }),
            forall|ev: Event|
                ev.payload == Payload::Calib(*c) ==> #[trigger] is_todo(
                    out,
                    old(self)@,
                    ev,
                    state@,
                ),
    {
        let mut ev = self.take(c.instrument.as_str());
        let ghost v0 = ev@;
        ev.fit =
        Some(
            Fit { seq: c.seq, fitted_at_tte_ms: c.fitted_at_tte_ms, model_hash: c.model_hash },
        );
        let mut out = Todo::Nothing;
        if self.cfg.demean_window_ns > 0 {
            ev.base = VecDeque::new();
            ev.base_sum = 0;
            ev.base_last = 0;
            assert(ev.base@ =~= Seq::<(i64, i64)>::empty());
            if let Some(t) = state.get(c.instrument.as_str()) {
                if let (Some(strike), Some(expiry)) = (t.strike, t.expiry_ts_ns) {
                    let ps = points_of(&ev.ring, expiry, strike, c.seq);
                    out = Todo::Refit(c.instrument.clone(), ps);
                }
            }
        }
        let ghost v = ev@;
        assert(v =~= refitted(v0, old(self)@.cfg.demean_window_ns > 0, fit_of(*c)));
        self.put(c.instrument.as_str(), ev);
        assert(self@.evs =~= old(self)@.evs.insert(c.instrument@, v));
        out
    }

    /// Takes an event in, and says what it asks for.
    pub fn on_event(&mut self, ev: &Event, state: &MarketState) -> (out: Todo)
        requires
            old(self).wf(),
        ensures
            final(self).wf(),
            final(self)@ == after_event(old(self)@, *ev),
            is_todo(out, old(self)@, *ev, state@),
    {
        let wanted: bool = self.feats.active() || self.two_price;
        match &ev.payload {
            Payload::Calib(c) => {
                if same(c.reference.as_str(), self.cfg.reference.as_str()) {
                    self.on_calib(c, state)
                } else {
                    Todo::Nothing
                }
            },
            Payload::Book(b) => {
                if same(b.instrument.as_str(), self.cfg.reference.as_str()) {
                    if wanted {
                        if let Some((mid, bq, aq)) = read_top(&b.bids, &b.asks) {
                            self.feats.on_perp(b.recv_ts_ns, mid, bq, aq);
                        }
                    }
                    let keys = self.evs.keys();
                    assert(self.evs@.dom() =~= self@.evs.dom());
                    Todo::Look(keys, b.recv_ts_ns)
                } else if wanted && same(
                    b.instrument.as_str(),
                    self.cfg.basis_reference.as_str(),
                ) {
                    if let Some((mid, _, _)) = read_top(&b.bids, &b.asks) {
                        self.feats.on_cb(b.recv_ts_ns, mid);
                    }
                    Todo::Nothing
                } else if ends_with(b.instrument.as_str(), ".YES") {
                    let mut one: Vec<String> = Vec::new();
                    one.push(b.instrument.clone());
                    assert(text::views(one@) =~= seq![b.instrument@]);
                    Todo::Look(one, b.recv_ts_ns)
                } else {
                    Todo::Nothing
                }
            },
            Payload::Trade(t) => {
                let vol = joined(self.cfg.reference.as_str(), ".vol");
                if self.feats.active() && same(t.instrument.as_str(), vol.as_str()) {
                    self.feats.on_perp_trade(t.recv_ts_ns, t.qty);
                }
                Todo::Nothing
            },
            Payload::Meta(m) => {
                let over: bool = match m.status {
                    MarketStatus::Expired => true,
                    MarketStatus::Resolved => true,
                    _ => false,
                };
                if over {
                    let _ = self.evs.remove(m.instrument.as_str());
                    assert(self@.evs =~= old(self)@.evs.remove(m.instrument@));
                } else if m.strike.is_some() {
                    let e = self.take(m.instrument.as_str());
                    let ghost v = e@;
                    self.put(m.instrument.as_str(), e);
                    assert(self@.evs =~= old(self)@.evs.insert(m.instrument@, v));
                }
                Todo::Nothing
            },
            _ => Todo::Nothing,
        }
    }

    /// Rebuilds the mean of a market from these gaps.
    pub fn prefill(&mut self, inst: &str, points: &Vec<(i64, i64, i64)>)
        requires
            old(self).wf(),
        ensures
            final(self).wf(),
            final(self)@ == (RuleV {
                evs: old(self)@.evs.insert(
                    inst@,
                    rebuilt(event_in(old(self)@.evs, inst@), points@),
                ),
                ..old(self)@
            }),
    {
        let mut ev = self.take(inst);
        let ghost v0 = ev@;
        ev.base = VecDeque::new();
        ev.base_sum = 0;
        ev.base_last = 0;
        let mut i: usize = 0;
        assert(ev@ =~= rebuilt(v0, points@.take(0)));
        while i < points.len()
            invariant
                i <= points@.len(),
                ev.wf(),
                ev@ == rebuilt(v0, points@.take(i as int)),
            decreases points@.len() - i,
        {
            let (ts, mid, fair): (i64, i64, i64) = points[i];
            let gap = sat(fair as i128 - mid as i128 * 500);
            ev.note_gap(ts, gap);
            assert(ev@ =~= rebuilt(v0, points@.take(i + 1)));
            i = i + 1;
        }
        assert(points@.take(points@.len() as int) =~= points@);
        let ghost v = ev@;
        self.put(inst, ev);
        assert(self@.evs =~= old(self)@.evs.insert(inst@, v));
    }
}

fn find_within(q: &VecDeque<(i64, Sample)>, lo: i128, hi: i128) -> (r: Option<usize>)
    ensures
        match r {
            Some(i) => i < q@.len() && last_within(
                earlier(sample_views(q@)),
                lo as int,
                hi as int,
            ) == Some(sample_views(q@)[i as int]),
            None => last_within(earlier(sample_views(q@)), lo as int, hi as int) is None,
        },
{
    if q.len() == 0 {
        return None;
    }
    let ghost s = sample_views(q@);
    let mut i: usize = q.len() - 1;
    assert(earlier(s) =~= s.take(i as int));
    while i > 0
        invariant
            s == sample_views(q@),
            i < q@.len(),
            last_within(earlier(s), lo as int, hi as int) == last_within(
                s.take(i as int),
                lo as int,
                hi as int,
            ),
        decreases i,
    {
        let ghost x = s.take(i as int);
        assert(x.last() == s[i - 1]);
        assert(x.drop_last() =~= s.take(i - 1));
        let t: i128 = q[i - 1].0 as i128;
        if lo <= t && t <= hi {
            return Some(i - 1);
        }
        i = i - 1;
    }
    None
}

fn points_of(q: &VecDeque<(i64, Sample)>, expiry: i64, strike: i64, fit: u64) -> (r: Vec<Point>)
    ensures
        are_points(
            r@,
            sample_views(q@),
            picks(sample_views(q@), expiry),
            expiry,
            strike,
            fit,
        ),
{
    let ghost s = sample_views(q@);
    let mut r: Vec<Point> = Vec::new();
    let mut last: i64 = 0;
    let mut i: usize = 0;
    assert(s.take(0) =~= Seq::<(i64, SampleV)>::empty());
    while i < q.len()
        invariant
            s == sample_views(q@),
            i <= q@.len(),
            are_points(r@, s, picks(s.take(i as int), expiry), expiry, strike, fit),
            forall|j: int|
                0 <= j < picks(s.take(i as int), expiry).len() ==> 0 <= #[trigger] picks(
                    s.take(i as int),
                    expiry,
                )[j] < i,
            last == (if r@.len() == 0 {
                0
            } else {
                r@.last().ts as int
            }),
        decreases q@.len() - i,
    {
        let ghost t = s.take(i + 1);
        let ghost p = picks(s.take(i as int), expiry);
        assert(t.drop_last() =~= s.take(i as int));
        assert(t.last() == s[i as int]);
        proof {
            if p.len() > 0 {
                assert(0 <= p[p.len() - 1] < i);
                assert(t[p.last()] == s[p.last()]);
                assert(r@[r@.len() - 1].ts == s[p[p.len() - 1]].0);
            }
        }
        let ts: i64 = q[i].0;
        if ts as i128 - last as i128 >= 1_000_000_000 && ts < expiry {
            let ghost r0 = r@;
            let query = query_of(&q[i].1, expiry as i128 - ts as i128, strike, fit);
            let pt = Point { ts, mid: q[i].1.mid, query };
            r.push(pt);
            last = ts;
            assert(picks(t, expiry) == p.push(i as int));
            assert forall|j: int| 0 <= j < r@.len() implies {
                let x = s[picks(t, expiry)[j]];
                &&& (#[trigger] r@[j]).ts == x.0
                &&& r@[j].mid == x.1.mid
                &&& asks(r@[j].query, x.1, expiry - x.0, strike, fit)
            } by {
                if j < r0.len() {
                    assert(r@[j] == r0[j]);
                }
            }
        }
        i = i + 1;
    }
    assert(s.take(s.len() as int) =~= s);
    r
}

/// One trade for each dislocation: a crossing disarms the event, and an event that is not
/// armed has no crossing.
pub proof fn law_crossings_disarm(v: RideV, cfg: FairRideCfg, now: i64, gap: i64)
    ensures
        weighed(v, cfg, now, gap).1 is Some ==> v.armed && !weighed(v, cfg, now, gap).0.armed,
        !v.armed ==> weighed(v, cfg, now, gap).1 is None,
{
}

/// The crossings of an event stay within their number.
pub proof fn law_crossings_are_capped(v: RideV, cfg: FairRideCfg, now: i64, gap: i64)
    requires
        v.entries <= cfg.max_entries_per_event,
    ensures
        weighed(v, cfg, now, gap).0.entries <= cfg.max_entries_per_event,
        weighed(v, cfg, now, gap).0.entries == v.entries + (if weighed(v, cfg, now, gap).1 is Some {
            1int
        } else {
            0
        }),
{
}

/// A trigger on the other side rearms at once, however large it is.
pub proof fn law_a_flip_rearms(v: RideV, cfg: FairRideCfg, now: i64, gap: i64, num: int, den: int)
    requires
        !v.armed,
        v.dir == 1 || v.dir == -1,
        cfg.rearm_eps >= 0,
        trigger_at(v, cfg, now, gap) == Some((num, den)),
        v.dir == 1 ==> num < 0,
        v.dir == -1 ==> num > 0,
    ensures
        weighed(v, cfg, now, gap).0.armed,
{
    assert(num * v.dir <= 0) by (nonlinear_arith)
        requires
            v.dir == 1 || v.dir == -1,
            v.dir == 1 ==> num < 0,
            v.dir == -1 ==> num > 0,
    ;
    assert(cfg.rearm_eps * den >= 0) by (nonlinear_arith)
        requires
            cfg.rearm_eps >= 0,
            den > 0,
    ;
}

/// A trigger on the same side rearms only once it is back within the hysteresis.
pub proof fn law_the_same_side_has_to_come_back(
    v: RideV,
    cfg: FairRideCfg,
    now: i64,
    gap: i64,
    num: int,
    den: int,
)
    requires
        !v.armed,
        v.dir == 1 || v.dir == -1,
        trigger_at(v, cfg, now, gap) == Some((num, den)),
        v.dir == 1 ==> num > cfg.rearm_eps * den,
        v.dir == -1 ==> -num > cfg.rearm_eps * den,
    ensures
        !weighed(v, cfg, now, gap).0.armed,
{
    assert(num * v.dir == if v.dir == 1 {
        num
    } else {
        -num
    }) by (nonlinear_arith)
        requires
            v.dir == 1 || v.dir == -1,
    ;
}

/// What a crossing is held against is as old as it has to be.
pub proof fn law_the_lookback_is_old_enough(v: RideV, cfg: FairRideCfg, now: i64)
    ensures
        look_back(v, cfg, now) matches Some(x) ==> now - cfg.lookback_max_ms * 1_000_000 <= x.0
            <= now - cfg.lookback_min_ms * 1_000_000,
{
    lemma_within(
        earlier(v.ring),
        now - cfg.lookback_max_ms * 1_000_000,
        now - cfg.lookback_min_ms * 1_000_000,
    );
}

proof fn lemma_within(s: Seq<(i64, SampleV)>, lo: int, hi: int)
    ensures
        last_within(s, lo, hi) matches Some(x) ==> lo <= x.0 <= hi,
    decreases s.len(),
{
    if s.len() > 0 {
        lemma_within(s.drop_last(), lo, hi);
    }
}

/// A refit moves neither the arming nor the count of an event, only its fit and its mean.
pub proof fn law_a_refit_is_no_crossing(v: RideV, demeaned: bool, f: Fit)
    ensures
        refitted(v, demeaned, f).armed == v.armed,
        refitted(v, demeaned, f).entries == v.entries,
        refitted(v, demeaned, f).dir == v.dir,
        refitted(v, demeaned, f).ring == v.ring,
{
}

/// What some gaps come to, in billionths. Means are rounded down; the shares are those of the
/// sizes of the gaps.
#[derive(Clone, Copy, Debug, PartialEq, Eq, Structural)]
pub struct GapSummary {
    pub n: usize,
    pub mean: i64,
    pub abs_mean: i128,
    pub p50: i128,
    pub p90: i128,
    pub p99: i128,
    pub max: i128,
    /// How many are large enough to trade.
    pub ge_delta: usize,
}

/// The sum of some numbers.
pub open spec fn sum_of(s: Seq<i64>) -> int
    decreases s.len(),
{
    if s.len() == 0 {
        0
    } else {
        sum_of(s.drop_last()) + s.last()
    }
}

/// The sum of their sizes.
pub open spec fn abs_sum(s: Seq<i64>) -> int
    decreases s.len(),
{
    if s.len() == 0 {
        0
    } else {
        abs_sum(s.drop_last()) + fixed::magnitude(s.last() as int)
    }
}

/// How many are at least so large.
pub open spec fn count_large(s: Seq<i64>, delta: i64) -> nat
    decreases s.len(),
{
    if s.len() == 0 {
        0
    } else {
        count_large(s.drop_last(), delta) + (if fixed::magnitude(s.last() as int) >= delta {
            1nat
        } else {
            0
        })
    }
}

/// `s` with a number put in by its size.
pub open spec fn size_placed(s: Seq<i128>, x: i128) -> Seq<i128>
    decreases s.len(),
{
    if s.len() == 0 || s.last() <= x {
        s.push(x)
    } else {
        size_placed(s.drop_last(), x).push(s.last())
    }
}

/// The sizes of some numbers, smallest first.
pub open spec fn sizes_sorted(s: Seq<i64>) -> Seq<i128>
    decreases s.len(),
{
    if s.len() == 0 {
        Seq::empty()
    } else {
        size_placed(sizes_sorted(s.drop_last()), fixed::magnitude(s.last() as int) as i128)
    }
}

/// The place of a percentile among `n`: the nearest.
pub open spec fn rank(p: int, n: int) -> int {
    (2 * p * (n - 1) + 100) / 200
}

/// What some gaps come to.
pub open spec fn is_summary(g: GapSummary, s: Seq<i64>, delta: i64) -> bool {
    let sorted = sizes_sorted(s);
    &&& g.n == s.len()
    &&& g.mean == sum_of(s) / s.len() as int
    &&& g.abs_mean == abs_sum(s) / s.len() as int
    &&& g.p50 == sorted[rank(50, s.len() as int)]
    &&& g.p90 == sorted[rank(90, s.len() as int)]
    &&& g.p99 == sorted[rank(99, s.len() as int)]
    &&& g.max == sorted.last()
    &&& g.ge_delta == count_large(s, delta)
}

proof fn lemma_sizes_len(s: Seq<i64>)
    ensures
        sizes_sorted(s).len() == s.len(),
    decreases s.len(),
{
    if s.len() > 0 {
        lemma_sizes_len(s.drop_last());
        lemma_placed_len(
            sizes_sorted(s.drop_last()),
            fixed::magnitude(s.last() as int) as i128,
        );
    }
}

proof fn lemma_placed_len(s: Seq<i128>, x: i128)
    ensures
        size_placed(s, x).len() == s.len() + 1,
    decreases s.len(),
{
    if s.len() > 0 && s.last() > x {
        lemma_placed_len(s.drop_last(), x);
    }
}

fn place_size(v: &mut Vec<i128>, x: i128)
    ensures
        final(v)@ == size_placed(old(v)@, x),
{
    let ghost s = v@;
    let mut k: usize = v.len();
    assert(s.take(k as int) =~= s);
    assert(size_placed(s, x) =~= size_placed(s.take(k as int), x) + s.skip(k as int));
    while k > 0 && v[k - 1] > x
        invariant
            s == v@,
            k <= v@.len(),
            size_placed(s, x) == size_placed(s.take(k as int), x) + s.skip(k as int),
        decreases k,
    {
        let ghost t = s.take(k as int);
        assert(t.last() == s[k - 1]);
        assert(t.drop_last() =~= s.take(k - 1));
        assert(size_placed(s.take(k - 1), x).push(t.last()) + s.skip(k as int) =~= size_placed(
            s.take(k - 1),
            x,
        ) + s.skip(k - 1));
        k = k - 1;
    }
    proof {
        let t = s.take(k as int);
        if k > 0 {
            assert(t.last() == s[k - 1]);
        }
        assert(size_placed(t, x) == t.push(x));
    }
    v.insert(k, x);
    assert(v@ =~= s.take(k as int).push(x) + s.skip(k as int));
}

fn rank_of(p: u64, n: usize) -> (r: usize)
    requires
        p <= 99,
        n > 0,
    ensures
        r == rank(p as int, n as int),
        r < n,
{
    let m: u128 = (n - 1) as u128;
    let q: u128 = 2 * p as u128;
    assert(0 <= q * m <= 198 * m) by (nonlinear_arith)
        requires
            0 <= q <= 198,
            m >= 0,
    ;
    let x: u128 = q * m;
    let r: u128 = (x + 100) / 200;
    r as usize
}

/// What some gaps come to; nothing without any.
pub fn gap_summary(samples: &Vec<i64>, delta: i64) -> (r: Option<GapSummary>)
    ensures
        match r {
            Some(g) => samples@.len() > 0 && is_summary(g, samples@, delta),
            None => samples@.len() == 0,
        },
{
    let n: usize = samples.len();
    if n == 0 {
        return None;
    }
    let mut sum: i128 = 0;
    let mut abs: i128 = 0;
    let mut large: usize = 0;
    let mut sorted: Vec<i128> = Vec::new();
    let mut i: usize = 0;
    let ghost s = samples@;
    assert(s.take(0) =~= Seq::<i64>::empty());
    while i < n
        invariant
            s == samples@,
            n == s.len(),
            i <= n,
            sum == sum_of(s.take(i as int)),
            abs == abs_sum(s.take(i as int)),
            -9223372036854775808 * i <= sum <= 9223372036854775807 * i,
            0 <= abs <= 9223372036854775808 * i,
            large == count_large(s.take(i as int), delta),
            large <= i,
            sorted@ == sizes_sorted(s.take(i as int)),
        decreases n - i,
    {
        assert(s.take(i + 1).drop_last() =~= s.take(i as int));
        assert(s.take(i + 1).last() == s[i as int]);
        let x: i64 = samples[i];
        let a = abs64(x);
        assert(9223372036854775808 * (i + 1) <= 170141183460469231731687303715884105727) by (nonlinear_arith)
            requires
                i < 18446744073709551615,
        ;
        sum = sum + x as i128;
        abs = abs + a;
        if a >= delta as i128 {
            large = large + 1;
        }
        place_size(&mut sorted, a);
        i = i + 1;
    }
    proof {
        assert(s.take(s.len() as int) =~= s);
        lemma_sizes_len(s);
        let k = n as int;
        assert(-9223372036854775808 * k >= -170141183460469231722463931679029329920) by (nonlinear_arith)
            requires
                k <= 18446744073709551615,
        ;
        assert(-9223372036854775808 <= sum as int / k <= 9223372036854775807) by (nonlinear_arith)
            requires
                -9223372036854775808 * k <= sum <= 9223372036854775807 * k,
                k > 0,
        ;
    }
    Some(
        GapSummary {
            n,
            mean: fixed::div_floor(sum, n as i128) as i64,
            abs_mean: fixed::div_floor(abs, n as i128),
            p50: sorted[rank_of(50, n)],
            p90: sorted[rank_of(90, n)],
            p99: sorted[rank_of(99, n)],
            max: sorted[n - 1],
            ge_delta: large,
        },
    )
}

proof fn lemma_placed_sorted(s: Seq<i128>, x: i128)
    requires
        forall|i: int, j: int| 0 <= i <= j < s.len() ==> s[i] <= s[j],
    ensures
        ({
            let t = size_placed(s, x);
            &&& forall|i: int, j: int| 0 <= i <= j < t.len() ==> t[i] <= t[j]
            &&& forall|i: int| 0 <= i < t.len() ==> #[trigger] t[i] == x || s.contains(t[i])
        }),
    decreases s.len(),
{
    let t = size_placed(s, x);
    if s.len() == 0 || s.last() <= x {
        assert forall|i: int, j: int| 0 <= i <= j < t.len() implies t[i] <= t[j] by {
            if j == s.len() && i < j {
                assert(s[i] <= s[s.len() - 1]);
            }
        }
        assert forall|i: int| 0 <= i < t.len() implies #[trigger] t[i] == x || s.contains(t[i]) by {
            if i < s.len() {
                assert(s[i] == t[i]);
            }
        }
    } else {
        let d = s.drop_last();
        lemma_placed_sorted(d, x);
        let u = size_placed(d, x);
        assert(t =~= u.push(s.last()));
        assert forall|i: int, j: int| 0 <= i <= j < t.len() implies t[i] <= t[j] by {
            if j == u.len() && i < j {
                assert(u[i] == x || d.contains(u[i]));
                if d.contains(u[i]) {
                    let k = choose|k: int| 0 <= k < d.len() && d[k] == u[i];
                    assert(s[k] <= s[s.len() - 1]);
                }
            } else if j < u.len() {
                assert(u[i] <= u[j]);
            }
        }
        assert forall|i: int| 0 <= i < t.len() implies #[trigger] t[i] == x || s.contains(t[i]) by {
            if i < u.len() {
                assert(u[i] == x || d.contains(u[i]));
                if d.contains(u[i]) {
                    let k = choose|k: int| 0 <= k < d.len() && d[k] == u[i];
                    assert(s[k] == t[i]);
                }
            } else {
                assert(s[s.len() - 1] == t[i]);
            }
        }
    }
}

/// The sizes that the shares are read off stand in their order.
pub proof fn law_sizes_are_sorted(s: Seq<i64>)
    ensures
        forall|i: int, j: int|
            0 <= i <= j < sizes_sorted(s).len() ==> sizes_sorted(s)[i] <= sizes_sorted(s)[j],
        sizes_sorted(s).len() == s.len(),
    decreases s.len(),
{
    lemma_sizes_len(s);
    if s.len() > 0 {
        law_sizes_are_sorted(s.drop_last());
        lemma_placed_sorted(
            sizes_sorted(s.drop_last()),
            fixed::magnitude(s.last() as int) as i128,
        );
    }
}

/// Whether the gaps are summed up now that there are `n` of them, and the instant from which
/// the next time is counted: the first gap only sets that instant, where it is not known yet;
/// after that they are summed up once a minute, or as soon as there are 50,000.
pub fn gap_due(flushed_ns: i64, n: usize, now: i64) -> (r: (bool, i64))
    ensures
        r == if flushed_ns == 0 {
            (false, now)
        } else if now - flushed_ns >= 60_000_000_000 || n >= 50_000 {
            (true, now)
        } else {
            (false, flushed_ns)
        },
{
    if flushed_ns == 0 {
        (false, now)
    } else if now as i128 - flushed_ns as i128 >= 60_000_000_000 || n >= 50_000 {
        (true, now)
    } else {
        (false, flushed_ns)
    }
}

/// Whether a line that comes once in `every_ns` is due, and the instant from which the next
/// one is counted.
pub fn line_due(last_ns: i64, every_ns: i64, now: i64) -> (r: (bool, i64))
    ensures
        r == if now - last_ns >= every_ns {
            (true, now)
        } else {
            (false, last_ns)
        },
{
    if now as i128 - last_ns as i128 >= every_ns as i128 {
        (true, now)
    } else {
        (false, last_ns)
    }
}

/// What the fair price pushed and what the market drew back come to the opening of the gap
/// in the way of the crossing. With the fair price unchanged, a mid that fell before an up
/// crossing drew the gap open; with the mid unchanged, a fair price that rose did.
pub proof fn law_push_and_pull_open_the_gap(c: Crossing, fair_then: i64)
    ensures
        push_of(c.way, c.fair, fair_then) + pull_of(c.way, c.row.mid, c.mid_then) == c.way * ((
        c.fair - c.row.mid * 500) - (fair_then - c.mid_then * 500)),
        c.way == 1 && c.row.mid < c.mid_then ==> pull_of(c.way, c.row.mid, c.mid_then) > 0,
        c.way == 1 && c.row.mid > c.mid_then ==> pull_of(c.way, c.row.mid, c.mid_then) < 0,
        c.way == -1 && c.row.mid > c.mid_then ==> pull_of(c.way, c.row.mid, c.mid_then) > 0,
        c.way == 1 && c.fair > fair_then ==> push_of(c.way, c.fair, fair_then) > 0,
        c.way == -1 && c.fair < fair_then ==> push_of(c.way, c.fair, fair_then) > 0,
        c.fair == fair_then ==> push_of(c.way, c.fair, fair_then) == 0,
        c.row.mid == c.mid_then ==> pull_of(c.way, c.row.mid, c.mid_then) == 0,
{
    let w = c.way as int;
    let (f, g) = (c.fair as int, fair_then as int);
    let (m, n) = (c.row.mid as int, c.mid_then as int);
    assert(w * (f - g) + w * (n - m) * 500 == w * ((f - m * 500) - (g - n * 500)))
        by (nonlinear_arith);
    assert(f == g ==> w * (f - g) == 0) by (nonlinear_arith);
    assert(m == n ==> w * (n - m) == 0) by (nonlinear_arith);
}

/// A crossing passes exactly where the gap opened by more than the least, the fair price has
/// more than the least share in that, and the other reference is fresh where that is asked
/// for. One that opened by the market alone does not pass.
pub proof fn law_only_pushed_gaps_pass(r: RuleV, c: Crossing, fair_then: i64)
    requires
        c.way == 1 || c.way == -1,
        r.cfg.open_min >= 0,
    ensures
        ({
            let push = c.way * (c.fair - fair_then);
            let open = c.way * ((c.fair - c.row.mid * 500) - (fair_then - c.mid_then * 500));
            let enough = open > r.cfg.open_min && push * 1_000_000 > r.cfg.share_min * open;
            let stale = r.cfg.stale_veto_ns > 0 && r.two_price && (r.feats.cb is None
                || c.row.now - (r.feats.cb->0).0 > r.cfg.stale_veto_ns);
            &&& gate_of(r, c, fair_then) == Gate::Reject <==> !enough
            &&& gate_of(r, c, fair_then) == Gate::Stale <==> enough && stale
            &&& gate_of(r, c, fair_then) == Gate::Pass <==> enough && !stale
            &&& c.fair == fair_then && r.cfg.share_min >= 0 ==> gate_of(r, c, fair_then)
                == Gate::Reject
        }),
{
    law_push_and_pull_open_the_gap(c, fair_then);
    let open = c.way * ((c.fair - c.row.mid * 500) - (fair_then - c.mid_then * 500));
    let s = r.cfg.share_min as int;
    assert(s >= 0 && open > 0 ==> s * open >= 0) by (nonlinear_arith);
}

/// Where the gap is taken as it is, an armed event crosses exactly where its entries are not
/// used up and the fair price stands at least the threshold above or below the market; the
/// crossing goes up where it stands above, and down where it stands below.
pub proof fn law_crossings_go_the_way_of_the_gap(
    v: RideV,
    cfg: FairRideCfg,
    now: i64,
    fair: i64,
    mid: i64,
)
    requires
        cfg.demean_window_ns <= 0,
        v.armed,
        i64::MIN <= fair - mid * 500 <= i64::MAX,
        cfg.delta > 0,
    ensures
        ({
            let (u, x) = weighed(v, cfg, now, gap_of(fair, mid));
            let gap = fair - mid * 500;
            &&& x is Some <==> v.entries < cfg.max_entries_per_event && (gap >= cfg.delta || gap
                <= -cfg.delta)
            &&& x is Some && gap > 0 ==> u.dir == 1 && way((x->0).0) == 1
            &&& x is Some && gap < 0 ==> u.dir == -1 && way((x->0).0) == -1
            &&& x is Some ==> sig_of(x->0) == gap
            &&& x is None ==> u == v
        }),
{
}

/// Where the gap is taken over its mean, what crosses is how far it stands over the mean of
/// the recent gaps: a gap that is like all the others is no crossing, one that is larger by
/// so much counts for so much.
pub proof fn law_crossings_stand_out_of_the_mean(v: RideV, gap: i64, usual: i64)
    requires
        v.base.len() >= 5,
        forall|i: int| 0 <= i < v.base.len() ==> (#[trigger] v.base[i]).1 == usual,
    ensures
        trigger_of(v, true, gap) matches Some(t) && t.1 == v.base.len() && t.0 == (gap - usual)
            * t.1,
{
    lemma_total_of_equals(v.base, usual);
    let n = v.base.len() as int;
    assert(gap * n - usual * n == (gap - usual) * n) by (nonlinear_arith);
}

/// The sum of equal parts.
proof fn lemma_total_of_equals(s: Seq<(i64, i64)>, x: i64)
    requires
        forall|i: int| 0 <= i < s.len() ==> (#[trigger] s[i]).1 == x,
    ensures
        total(s) == x * s.len(),
    decreases s.len(),
{
    if s.len() > 0 {
        let r = s.drop_last();
        assert forall|i: int| 0 <= i < r.len() implies (#[trigger] r[i]).1 == x by {
            assert(s[i].1 == x);
        }
        lemma_total_of_equals(r, x);
        let n = s.len() as int;
        assert(s.last() == s[n - 1]);
        assert(x * (n - 1) + x == x * n) by (nonlinear_arith);
    } else {
        assert(x * 0 == 0);
    }
}

/// A mean takes a gap a second at most, and leaves out those before its window; below five
/// gaps there is none.
pub proof fn law_means_take_a_gap_a_second(v: RideV, win_ns: i64, now: i64, gap: i64)
    requires
        ring::in_order(v.base),
    ensures
        ({
            let u = base_after(v, win_ns, now, gap);
            &&& now - v.base_last < 1_000_000_000 ==> u.base == v.base.filter(
                |x: (i64, i64)| x.0 >= now - win_ns,
            ) && u.base_last == v.base_last
            &&& now - v.base_last >= 1_000_000_000 ==> u.base == v.base.filter(
                |x: (i64, i64)| x.0 >= now - win_ns,
            ).push((now, gap)) && u.base_last == now
            &&& u.ring == v.ring && u.armed == v.armed && u.dir == v.dir && u.entries == v.entries
            &&& v.base.len() < 5 ==> trigger_of(v, true, gap) is None
        }),
{
    ring::law_dropped_keeps_the_recent(v.base, now - win_ns);
}

/// Within the hysteresis an event rearms, on whichever side the last crossing was.
pub proof fn law_events_rearm_within_the_hysteresis(
    v: RideV,
    cfg: FairRideCfg,
    now: i64,
    gap: i64,
    num: int,
    den: int,
)
    requires
        !v.armed,
        v.dir == 1 || v.dir == -1,
        trigger_at(v, cfg, now, gap) == Some((num, den)),
        -cfg.rearm_eps * den <= num <= cfg.rearm_eps * den,
    ensures
        weighed(v, cfg, now, gap).0.armed,
        weighed(v, cfg, now, gap).1 is None,
{
    let e = cfg.rearm_eps as int;
    assert((-e) * den == -(e * den)) by (nonlinear_arith);
}

/// What a crossing is held against is the youngest sample that is old enough: none that is
/// between the two ages comes after it, but for the one just taken.
pub proof fn law_the_lookback_is_the_youngest(v: RideV, cfg: FairRideCfg, now: i64, i: int)
    requires
        0 <= i < v.ring.len() - 1,
        now - cfg.lookback_max_ms * 1_000_000 <= v.ring[i].0 <= now - cfg.lookback_min_ms
            * 1_000_000,
    ensures
        look_back(v, cfg, now) matches Some(x) && exists|j: int|
            i <= j < v.ring.len() - 1 && #[trigger] v.ring[j] == x,
{
    let lo = now - cfg.lookback_max_ms * 1_000_000;
    let hi = now - cfg.lookback_min_ms * 1_000_000;
    let s = earlier(v.ring);
    assert(s[i] == v.ring[i]);
    lemma_last_within(s, lo, hi, i);
    let j = choose|j: int| i <= j < s.len() && #[trigger] s[j] == last_within(s, lo, hi)->0;
    assert(v.ring[j] == s[j]);
}

/// No sample within comes after the last one.
proof fn lemma_last_within(s: Seq<(i64, SampleV)>, lo: int, hi: int, i: int)
    requires
        0 <= i < s.len(),
        lo <= s[i].0 <= hi,
    ensures
        last_within(s, lo, hi) matches Some(x) && exists|j: int|
            i <= j < s.len() && #[trigger] s[j] == x,
    decreases s.len(),
{
    let n = s.len() as int;
    if lo <= s.last().0 <= hi {
        assert(s[n - 1] == s.last());
    } else {
        let r = s.drop_last();
        assert(r[i] == s[i]);
        lemma_last_within(r, lo, hi, i);
        let j = choose|j: int| i <= j < r.len() && #[trigger] r[j] == last_within(r, lo, hi)->0;
        assert(s[j] == r[j]);
    }
}

/// A look at a market takes a sample exactly where it has an end ahead and a strike, the
/// reference has a fresh mid, the book has two sides within the widest spread and is fresh,
/// and the features are there. The sample has the reference's mid and the market's.
pub proof fn law_what_a_look_samples(
    cfg: FairRideCfg,
    f: FeatureV,
    two_price: bool,
    m: MarketStateV,
    inst: Seq<char>,
    now: i64,
)
    requires
        m.instruments.contains_key(inst),
        m.instruments.contains_key(cfg.reference@),
    ensures
        ({
            let t = m.instruments[inst];
            let r = m.instruments[cfg.reference@];
            let row = row_of(cfg, f, two_price, m, inst, now);
            let listed = t.expiry_ts_ns is Some && t.strike is Some;
            let fit = r.mid is Some && r.mid->0 > 0 && now - r.recv_ts_ns <= cfg.ref_max_age_ms
                * 1_000_000 && 0 < t.best_bid < t.best_ask && t.best_ask - t.best_bid
                <= cfg.max_spread && now - t.recv_ts_ns <= cfg.stale_ms * 1_000_000;
            &&& row is Missing <==> !listed
            &&& row is Over <==> listed && now >= t.expiry_ts_ns->0
            &&& listed && now < t.expiry_ts_ns->0 && !fit ==> row is Bad
            &&& listed && now < t.expiry_ts_ns->0 && fit && extras_at(f, two_price, now) is Some
                ==> row is Row
            &&& row matches RowV::Row(s, expiry, strike) ==> s.px == r.mid->0 && (t.best_bid
                + t.best_ask <= i64::MAX ==> s.mid == t.best_bid + t.best_ask) && expiry
                == t.expiry_ts_ns->0 && strike == t.strike->0
        }),
{
}

/// A fit is traded on exactly while it is of this model, younger than a refit and its grace,
/// and the time left is within its bounds.
pub proof fn law_fits_are_traded_in_their_time(
    cfg: FairRideCfg,
    f: Fit,
    model_hash: u64,
    tte_ns: int,
)
    ensures
        may_enter(cfg, Some(f), model_hash, tte_ns) <==> (f.model_hash == model_hash
            && f.fitted_at_tte_ms * 1_000_000 - tte_ns <= cfg.refit_every_ns + cfg.calib_grace_ns
            && cfg.entry_min_tte_ns < tte_ns && tte_ns <= cfg.entry_max_tte_ns),
        !may_enter(cfg, None, model_hash, tte_ns),
{
}

/// A question for a fair price is about the sample as it was, the time that was left then,
/// and the strike.
pub proof fn law_scans_ask_for_the_sample(out: Scan, r: RuleV, m: MarketStateV, inst: Seq<char>, now: i64)
    requires
        is_scan(out, r, m, inst, now),
        m.instruments.contains_key(inst),
        m.instruments.contains_key(r.cfg.reference@),
    ensures
        out matches Scan::Ask(q, row) ==> {
            let t = m.instruments[inst];
            &&& m.instruments[r.cfg.reference@].mid == Some(q.px) && q.px == row.px
            &&& t.strike == Some(q.strike) && t.strike == Some(row.strike)
            &&& t.expiry_ts_ns == Some(row.expiry) && row.now == now
            &&& i64::MIN <= row.expiry - now <= i64::MAX ==> q.tte_ns == row.expiry - now
            &&& row.bid == t.best_bid && row.ask == t.best_ask
            &&& r.evs.contains_key(inst) && (r.evs[inst].fit matches Some(f) && f.seq == q.fit)
        },
{
}

/// A ride buys what the fair price says is cheap: it goes the way of its crossing, at the ask
/// where it goes up, and at what the other side costs, one less the bid, where it goes down.
pub proof fn law_rides_buy_what_is_cheap(
    s: TradeSignal,
    cfg: FairRideCfg,
    inst: Seq<char>,
    c: Crossing,
    fair_then: i64,
)
    requires
        is_signal(s, cfg, inst, c, fair_then),
        0 <= c.row.bid <= c.row.ask <= 1_000_000,
        c.way == 1 || c.way == -1,
        -1_000_000_000_000 <= c.fair - fair_then <= 1_000_000_000_000,
        -2_000_000 <= c.row.mid - c.mid_then <= 2_000_000,
    ensures
        s.direction == c.way,
        s.target@ == inst,
        s.ts_ns == c.row.now,
        c.way == 1 ==> s.trigger.yes_price == 2 * c.row.ask,
        c.way == -1 ==> s.trigger.yes_price == 2_000_000 - 2 * c.row.bid,
        s.trigger.target_move_c == Some(((c.row.mid - c.mid_then) * 50) as i64),
        c.way * (c.fair - fair_then) >= 0 ==> 10 * s.trigger.move_bps <= c.way * (c.fair
            - fair_then) < 10 * s.trigger.move_bps + 10,
{
    let w = c.way as int;
    let d = c.fair - fair_then;
    assert(-1_000_000_000_000 <= w * d <= 1_000_000_000_000) by (nonlinear_arith)
        requires
            w == 1 || w == -1,
            -1_000_000_000_000 <= d <= 1_000_000_000_000,
    ;
}

/// The samples that a mean is rebuilt from are a second apart at least, before the end, and
/// in their order; each gap is the fair price less the mid.
pub proof fn law_rebuilt_means_are_of_gaps_a_second_apart(
    s: Seq<(i64, SampleV)>,
    expiry: i64,
    v: RideV,
    points: Seq<(i64, i64, i64)>,
)
    ensures
        forall|i: int|
            0 <= i < picks(s, expiry).len() ==> 0 <= #[trigger] picks(s, expiry)[i] < s.len()
                && s[picks(s, expiry)[i]].0 < expiry,
        forall|i: int, j: int|
            #![trigger picks(s, expiry)[i], picks(s, expiry)[j]]
            0 <= i < j < picks(s, expiry).len() && j == i + 1 ==> picks(s, expiry)[i] < picks(
                s,
                expiry,
            )[j] && s[picks(s, expiry)[j]].0 - s[picks(s, expiry)[i]].0 >= 1_000_000_000,
        forall|i: int|
            0 <= i < points.len() && i64::MIN <= points[i].2 - points[i].1 * 500 <= i64::MAX
                ==> #[trigger] rebuilt(v, points).base[i] == (
                points[i].0,
                (points[i].2 - points[i].1 * 500) as i64,
            ),
        rebuilt(v, points).base.len() == points.len(),
{
    lemma_picks(s, expiry);
}

/// The samples picked are a second apart.
proof fn lemma_picks(s: Seq<(i64, SampleV)>, expiry: i64)
    ensures
        forall|i: int|
            0 <= i < picks(s, expiry).len() ==> 0 <= #[trigger] picks(s, expiry)[i] < s.len()
                && s[picks(s, expiry)[i]].0 < expiry,
        forall|i: int, j: int|
            #![trigger picks(s, expiry)[i], picks(s, expiry)[j]]
            0 <= i < j < picks(s, expiry).len() && j == i + 1 ==> picks(s, expiry)[i] < picks(
                s,
                expiry,
            )[j] && s[picks(s, expiry)[j]].0 - s[picks(s, expiry)[i]].0 >= 1_000_000_000,
    decreases s.len(),
{
    if s.len() > 0 {
        let r = s.drop_last();
        lemma_picks(r, expiry);
        let p = picks(r, expiry);
        assert forall|i: int| 0 <= i < p.len() implies s[#[trigger] p[i]] == r[p[i]] by {}
        if p.len() > 0 {
            assert(p.last() == p[p.len() - 1]);
        }
    }
}

/// What a fair price leads to: a crossing is held against what the look back finds, with the
/// mid as it was then, the way of the trigger and the fair price; an event that rearms says
/// so; everything else leads to nothing.
pub proof fn law_what_a_fair_price_leads_to(out: Weighed, r: RuleV, inst: Seq<char>, row: Row, fair: i64)
    requires
        is_weighed(out, r, inst, row, fair),
        r.evs.contains_key(inst),
    ensures
        ({
            let (v, x) = weighed(r.evs[inst], r.cfg, row.now, gap_of(fair, row.mid));
            &&& x is Some ==> out is LookBack || out is NoLookBack
            &&& x is None ==> out is Nothing || out is Rearmed
            &&& out matches Weighed::LookBack(q, c) ==> {
                &&& c.row == row && c.fair == fair && c.entry == v.entries
                &&& (x->0).0 > 0 ==> c.way == 1
                &&& (x->0).0 <= 0 ==> c.way == -1
                &&& look_back(v, r.cfg, row.now) matches Some(b) && c.mid_then == b.1.mid && q.px
                    == b.1.px && q.strike == row.strike && q.fit == row.fit && (i64::MIN
                    <= row.expiry - b.0 <= i64::MAX ==> q.tte_ns == row.expiry - b.0)
            }
            &&& out matches Weighed::NoLookBack(c) ==> look_back(v, r.cfg, row.now) is None
                && c.mid_then == row.mid && c.fair == fair
            &&& out is Rearmed <==> x is None && !r.evs[inst].armed && v.armed
        }),
{
}

/// A look takes its sample into the event of its market, and lets go of a market that is
/// over; the arming and the count of an event are not touched by it.
pub proof fn law_looks_take_samples(r: RuleV, m: MarketStateV, inst: Seq<char>, now: i64)
    ensures
        ({
            let n = scanned(r, m, inst, now);
            let row = row_of(r.cfg, r.feats, r.two_price, m, inst, now);
            &&& row is Over ==> !n.evs.contains_key(inst)
            &&& row is Bad || row is Missing ==> n == r
            &&& row matches RowV::Row(s, _, _) ==> n.evs.contains_key(inst)
                && n.evs[inst].ring.last() == (now, s) && n.evs[inst].armed == event_in(
                r.evs,
                inst,
            ).armed && n.evs[inst].entries == event_in(r.evs, inst).entries && n.evs[inst].fit
                == event_in(r.evs, inst).fit
            &&& fresh().armed && fresh().entries == 0 && fresh().fit is None && fresh().dir == 0
        }),
{
}

/// A ride is taken exactly where its crossing passes.
pub proof fn law_rides_are_what_passes(r: RuleV, c: Crossing, fair_then: i64)
    ensures
        rides(r, c, fair_then) <==> gate_of(r, c, fair_then) == Gate::Pass,
{
}

/// What some gaps come to: the share is counted, the percentiles are read off the sorted
/// sizes at the nearest rank, and the sums add up.
pub proof fn law_summaries_add_up(s: Seq<i64>, x: i64, delta: i64, p: int, n: int)
    requires
        n >= 1,
        0 <= p <= 100,
    ensures
        sum_of(s.push(x)) == sum_of(s) + x,
        x >= 0 ==> abs_sum(s.push(x)) == abs_sum(s) + x,
        x < 0 ==> abs_sum(s.push(x)) == abs_sum(s) - x,
        x >= delta || -x >= delta ==> count_large(s.push(x), delta) == count_large(s, delta) + 1,
        x < delta && -x < delta ==> count_large(s.push(x), delta) == count_large(s, delta),
        0 <= rank(p, n) <= n - 1,
        -50 <= 100 * rank(p, n) - p * (n - 1) <= 50,
{
    assert(s.push(x).drop_last() =~= s);
    let k = p * (n - 1);
    assert(2 * p * (n - 1) == 2 * k) by (nonlinear_arith)
        requires
            k == p * (n - 1),
    ;
    assert(0 <= k <= 100 * (n - 1)) by (nonlinear_arith)
        requires
            k == p * (n - 1),
            0 <= p <= 100,
            n >= 1,
    ;
}

} // verus!
