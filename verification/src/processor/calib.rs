//! When the surface of a market is fitted anew, and on which samples. The fit itself is
//! made outside; its number names the fitted parameters.
use vstd::prelude::*;
use crate::event::{Event, Payload};
use crate::fixed;
use crate::fixed::sat;
use crate::model::{CalibUpdate, MarketMeta, MarketStatus};
use crate::processor::fair_ride;
use crate::processor::fair_ride::read_top;
use crate::processor::features;
use crate::processor::features::{copy_ratios, FeatureState, Ratio};
use crate::processor::features::FeatureV;
use crate::strmap;
use crate::strmap::StrMap;
use crate::text;
use crate::text::{ends_with, joined, same};

verus! {

/// The calibrator's settings. Times are in nanoseconds, unless they say otherwise.
#[derive(Debug)]
pub struct CalibCfg {
    pub enabled: bool,
    pub reference: String,
    pub basis_reference: String,
    /// The kind of market to calibrate.
    pub kind: String,
    pub model_path: String,
    pub first_tte_ns: i64,
    pub refit_every_ns: i64,
    pub last_tte_ns: i64,
    pub steps_first: u32,
    pub steps_refit: u32,
    pub min_rows: usize,
    pub sample_ms: i64,
    pub max_spread: i64,
    pub stale_ms: i64,
    /// Where positive, a fit only looks at the samples of this time before its boundary.
    pub fit_window_ns: i64,
}

impl Default for CalibCfg {
    fn default() -> (r: CalibCfg)
        ensures
            !r.enabled,
            r.reference@ == "coinbase.BTC"@,
            r.basis_reference@ == "coinbase.BTC"@,
            r.kind@ == "15m_updown"@,
            r.model_path@ == "models/fair-cb-x60.json"@,
            r.first_tte_ns == 300_000_000_000,
            r.refit_every_ns == 60_000_000_000,
            r.last_tte_ns == 60_000_000_000,
            r.steps_first == 150,
            r.steps_refit == 60,
            r.min_rows == 60,
            r.sample_ms == 1000,
            r.max_spread == 150_000,
            r.stale_ms == 1500,
            r.fit_window_ns == 0,
    {
        CalibCfg {
            enabled: false,
            reference: "coinbase.BTC".to_string(),
            basis_reference: "coinbase.BTC".to_string(),
            kind: "15m_updown".to_string(),
            model_path: "models/fair-cb-x60.json".to_string(),
            first_tte_ns: 300_000_000_000,
            refit_every_ns: 60_000_000_000,
            last_tte_ns: 60_000_000_000,
            steps_first: 150,
            steps_refit: 60,
            min_rows: 60,
            sample_ms: 1000,
            max_spread: 150_000,
            stale_ms: 1500,
            fit_window_ns: 0,
        }
    }
}

/// One sample to fit on. Mids are in halves of a micro-unit.
#[derive(Debug)]
pub struct FitRow {
    pub tte_ns: i64,
    pub px: i64,
    pub mid: i64,
    pub feats: Vec<Ratio>,
}

/// A sample, as the contracts see it.
pub struct RowV {
    pub tte_ns: i64,
    pub px: i64,
    pub mid: i64,
    pub feats: Seq<Ratio>,
}

impl View for FitRow {
    type V = RowV;

    open spec fn view(&self) -> RowV {
        RowV { tte_ns: self.tte_ns, px: self.px, mid: self.mid, feats: self.feats@ }
    }
}

/// The views of a run of samples.
pub open spec fn row_views(s: Seq<FitRow>) -> Seq<RowV> {
    Seq::new(s.len(), |i: int| s[i]@)
}

/// One market that is calibrated.
pub struct EventState {
    strike: i64,
    expiry_ns: i64,
    rows: Vec<FitRow>,
    last_sample_ns: i64,
    ybid: i64,
    yask: i64,
    y_ns: i64,
    fitted: bool,
    next_boundary_ns: i64,
    seq: u64,
}

/// A market that is calibrated, as the contracts see it.
#[verifier::ext_equal]
pub struct EventV {
    pub strike: i64,
    pub expiry_ns: i64,
    pub rows: Seq<RowV>,
    pub last_sample_ns: i64,
    pub ybid: i64,
    pub yask: i64,
    pub y_ns: i64,
    pub fitted: bool,
    /// The time to the end at which the next fit is made.
    pub next_boundary_ns: i64,
    /// The fits so far.
    pub seq: u64,
}

impl View for EventState {
    type V = EventV;

    closed spec fn view(&self) -> EventV {
        EventV {
            strike: self.strike,
            expiry_ns: self.expiry_ns,
            rows: row_views(self.rows@),
            last_sample_ns: self.last_sample_ns,
            ybid: self.ybid,
            yask: self.yask,
            y_ns: self.y_ns,
            fitted: self.fitted,
            next_boundary_ns: self.next_boundary_ns,
            seq: self.seq,
        }
    }
}

/// A market that is new.
pub open spec fn opened(strike: i64, expiry_ns: i64, first_tte_ns: i64) -> EventV {
    EventV {
        strike,
        expiry_ns,
        rows: Seq::empty(),
        last_sample_ns: 0,
        ybid: 0,
        yask: 0,
        y_ns: 0,
        fitted: false,
        next_boundary_ns: first_tte_ns,
        seq: 0,
    }
}

/// The reference and the features, as one look at the clock finds them.
pub struct Feeds {
    pub ref_px: i64,
    pub ref_ns: i64,
    pub feats: FeatureV,
}

/// Whether something heard at `t` is fresh.
pub open spec fn is_fresh(t: i64, now: i64, stale_ms: i64) -> bool {
    t > 0 && now - t <= stale_ms * 1_000_000
}

/// Whether a sample is due and can be taken: both sides are fresh, and the book has two
/// sides that are not too far apart.
pub open spec fn may_sample(e: EventV, cfg: CalibCfg, f: Feeds, now: i64) -> bool {
    &&& now - e.last_sample_ns >= cfg.sample_ms * 1_000_000
    &&& is_fresh(f.ref_ns, now, cfg.stale_ms)
    &&& is_fresh(e.y_ns, now, cfg.stale_ms)
    &&& 0 < e.ybid < e.yask
    &&& e.yask - e.ybid <= cfg.max_spread
}

/// The features of a sample.
pub open spec fn sample_feats(f: FeatureV, now: i64) -> Option<Seq<Ratio>> {
    if f.extras.len() > 0 {
        features::all_features(f, now)
    } else {
        Some(Seq::empty())
    }
}

/// A market after its sampling: one that cannot tell its features gives no sample, but
/// waits for the next turn all the same.
pub open spec fn sampled(e: EventV, cfg: CalibCfg, f: Feeds, now: i64) -> EventV {
    if may_sample(e, cfg, f, now) {
        EventV {
            rows: match sample_feats(f.feats, now) {
                Some(x) => e.rows.push(
                    RowV {
                        tte_ns: fixed::clamp64(e.expiry_ns - now) as i64,
                        px: f.ref_px,
                        mid: fixed::clamp64(e.ybid + e.yask) as i64,
                        feats: x,
                    },
                ),
                None => e.rows,
            },
            last_sample_ns: now,
            ..e
        }
    } else {
        e
    }
}

/// Whether a sample is in the window of a fit.
pub open spec fn in_window(tte_ns: i64, boundary_ns: i64, window_ns: i64) -> bool {
    boundary_ns < tte_ns <= boundary_ns + window_ns
}

/// The samples of a fit: all, or those of its window.
pub open spec fn fit_rows(rows: Seq<RowV>, boundary_ns: i64, window_ns: i64) -> Seq<RowV>
    decreases rows.len(),
{
    if window_ns <= 0 {
        rows
    } else if rows.len() == 0 {
        Seq::empty()
    } else {
        let before = fit_rows(rows.drop_last(), boundary_ns, window_ns);
        if in_window(rows.last().tte_ns, boundary_ns, window_ns) {
            before.push(rows.last())
        } else {
            before
        }
    }
}

/// How many samples a fit needs.
pub open spec fn needed(cfg: CalibCfg) -> int {
    if cfg.fit_window_ns > 0 {
        30
    } else {
        cfg.min_rows as int
    }
}

/// Whether a fit is due and has its samples.
pub open spec fn may_fit(e: EventV, cfg: CalibCfg, now: i64) -> bool {
    &&& e.expiry_ns - now <= e.next_boundary_ns
    &&& e.next_boundary_ns >= cfg.last_tte_ns
    &&& fit_rows(e.rows, e.next_boundary_ns, cfg.fit_window_ns).len() >= needed(cfg)
}

/// A market after a fit.
pub open spec fn refitted(e: EventV, cfg: CalibCfg) -> EventV {
    EventV {
        fitted: true,
        seq: if e.seq < u64::MAX {
            (e.seq + 1) as u64
        } else {
            e.seq
        },
        next_boundary_ns: fixed::clamp64(e.next_boundary_ns - cfg.refit_every_ns) as i64,
        ..e
    }
}

/// A market after one look at the clock, and whether it is fitted.
pub open spec fn ticked(e: EventV, cfg: CalibCfg, f: Feeds, now: i64) -> (EventV, bool) {
    if e.expiry_ns <= now {
        (e, false)
    } else {
        let s = sampled(e, cfg, f, now);
        if may_fit(s, cfg, now) {
            (refitted(s, cfg), true)
        } else {
            (s, false)
        }
    }
}

/// A fit to make: on these samples, with so many steps, from the last fit or from nothing.
#[derive(Debug)]
pub struct FitJob {
    pub update: CalibUpdate,
    pub strike: i64,
    pub rows: Vec<FitRow>,
    pub warm: bool,
    pub steps: u32,
}

/// Whether a job is the fit that a market makes at this look.
pub open spec fn is_job(
    j: FitJob,
    inst: Seq<char>,
    e: EventV,
    cfg: CalibCfg,
    f: Feeds,
    model_hash: u64,
    now: i64,
) -> bool {
    let s = sampled(e, cfg, f, now);
    let rows = fit_rows(s.rows, s.next_boundary_ns, cfg.fit_window_ns);
    &&& row_views(j.rows@) == rows
    &&& j.strike == e.strike
    &&& j.warm == e.fitted
    &&& j.steps == (if e.fitted {
        cfg.steps_refit
    } else {
        cfg.steps_first
    })
    &&& j.update.instrument@ == inst
    &&& j.update.reference@ == cfg.reference@
    &&& j.update.seq == refitted(s, cfg).seq
    &&& j.update.ts_ns == now
    &&& j.update.fitted_at_tte_ms == fixed::toward_zero(s.next_boundary_ns as int, 1_000_000)
    &&& j.update.rows == fixed::smaller(rows.len() as int, u32::MAX as int)
    &&& j.update.model_hash == model_hash
    &&& j.update.d_b_bits == 0 && j.update.d_rho_bits == 0 && j.update.bce_bits == 0
}

/// The markets that are calibrated.
pub struct CalibCore {
    cfg: CalibCfg,
    model_hash: u64,
    ref_px: i64,
    ref_ns: i64,
    feats: FeatureState,
    events: StrMap<EventState>,
}

/// The markets that are calibrated, as the contracts see them.
#[verifier::ext_equal]
pub struct CalibV {
    pub cfg: CalibCfg,
    pub model_hash: u64,
    pub ref_px: i64,
    pub ref_ns: i64,
    pub feats: FeatureV,
    pub events: Map<Seq<char>, EventV>,
}

impl View for CalibCore {
    type V = CalibV;

    closed spec fn view(&self) -> CalibV {
        CalibV {
            cfg: self.cfg,
            model_hash: self.model_hash,
            ref_px: self.ref_px,
            ref_ns: self.ref_ns,
            feats: self.feats@,
            events: self.events@.map_values(|e: EventState| e@),
        }
    }
}

/// The feeds of a calibrator.
pub open spec fn feeds_of(c: CalibV) -> Feeds {
    Feeds { ref_px: c.ref_px, ref_ns: c.ref_ns, feats: c.feats }
}

/// The calibrator after an event, before it looks at the clock.
pub open spec fn heard(c: CalibV, ev: Event) -> CalibV {
    let active = c.feats.extras.len() > 0;
    match ev.payload {
        Payload::Book(b) => if b.instrument@ == c.cfg.reference@ {
            match fair_ride::top_of(b.bids@, b.asks@) {
                Some((mid, bq, aq)) => CalibV {
                    ref_px: mid,
                    ref_ns: b.recv_ts_ns,
                    feats: if active {
                        features::after_perp(c.feats, b.recv_ts_ns, mid, bq, aq)
                    } else {
                        c.feats
                    },
                    ..c
                },
                None => c,
            }
        } else if active && b.instrument@ == c.cfg.basis_reference@ {
            match fair_ride::top_of(b.bids@, b.asks@) {
                Some((mid, _, _)) => CalibV {
                    feats: features::after_cb(c.feats, b.recv_ts_ns, mid),
                    ..c
                },
                None => c,
            }
        } else if text::has_suffix(b.instrument@, ".YES"@) && c.events.contains_key(
            b.instrument@,
        ) {
            CalibV {
                events: c.events.insert(
                    b.instrument@,
                    EventV {
                        ybid: first_price(b.bids@),
                        yask: first_price(b.asks@),
                        y_ns: b.recv_ts_ns,
                        ..c.events[b.instrument@]
                    },
                ),
                ..c
            }
        } else {
            c
        },
        Payload::Meta(m) => CalibV { events: after_entry(c, m), ..c },
        _ => c,
    }
}

/// The price of the first level, or zero.
pub open spec fn first_price(s: Seq<(i64, i64)>) -> i64 {
    if s.len() > 0 {
        s[0].0
    } else {
        0
    }
}

/// The markets after a catalog entry: one of the right kind is taken up once its strike and
/// its end are known, and goes when it is over.
pub open spec fn after_entry(c: CalibV, m: MarketMeta) -> Map<Seq<char>, EventV> {
    if m.kind@ != c.cfg.kind@ {
        c.events
    } else if m.status == MarketStatus::Expired || m.status == MarketStatus::Resolved {
        c.events.remove(m.instrument@)
    } else {
        match (m.strike, m.expiry_ts_ns) {
            (Some(strike), Some(exp)) => if c.events.contains_key(m.instrument@) {
                c.events
            } else {
                c.events.insert(m.instrument@, opened(strike, exp, c.cfg.first_tte_ns))
            },
            _ => c.events,
        }
    }
}

/// The calibrator after one look at the clock.
pub open spec fn looked(c: CalibV, now: i64) -> CalibV {
    CalibV { events: c.events.map_values(|e: EventV| ticked(e, c.cfg, feeds_of(c), now).0), ..c }
}

/// Whether these are the fits that one look at the clock asks for: one for each market that
/// is fitted, and no other.
pub open spec fn are_jobs(js: Seq<FitJob>, c: CalibV, now: i64) -> bool {
    &&& forall|i: int, k: int|
        0 <= i < k < js.len() ==> (#[trigger] js[i]).update.instrument@ != (
        #[trigger] js[k]).update.instrument@
    &&& forall|i: int|
        0 <= i < js.len() ==> {
            let inst = (#[trigger] js[i]).update.instrument@;
            &&& c.events.contains_key(inst)
            &&& ticked(c.events[inst], c.cfg, feeds_of(c), now).1
            &&& is_job(js[i], inst, c.events[inst], c.cfg, feeds_of(c), c.model_hash, now)
        }
    &&& forall|inst: Seq<char>|
        #[trigger] c.events.contains_key(inst) && ticked(
            c.events[inst],
            c.cfg,
            feeds_of(c),
            now,
        ).1 ==> exists|i: int| 0 <= i < js.len() && (#[trigger] js[i]).update.instrument@ == inst
}

fn copy_row(x: &FitRow) -> (r: FitRow)
    ensures
        r@ == x@,
{
    FitRow { tte_ns: x.tte_ns, px: x.px, mid: x.mid, feats: copy_ratios(&x.feats) }
}


fn pick_rows(rows: &Vec<FitRow>, boundary_ns: i64, window_ns: i64) -> (r: Vec<FitRow>)
    ensures
        row_views(r@) == fit_rows(row_views(rows@), boundary_ns, window_ns),
{
    let ghost s = row_views(rows@);
    let mut r: Vec<FitRow> = Vec::new();
    let mut i: usize = 0;
    assert(s.take(0) =~= Seq::<RowV>::empty());
    assert(row_views(r@) =~= Seq::<RowV>::empty());
    while i < rows.len()
        invariant
            s == row_views(rows@),
            i <= rows@.len(),
            row_views(r@) == fit_rows(s.take(i as int), boundary_ns, window_ns),
        decreases rows@.len() - i,
    {
        assert(s.take(i + 1).drop_last() =~= s.take(i as int));
        assert(s.take(i + 1).last() == s[i as int]);
        assert(window_ns <= 0 ==> s.take(i + 1) =~= s.take(i as int).push(s[i as int]));
        let t: i64 = rows[i].tte_ns;
        if window_ns <= 0 || (t > boundary_ns && t as i128 <= boundary_ns as i128
            + window_ns as i128) {
            let ghost r0 = r@;
            let c = copy_row(&rows[i]);
            let ghost cv = c@;
            r.push(c);
            assert(row_views(r@) =~= row_views(r0).push(cv));
        }
        i = i + 1;
    }
    assert(s.take(s.len() as int) =~= s);
    r
}

impl EventState {
    fn tick(
        &mut self,
        inst: &str,
        cfg: &CalibCfg,
        ref_px: i64,
        ref_ns: i64,
        feats: &FeatureState,
        model_hash: u64,
        now: i64,
    ) -> (r: Option<FitJob>)
        requires
            feats.wf(),
        ensures
            ({
                let f = Feeds { ref_px, ref_ns, feats: feats@ };
                &&& final(self)@ == ticked(old(self)@, *cfg, f, now).0
                &&& r is Some == ticked(old(self)@, *cfg, f, now).1
                &&& r matches Some(j) ==> is_job(j, inst@, old(self)@, *cfg, f, model_hash, now)
            }),
    {
        let ghost f = Feeds { ref_px, ref_ns, feats: feats@ };
        let ghost e0 = self@;
        if self.expiry_ns <= now {
            return None;
        }
        let stale: i128 = cfg.stale_ms as i128 * 1_000_000;
        if now as i128 - self.last_sample_ns as i128 >= cfg.sample_ms as i128 * 1_000_000 && ref_ns
            > 0 && now as i128 - ref_ns as i128 <= stale && self.y_ns > 0 && now as i128
            - self.y_ns as i128 <= stale && self.ybid > 0 && self.ybid < self.yask
            && self.yask as i128 - self.ybid as i128 <= cfg.max_spread as i128 {
            let fs: Option<Vec<Ratio>> = if feats.active() {
                feats.feats(now)
            } else {
                let none: Vec<Ratio> = Vec::new();
                assert(none@ =~= Seq::<Ratio>::empty());
                Some(none)
            };
            if let Some(x) = fs {
                let ghost r0 = self.rows@;
                let row = FitRow {
                    tte_ns: sat(self.expiry_ns as i128 - now as i128),
                    px: ref_px,
                    mid: sat(self.ybid as i128 + self.yask as i128),
                    feats: x,
                };
                let ghost rv = row@;
                self.rows.push(row);
                assert(row_views(self.rows@) =~= row_views(r0).push(rv));
            }
            self.last_sample_ns = now;
        }
        assert(self@ =~= sampled(e0, *cfg, f, now));
        let tte: i128 = self.expiry_ns as i128 - now as i128;
        if tte > self.next_boundary_ns as i128 || self.next_boundary_ns < cfg.last_tte_ns {
            return None;
        }
        let rows = pick_rows(&self.rows, self.next_boundary_ns, cfg.fit_window_ns);
        let need: usize = if cfg.fit_window_ns > 0 {
            30
        } else {
            cfg.min_rows
        };
        assert(rows@.len() == row_views(rows@).len());
        if rows.len() < need {
            return None;
        }
        let warm: bool = self.fitted;
        let n: u32 = if rows.len() > u32::MAX as usize {
            u32::MAX
        } else {
            rows.len() as u32
        };
        let at_ms: i64 = fixed::div_toward_zero(self.next_boundary_ns, 1_000_000);
        self.fitted = true;
        self.seq = self.seq.saturating_add(1);
        self.next_boundary_ns = sat(self.next_boundary_ns as i128 - cfg.refit_every_ns as i128);
        Some(
            FitJob {
                update: CalibUpdate {
                    instrument: inst.to_string(),
                    reference: cfg.reference.clone(),
                    seq: self.seq,
                    ts_ns: now,
                    fitted_at_tte_ms: at_ms,
                    rows: n,
                    model_hash,
                    d_b_bits: 0,
                    d_rho_bits: 0,
                    bce_bits: 0,
                },
                strike: self.strike,
                rows,
                warm,
                steps: if warm {
                    cfg.steps_refit
                } else {
                    cfg.steps_first
                },
            },
        )
    }
}

impl CalibCore {
    /// Whether what the features are rebuilt from is sound.
    pub closed spec fn wf(&self) -> bool {
        self.feats.wf()
    }

    /// No markets.
    pub fn new(cfg: CalibCfg, extras: Vec<String>, model_hash: u64) -> (r: CalibCore)
        ensures
            r.wf(),
            r@.cfg == cfg,
            r@.model_hash == model_hash,
            r@.ref_px == 0,
            r@.ref_ns == 0,
            r@.feats == features::nothing_seen(text::views(extras@)),
            r@.events == Map::<Seq<char>, EventV>::empty(),
    {
        let r = CalibCore {
            cfg,
            model_hash,
            ref_px: 0,
            ref_ns: 0,
            feats: FeatureState::new(extras),
            events: StrMap::new(),
        };
        assert(r@.events =~= Map::<Seq<char>, EventV>::empty());
        r
    }

    fn on_entry(&mut self, m: &MarketMeta)
        requires
            old(self).wf(),
        ensures
            final(self).wf(),
            final(self)@ == (CalibV { events: after_entry(old(self)@, *m), ..old(self)@ }),
    {
        if !same(m.kind.as_str(), self.cfg.kind.as_str()) {
            return;
        }
        let over: bool = match m.status {
            MarketStatus::Expired => true,
            MarketStatus::Resolved => true,
            _ => false,
        };
        if over {
            let _ = self.events.remove(m.instrument.as_str());
            assert(self@.events =~= old(self)@.events.remove(m.instrument@));
            return;
        }
        if let (Some(strike), Some(exp)) = (m.strike, m.expiry_ts_ns) {
            if !self.events.contains(m.instrument.as_str()) {
                let e = EventState {
                    strike,
                    expiry_ns: exp,
                    rows: Vec::new(),
                    last_sample_ns: 0,
                    ybid: 0,
                    yask: 0,
                    y_ns: 0,
                    fitted: false,
                    next_boundary_ns: self.cfg.first_tte_ns,
                    seq: 0,
                };
                assert(e@ =~= opened(strike, exp, self.cfg.first_tte_ns));
                let ghost ev = e@;
                self.events.insert(m.instrument.clone(), e);
                assert(self@.events =~= old(self)@.events.insert(m.instrument@, ev));
            }
        }
    }

    fn hear(&mut self, ev: &Event)
        requires
            old(self).wf(),
        ensures
            final(self).wf(),
            final(self)@ == heard(old(self)@, *ev),
    {
        match &ev.payload {
            Payload::Book(b) => {
                if same(b.instrument.as_str(), self.cfg.reference.as_str()) {
                    if let Some((mid, bq, aq)) = read_top(&b.bids, &b.asks) {
                        self.ref_px = mid;
                        self.ref_ns = b.recv_ts_ns;
                        if self.feats.active() {
                            self.feats.on_perp(b.recv_ts_ns, mid, bq, aq);
                        }
                    }
                } else if self.feats.active() && same(
                    b.instrument.as_str(),
                    self.cfg.basis_reference.as_str(),
                ) {
                    if let Some((mid, _, _)) = read_top(&b.bids, &b.asks) {
                        self.feats.on_cb(b.recv_ts_ns, mid);
                    }
                } else if ends_with(b.instrument.as_str(), ".YES") {
                    if let Some(mut e) = self.events.remove(b.instrument.as_str()) {
                        e.ybid = if b.bids.len() > 0 {
                            b.bids[0].0
                        } else {
                            0
                        };
                        e.yask = if b.asks.len() > 0 {
                            b.asks[0].0
                        } else {
                            0
                        };
                        e.y_ns = b.recv_ts_ns;
                        let ghost v = e@;
                        self.events.insert(b.instrument.clone(), e);
                        assert(self@.events =~= old(self)@.events.insert(b.instrument@, v));
                    } else {
                        assert(self@.events =~= old(self)@.events);
                    }
                }
            },
            Payload::Meta(m) => self.on_entry(m),
            _ => {},
        }
    }

    /// Takes an event in, and looks at the clock.
    pub fn on_event(&mut self, ev: &Event) -> (r: Vec<FitJob>)
        requires
            old(self).wf(),
        ensures
            final(self).wf(),
            final(self)@ == looked(heard(old(self)@, *ev), ev.ts_ns),
            are_jobs(r@, heard(old(self)@, *ev), ev.ts_ns),
    {
        self.hear(ev);
        self.tick(ev.ts_ns)
    }

    /// Looks at the clock: takes the samples that are due, and gives the fits that are due.
    pub fn tick(&mut self, now: i64) -> (r: Vec<FitJob>)
        requires
            old(self).wf(),
        ensures
            final(self).wf(),
            final(self)@ == looked(old(self)@, now),
            are_jobs(r@, old(self)@, now),
    {
        let ghost c = self@;
        let ghost f = feeds_of(c);
        let keys = self.events.keys();
        let ghost ks = text::views(keys@);
        assert(self.events@.dom() =~= c.events.dom());
        let mut r: Vec<FitJob> = Vec::new();
        let mut i: usize = 0;
        while i < keys.len()
            invariant
                self.wf(),
                c == old(self)@,
                f == feeds_of(c),
                ks == text::views(keys@),
                strmap::lists_keys(ks, c.events.dom()),
                self@ == (CalibV { events: self@.events, ..c }),
                self@.events.dom() == c.events.dom(),
                forall|k: Seq<char>| #[trigger]
                    self@.events.contains_key(k) ==> self@.events[k] == (if ks.take(
                        i as int,
                    ).contains(k) {
                        ticked(c.events[k], c.cfg, f, now).0
                    } else {
                        c.events[k]
                    }),
                i <= keys@.len(),
                forall|a: int, b: int|
                    0 <= a < b < r@.len() ==> (#[trigger] r@[a]).update.instrument@ != (
                    #[trigger] r@[b]).update.instrument@,
                forall|a: int|
                    0 <= a < r@.len() ==> {
                        let inst = (#[trigger] r@[a]).update.instrument@;
                        &&& ks.take(i as int).contains(inst)
                        &&& c.events.contains_key(inst)
                        &&& ticked(c.events[inst], c.cfg, f, now).1
                        &&& is_job(r@[a], inst, c.events[inst], c.cfg, f, c.model_hash, now)
                    },
                forall|a: int|
                    0 <= a < i && ticked(c.events[#[trigger] ks[a]], c.cfg, f, now).1
                        ==> exists|b: int|
                        0 <= b < r@.len() && (#[trigger] r@[b]).update.instrument@ == ks[a],
            decreases keys@.len() - i,
        {
            let ghost before = self@;
            let ghost k = ks[i as int];
            let ghost done = ks.take(i as int);
            let ghost next = ks.take(i + 1);
            proof {
                assert(k == keys@[i as int]@);
                assert(ks.contains(k));
                assert(c.events.dom().contains(k));
                assert(self@.events.contains_key(k));
                assert(!done.contains(k)) by {
                    if done.contains(k) {
                        let j = choose|j: int| 0 <= j < done.len() && done[j] == k;
                        assert(ks[j] == ks[i as int]);
                    }
                }
                assert forall|x: Seq<char>| next.contains(x) == (done.contains(x) || x == k) by {
                    if done.contains(x) {
                        let j = choose|j: int| 0 <= j < done.len() && done[j] == x;
                        assert(next[j] == x);
                    }
                    if x == k {
                        assert(next[i as int] == x);
                    }
                    if next.contains(x) {
                        let j = choose|j: int| 0 <= j < next.len() && next[j] == x;
                        if j < i {
                            assert(done[j] == x);
                        }
                    }
                }
            }
            if let Some(mut e) = self.events.remove(keys[i].as_str()) {
                let ghost e0 = e@;
                assert(e0 == c.events[k]);
                let job = e.tick(
                    keys[i].as_str(),
                    &self.cfg,
                    self.ref_px,
                    self.ref_ns,
                    &self.feats,
                    self.model_hash,
                    now,
                );
                let ghost ev = e@;
                self.events.insert(keys[i].clone(), e);
                assert(self@.events =~= before.events.insert(k, ev));
                assert(self@.events.dom() =~= c.events.dom());
                let ghost r0 = r@;
                if let Some(j) = job {
                    r.push(j);
                    assert(r@[r0.len() as int].update.instrument@ == k);
                    assert forall|a: int, b: int| 0 <= a < b < r@.len() implies (
                    #[trigger] r@[a]).update.instrument@ != (#[trigger] r@[b]).update.instrument@ by {
                        assert(r@[a] == r0[a]);
                        if b < r0.len() {
                            assert(r@[b] == r0[b]);
                        }
                    }
                    assert forall|a: int| 0 <= a < r@.len() implies {
                        let inst = (#[trigger] r@[a]).update.instrument@;
                        &&& next.contains(inst)
                        &&& c.events.contains_key(inst)
                        &&& ticked(c.events[inst], c.cfg, f, now).1
                        &&& is_job(r@[a], inst, c.events[inst], c.cfg, f, c.model_hash, now)
                    } by {
                        if a < r0.len() {
                            assert(r@[a] == r0[a]);
                        }
                    }
                }
                assert forall|a: int|
                    0 <= a < i + 1 && ticked(c.events[#[trigger] ks[a]], c.cfg, f, now).1 implies exists|
                    b: int,
                |
                    0 <= b < r@.len() && (#[trigger] r@[b]).update.instrument@ == ks[a] by {
                    if a < i {
                        let b = choose|b: int|
                            0 <= b < r0.len() && (#[trigger] r0[b]).update.instrument@ == ks[a];
                        assert(r@[b] == r0[b]);
                    }
                }
            }
            i = i + 1;
        }
        proof {
            assert(ks.take(ks.len() as int) =~= ks);
            assert forall|k: Seq<char>| #[trigger] c.events.contains_key(k) implies self@.events[k]
                == ticked(c.events[k], c.cfg, f, now).0 by {
                assert(c.events.dom().contains(k));
                assert(self@.events.contains_key(k));
            }
            assert(self@.events =~= looked(c, now).events);
            assert forall|inst: Seq<char>|
                #[trigger] c.events.contains_key(inst) && ticked(
                    c.events[inst],
                    c.cfg,
                    f,
                    now,
                ).1 implies exists|a: int|
                0 <= a < r@.len() && (#[trigger] r@[a]).update.instrument@ == inst by {
                assert(c.events.dom().contains(inst));
                let a = choose|a: int| 0 <= a < ks.len() && ks[a] == inst;
                assert(ks[a] == inst);
            }
        }
        r
    }
}

/// The topic on which the fits of a market are published.
pub fn fit_topic(inst: &str) -> (r: String)
    ensures
        r@ == "market.calib."@ + inst@,
{
    joined("market.calib.", inst)
}

/// The hash of some bytes: each one is mixed into the low end, and the whole is multiplied by
/// a prime, all modulo two to the 64.
pub open spec fn fnv(bytes: Seq<u8>) -> u64
    decreases bytes.len(),
{
    if bytes.len() == 0 {
        0xcbf29ce484222325
    } else {
        let h = fnv(bytes.drop_last()) ^ (bytes.last() as u64);
        ((h * 0x100000001b3) % 0x1_0000_0000_0000_0000) as u64
    }
}

/// The FNV-1a hash of some bytes: what a model file is known by.
pub fn fnv1a(bytes: &[u8]) -> (r: u64)
    ensures
        r == fnv(bytes@),
{
    let mut h: u64 = 0xcbf29ce484222325;
    let mut i: usize = 0;
    assert(bytes@.take(0) =~= Seq::<u8>::empty());
    while i < bytes.len()
        invariant
            i <= bytes@.len(),
            h == fnv(bytes@.take(i as int)),
        decreases bytes@.len() - i,
    {
        assert(bytes@.take(i + 1).drop_last() =~= bytes@.take(i as int));
        assert(bytes@.take(i + 1).last() == bytes@[i as int]);
        let x: u64 = h ^ (bytes[i] as u64);
        let y: u128 = x as u128 * 0x100000001b3;
        h = (y % 0x1_0000_0000_0000_0000) as u64;
        i = i + 1;
    }
    assert(bytes@.take(bytes@.len() as int) =~= bytes@);
    h
}

/// A market's boundary only moves at a fit, by the interval, and its fits are numbered in
/// turn.
pub proof fn law_fits_go_on(e: EventV, cfg: CalibCfg, f: Feeds, now: i64)
    ensures
        ({
            let (n, fit) = ticked(e, cfg, f, now);
            &&& fit ==> n.next_boundary_ns == fixed::clamp64(
                e.next_boundary_ns - cfg.refit_every_ns,
            ) && n.seq == fixed::smaller(e.seq + 1, u64::MAX as int) && n.fitted
            &&& !fit ==> n.next_boundary_ns == e.next_boundary_ns && n.seq == e.seq && n.fitted
                == e.fitted
        }),
{
}

/// No sample is ever lost: a look at the clock only adds to them.
pub proof fn law_samples_are_kept(e: EventV, cfg: CalibCfg, f: Feeds, now: i64)
    ensures
        e.rows.is_prefix_of(ticked(e, cfg, f, now).0.rows),
        ticked(e, cfg, f, now).0.rows.len() <= e.rows.len() + 1,
{
}

/// A fit never looks at a sample from after its boundary, nor from before its window.
pub proof fn law_windows_are_kept(rows: Seq<RowV>, boundary_ns: i64, window_ns: i64, i: int)
    requires
        window_ns > 0,
        0 <= i < fit_rows(rows, boundary_ns, window_ns).len(),
    ensures
        in_window(fit_rows(rows, boundary_ns, window_ns)[i].tte_ns, boundary_ns, window_ns),
        rows.contains(fit_rows(rows, boundary_ns, window_ns)[i]),
    decreases rows.len(),
{
    if rows.len() > 0 {
        let d = rows.drop_last();
        let b = fit_rows(d, boundary_ns, window_ns);
        if i < b.len() {
            law_windows_are_kept(d, boundary_ns, window_ns, i);
            let j = choose|j: int| 0 <= j < d.len() && d[j] == b[i];
            assert(rows[j] == b[i]);
        } else {
            assert(rows[rows.len() - 1] == rows.last());
        }
    }
}

/// One thing that a calibrator is told.
pub enum CalibStep {
    /// An event; the clock is looked at by its own time.
    Heard(Event),
    /// The time.
    Tick(i64),
}

/// The calibrator as it looks at the clock.
pub open spec fn before_look(c: CalibV, s: CalibStep) -> CalibV {
    match s {
        CalibStep::Heard(ev) => heard(c, ev),
        CalibStep::Tick(now) => c,
    }
}

/// The time of a look.
pub open spec fn look_time(s: CalibStep) -> i64 {
    match s {
        CalibStep::Heard(ev) => ev.ts_ns,
        CalibStep::Tick(now) => now,
    }
}

/// The calibrator after a run of steps.
pub open spec fn calib_run(c: CalibV, run: Seq<CalibStep>) -> CalibV
    decreases run.len(),
{
    if run.len() == 0 {
        c
    } else {
        looked(
            before_look(calib_run(c, run.drop_last()), run.last()),
            look_time(run.last()),
        )
    }
}

/// How often a market was fitted before the last look of a run, since it was taken up.
pub open spec fn fits_before(c: CalibV, run: Seq<CalibStep>, inst: Seq<char>) -> nat
    decreases run.len(), 0int,
{
    if run.len() == 0 || !calib_run(c, run.drop_last()).events.contains_key(inst) {
        0
    } else {
        fits_in(c, run.drop_last(), inst)
    }
}

/// How often a market was fitted in a run, since it was taken up.
pub open spec fn fits_in(c: CalibV, run: Seq<CalibStep>, inst: Seq<char>) -> nat
    decreases run.len(), 1int,
{
    if run.len() == 0 {
        0
    } else {
        let b = before_look(calib_run(c, run.drop_last()), run.last());
        let n = fits_before(c, run, inst);
        if b.events.contains_key(inst) && ticked(
            b.events[inst],
            b.cfg,
            feeds_of(b),
            look_time(run.last()),
        ).1 {
            n + 1
        } else {
            n
        }
    }
}

/// The boundary of the fit that comes after `n` others: the first, less the interval as
/// often; cut to what a time can be.
pub open spec fn scheduled(cfg: CalibCfg, n: nat) -> int {
    fixed::clamp64(cfg.first_tte_ns - n * cfg.refit_every_ns)
}

/// Whether a market stands where it should after `n` fits.
pub open spec fn on_schedule(e: EventV, cfg: CalibCfg, n: nat) -> bool {
    &&& e.next_boundary_ns == scheduled(cfg, n)
    &&& e.seq == fixed::smaller(n as int, u64::MAX as int)
}

/// Each boundary is the one before it, less the interval; cut likewise.
proof fn lemma_next_boundary(cfg: CalibCfg, n: nat)
    ensures
        scheduled(cfg, 0) == cfg.first_tte_ns,
        scheduled(cfg, n + 1) == fixed::clamp64(scheduled(cfg, n) - cfg.refit_every_ns),
{
    let k = cfg.refit_every_ns as int;
    assert(0 * k == 0);
    assert((n + 1) * k == n * k + k) by (nonlinear_arith);
    assert(k >= 0 ==> n * k >= 0) by (nonlinear_arith)
        requires
            n >= 0,
    ;
    assert(k <= 0 ==> n * k <= 0) by (nonlinear_arith)
        requires
            n >= 0,
    ;
}

proof fn lemma_schedule(c: CalibV, run: Seq<CalibStep>, inst: Seq<char>)
    requires
        c.events == Map::<Seq<char>, EventV>::empty(),
    ensures
        ({
            let r = calib_run(c, run);
            &&& r.cfg == c.cfg
            &&& r.model_hash == c.model_hash
            &&& r.events.contains_key(inst) ==> on_schedule(
                r.events[inst],
                c.cfg,
                fits_in(c, run, inst),
            )
        }),
        run.len() > 0 ==> ({
            let b = before_look(calib_run(c, run.drop_last()), run.last());
            &&& b.cfg == c.cfg
            &&& b.model_hash == c.model_hash
            &&& b.events.contains_key(inst) ==> on_schedule(
                b.events[inst],
                c.cfg,
                fits_before(c, run, inst),
            )
        }),
    decreases run.len(),
{
    if run.len() > 0 {
        let past = run.drop_last();
        lemma_schedule(c, past, inst);
        let p = calib_run(c, past);
        let b = before_look(p, run.last());
        let now = look_time(run.last());
        let n = fits_before(c, run, inst);
        assert(b.cfg == c.cfg);
        if b.events.contains_key(inst) {
            let e = b.events[inst];
            lemma_next_boundary(c.cfg, n);
            assert(on_schedule(e, c.cfg, n));
            let f = feeds_of(b);
            assert(looked(b, now).events[inst] == ticked(e, b.cfg, f, now).0);
            let s = sampled(e, b.cfg, f, now);
            assert(s.next_boundary_ns == e.next_boundary_ns && s.seq == e.seq);
        }
    }
}

/// The fits of any run of steps on a new calibrator, whatever its interval. Of each fit that
/// a look asks for: it is the only one of its market at that look; it has the number that comes next, counted from
/// one since the market was taken up; it is made at the boundary of that number, which is not
/// below the last one; the market has no more time left than that, and some; and it has the
/// samples that it needs.
pub proof fn law_fits_keep_their_schedule(
    c: CalibV,
    run: Seq<CalibStep>,
    js: Seq<FitJob>,
    i: int,
)
    requires
        c.events == Map::<Seq<char>, EventV>::empty(),
        run.len() > 0,
        are_jobs(
            js,
            before_look(calib_run(c, run.drop_last()), run.last()),
            look_time(run.last()),
        ),
        0 <= i < js.len(),
    ensures
        ({
            let u = js[i].update;
            let inst = u.instrument@;
            let b = before_look(calib_run(c, run.drop_last()), run.last());
            let now = look_time(run.last());
            let n = fits_before(c, run, inst);
            let at = scheduled(c.cfg, n);
            &&& forall|k: int|
                0 <= k < js.len() && k != i ==> (#[trigger] js[k]).update.instrument@ != inst
            &&& b.events.contains_key(inst)
            &&& fits_in(c, run, inst) == n + 1
            &&& u.seq == fixed::smaller((n + 1) as int, u64::MAX as int)
            &&& u.fitted_at_tte_ms == fixed::toward_zero(at, 1_000_000)
            &&& at >= c.cfg.last_tte_ns
            &&& 0 < b.events[inst].expiry_ns - now <= at
            &&& u.rows >= fixed::smaller(needed(c.cfg), u32::MAX as int)
            &&& u.ts_ns == now
            &&& u.model_hash == c.model_hash
        }),
{
    let inst = js[i].update.instrument@;
    lemma_schedule(c, run, inst);
    let b = before_look(calib_run(c, run.drop_last()), run.last());
    let now = look_time(run.last());
    let e = b.events[inst];
    let s = sampled(e, b.cfg, feeds_of(b), now);
    assert(s.next_boundary_ns == e.next_boundary_ns && s.seq == e.seq && s.expiry_ns
        == e.expiry_ns);
    assert forall|k: int| 0 <= k < js.len() && k != i implies (
    #[trigger] js[k]).update.instrument@ != inst by {
        if k < i {
            assert(js[k].update.instrument@ != js[i].update.instrument@);
        } else {
            assert(js[i].update.instrument@ != js[k].update.instrument@);
        }
    }
}

/// A sample is taken exactly where one is due, both sides are fresh, and the book has two
/// sides within the widest spread. It has the time left, the reference's price and the mid.
pub proof fn law_samples_are_taken_when_due(e: EventV, cfg: CalibCfg, f: Feeds, now: i64)
    requires
        i64::MIN <= e.expiry_ns - now <= i64::MAX,
        f.feats.extras.len() == 0,
    ensures
        ({
            let due = now - e.last_sample_ns >= cfg.sample_ms * 1_000_000 && f.ref_ns > 0 && now
                - f.ref_ns <= cfg.stale_ms * 1_000_000 && e.y_ns > 0 && now - e.y_ns <= cfg.stale_ms
                * 1_000_000 && 0 < e.ybid && e.ybid < e.yask && e.yask - e.ybid <= cfg.max_spread;
            let n = sampled(e, cfg, f, now);
            &&& !due ==> n == e
            &&& due ==> {
                &&& n.last_sample_ns == now
                &&& n.rows.len() == e.rows.len() + 1
                &&& n.rows.last().tte_ns == e.expiry_ns - now
                &&& n.rows.last().px == f.ref_px
                &&& e.ybid + e.yask <= i64::MAX ==> n.rows.last().mid == e.ybid + e.yask
            }
        }),
{
}

/// A market that is open is fitted exactly where its time left has come down to the next
/// boundary, that is not below the last one, and there are enough samples in the window. The
/// first fit takes the first number of steps and starts cold; a refit is warm.
pub proof fn law_fits_come_at_their_boundary(
    e: EventV,
    cfg: CalibCfg,
    f: Feeds,
    model_hash: u64,
    now: i64,
    j: FitJob,
    inst: Seq<char>,
)
    requires
        is_job(j, inst, e, cfg, f, model_hash, now),
    ensures
        ({
            let s = sampled(e, cfg, f, now);
            let n = fit_rows(s.rows, e.next_boundary_ns, cfg.fit_window_ns).len();
            &&& ticked(e, cfg, f, now).1 <==> e.expiry_ns > now && e.expiry_ns - now
                <= e.next_boundary_ns && e.next_boundary_ns >= cfg.last_tte_ns && n >= (
            if cfg.fit_window_ns > 0 {
                30int
            } else {
                cfg.min_rows as int
            })
            &&& e.fitted ==> j.warm && j.steps == cfg.steps_refit
            &&& !e.fitted ==> !j.warm && j.steps == cfg.steps_first
            &&& j.strike == e.strike && j.update.ts_ns == now && j.update.instrument@ == inst
            &&& cfg.fit_window_ns <= 0 ==> row_views(j.rows@) == s.rows
        }),
{
}

/// A window takes the samples with more time left than its boundary and no more than its
/// length above that.
pub proof fn law_windows_take_all_their_samples(
    rows: Seq<RowV>,
    r: RowV,
    boundary_ns: i64,
    window_ns: i64,
)
    requires
        window_ns > 0,
    ensures
        boundary_ns < r.tte_ns && r.tte_ns <= boundary_ns + window_ns ==> fit_rows(
            rows.push(r),
            boundary_ns,
            window_ns,
        ) == fit_rows(rows, boundary_ns, window_ns).push(r),
        r.tte_ns <= boundary_ns || r.tte_ns > boundary_ns + window_ns ==> fit_rows(
            rows.push(r),
            boundary_ns,
            window_ns,
        ) == fit_rows(rows, boundary_ns, window_ns),
{
    assert(rows.push(r).drop_last() =~= rows);
}

/// What the calibrator hears: the reference's books set its price, a market's books set the
/// market's quotes, and a market of its kind is taken up once and let go when it is over.
pub proof fn law_what_the_calibrator_hears(c: CalibV, ev: Event)
    ensures
        ({
            let n = heard(c, ev);
            &&& ev.payload matches Payload::Book(b) ==> {
                &&& b.instrument@ == c.cfg.reference@ && b.bids@.len() > 0 && b.asks@.len() > 0
                    && b.bids@[0].0 > 0 && b.asks@[0].0 > 0 && b.bids@[0].0 + b.asks@[0].0
                    <= i64::MAX ==> n.ref_px == b.bids@[0].0 + b.asks@[0].0 && n.ref_ns
                    == b.recv_ts_ns && n.events == c.events
                &&& b.instrument@ != c.cfg.reference@ ==> n.ref_px == c.ref_px && n.ref_ns
                    == c.ref_ns
                &&& b.instrument@ != c.cfg.reference@ && c.feats.extras.len() == 0
                    && text::has_suffix(b.instrument@, ".YES"@) && c.events.contains_key(
                    b.instrument@,
                ) && b.bids@.len() > 0 && b.asks@.len() > 0 ==> {
                    let e = n.events[b.instrument@];
                    e.ybid == b.bids@[0].0 && e.yask == b.asks@[0].0 && e.y_ns == b.recv_ts_ns
                        && e.rows == c.events[b.instrument@].rows
                }
            }
            &&& ev.payload matches Payload::Meta(m) ==> (m.kind@ == c.cfg.kind@ ==> {
                &&& m.status == MarketStatus::Expired || m.status == MarketStatus::Resolved
                    ==> !n.events.contains_key(m.instrument@)
                &&& m.status == MarketStatus::Live && c.events.contains_key(m.instrument@)
                    ==> n.events == c.events
                &&& m.status == MarketStatus::Live && !c.events.contains_key(m.instrument@)
                    && m.strike is Some && m.expiry_ts_ns is Some ==> n.events.contains_key(
                    m.instrument@,
                ) && n.events[m.instrument@].strike == m.strike->0
                    && n.events[m.instrument@].expiry_ns == m.expiry_ts_ns->0
                    && n.events[m.instrument@].next_boundary_ns == c.cfg.first_tte_ns
                    && !n.events[m.instrument@].fitted
            })
            &&& ev.payload matches Payload::Meta(m) ==> (m.kind@ != c.cfg.kind@ ==> n.events
                == c.events)
        }),
{
}

/// A side without levels has no price, and a market that is new has no samples and its first
/// boundary before it.
pub proof fn law_new_markets_have_nothing(strike: i64, expiry_ns: i64, first_tte_ns: i64, s: Seq<(i64, i64)>)
    ensures
        s.len() == 0 ==> first_price(s) == 0,
        s.len() > 0 ==> first_price(s) == s[0].0,
        ({
            let e = opened(strike, expiry_ns, first_tte_ns);
            &&& e.strike == strike && e.expiry_ns == expiry_ns && e.next_boundary_ns == first_tte_ns
            &&& e.rows.len() == 0 && !e.fitted && e.seq == 0
            &&& e.ybid == 0 && e.yask == 0 && e.y_ns == 0 && e.last_sample_ns == 0
        }),
{
}

} // verus!
