//! State, windows, rules, features and the calibration.
use arb::event::{Event, Payload};
use arb::model::{BookUpdate, CalibUpdate, MarketMeta, MarketStatus, Side, TradeTick};
use arb::processor::calib::{fit_topic, fnv1a, CalibCfg, CalibCore};
use arb::processor::exceed::{check_layout, BookCol, ExceedCfg, ExceedRule, Layout, LayoutError, Row};
use arb::processor::fair_ride::{
    gap_due, gap_summary, line_due, FairRideCfg, FairRideRule, Gate, Scan, Todo, Weighed,
};
use arb::processor::features::{FeatureState, Ratio};
use arb::processor::hist::Hist;
use arb::processor::lake::{LakeFeats, Term};
use arb::processor::module::{signal_events, ProcCfg};
use arb::processor::ob_feats::{
    five_sizes, legacy_places, net_kind, ob_feats, ob_w_feats, Best, ObFeats, ObNetKind,
};
use arb::processor::probe::{FeatureProbeCfg, Probe, Shown};
use arb::processor::rule::{PerpMoveRule, Rule, RuleEngine};
use arb::processor::shape::{
    check_distribution, check_ensemble, check_surface, LayerShape, ShapeError,
};
use arb::processor::state::{InstrumentKind, MarketState};
use arb::processor::window::RollingWindow;

const PERP: &str = "binance.usdt_perp.BTCUSDT";
const UP: &str = "polymarket.0xabc.UP";
const K: &str = "kalshi.K.YES";
const CB: &str = "coinbase.BTC";
const BASE: i64 = 1_700_000_000_000_000_000;
const S: i64 = 1_000_000_000;
const BAR_NS: i64 = 100_000_000;

fn m(x: f64) -> i64 {
    (x * 1e6).round() as i64
}

/// A mid in halves of a micro-unit.
fn h(x: f64) -> i64 {
    (x * 2e6).round() as i64
}

/// A price in billionths.
fn n(x: f64) -> i64 {
    (x * 1e9).round() as i64
}

fn value(r: Ratio) -> f64 {
    r.num as f64 / r.den as f64
}

fn term(t: Term) -> f64 {
    match t {
        Term::Zero => 0.0,
        Term::Quotient(r) => value(r),
        Term::Difference(a, b) => value(a) - value(b),
        Term::Log1p(x) => (x as f64 / 1e6).ln_1p(),
    }
}

fn book(inst: &str, bid: f64, ask: f64, ts: i64) -> Event {
    Event::new(format!("market.{}.book", inst), "t", ts, 0, Payload::Book(BookUpdate {
        instrument: inst.into(),
        bids: vec![(m(bid), m(5.0))],
        asks: vec![(m(ask), m(5.0))],
        update_id: None,
        exch_ts_ns: ts,
        recv_ts_ns: ts,
    }))
}

fn volume(inst: &str, qty: f64, ts: i64) -> Event {
    Event::new(format!("market.{}.trade", inst), "t", ts, 0, Payload::Trade(TradeTick {
        instrument: inst.into(),
        price: m(1.0),
        qty: m(qty),
        side: Side::Buy,
        exch_ts_ns: ts,
        recv_ts_ns: ts,
    }))
}

fn meta(inst: &str, kind: &str, status: MarketStatus, expiry: i64, strike: Option<i64>) -> Event {
    Event::new(format!("market.{}.catalog", inst), "t", BASE, 0, Payload::Meta(MarketMeta {
        instrument: inst.into(),
        kind: kind.into(),
        status,
        start_ts_ns: Some(BASE),
        expiry_ts_ns: Some(expiry),
        winner: None,
        min_order_size: None,
        tick_size: None,
        fee_rate: None,
        strike,
    }))
}

// ---- the rule on moves ------------------------------------------------------------------

fn perp_book(ts: i64, px: f64) -> Event {
    book(PERP, px - 1.0, px + 1.0, ts)
}

fn live_market(st: &mut MarketState) {
    st.on_event(&meta(UP, "5m_updown", MarketStatus::Live, BASE + 300 * S, None));
    st.on_event(&book(UP, 0.49, 0.51, BASE));
}

fn run(st: &mut MarketState, rule: &mut PerpMoveRule) -> usize {
    let mut fired = 0;
    for k in 0..=12i64 {
        let ts = BASE + k * 100_000_000;
        let px = 50000.0 * (1.0 + (k as f64) * 0.5 / 10000.0);
        let ev = perp_book(ts, px);
        st.on_event(&ev);
        fired += rule.on_event(&ev, st).len();
    }
    fired
}

fn rule() -> PerpMoveRule {
    PerpMoveRule::new(
        "perp_move".into(),
        PERP.into(),
        1000,
        m(3.0),
        (m(0.05), m(0.95)),
        2000,
        15000,
        1000,
        1000,
    )
}

#[test]
fn fires_on_move_with_live_target() {
    let mut st = MarketState::new(PERP.into(), "5m_updown".into(), 512, 5000);
    live_market(&mut st);
    let mut r = rule();
    assert!(run(&mut st, &mut r) >= 1, "expected a signal once the 1s window shows >=3bps");
}

#[test]
fn no_target_no_signal() {
    let mut st = MarketState::new(PERP.into(), "5m_updown".into(), 512, 5000);
    let mut r = rule();
    assert_eq!(run(&mut st, &mut r), 0, "no Live target -> no signal");
}

#[test]
fn cooldown_limits_to_one() {
    let mut st = MarketState::new(PERP.into(), "5m_updown".into(), 512, 5000);
    live_market(&mut st);
    let mut r = rule();
    assert_eq!(run(&mut st, &mut r), 1);
}

#[test]
fn signals_go_out_with_their_latency() {
    let mut st = MarketState::new(PERP.into(), "5m_updown".into(), 512, 5000);
    live_market(&mut st);
    assert_eq!(rule().id(), "perp_move");
    let mut e = RuleEngine::new(vec![rule()]);
    let mut out = Vec::new();
    for k in 0..=12i64 {
        let ev = perp_book(BASE + k * 100_000_000, 50000.0 * (1.0 + k as f64 * 0.5 / 10000.0));
        st.on_event(&ev);
        out.extend(e.on_event(&ev, &st));
    }
    let s = out.remove(0);
    assert_eq!((s.target.as_str(), s.direction), (UP, 1));
    let at = s.ts_ns;
    let mut seq = 0;
    let (lat, sig) = signal_events(s, at + 500, &mut seq);
    assert_eq!(sig.topic, "signal.perp_move");
    match lat.payload {
        Payload::Latency(l) => assert_eq!(l.latency_ns, 500),
        _ => panic!("no latency"),
    }
    assert_eq!(ProcCfg::default().reference, PERP);
    assert_eq!(rule().id(), "perp_move");
}

#[test]
fn markets_that_are_over_are_unlinked() {
    let mut st = MarketState::new(PERP.into(), "5m_updown".into(), 512, 5000);
    live_market(&mut st);
    assert!(st.target_of(PERP).is_some());
    assert_eq!(st.tte_ms(UP, BASE), Some(300_000));
    st.on_event(&meta(UP, "5m_updown", MarketStatus::Expired, BASE + 300 * S, None));
    assert!(st.target_of(PERP).is_none());
    assert!(st.get(UP).is_some());
    assert_eq!(InstrumentKind::infer(PERP), InstrumentKind::CryptoPerp);
    assert_eq!(InstrumentKind::infer(UP), InstrumentKind::PredictionOutcome);
}

// ---- windows ----------------------------------------------------------------------------

#[test]
fn move_bps_spans_window() {
    let mut w = RollingWindow::new(64, 5000);
    let base = 1_000_000_000_000i64;
    for k in 0..=10i64 {
        let mid = 100.0 * (1.0 + (k as f64) * 1.0 / 10000.0);
        w.push(base + k * 100_000_000, h(mid));
    }
    assert!(w.move_bps(base + 500_000_000, 1000).is_none());
    let got = w.move_bps(base + 1_000_000_000, 1000).unwrap();
    assert!((got as f64 / 1e6 - 10.0).abs() < 0.1, "got {got}");
}

#[test]
fn windows_are_bounded_and_hold_the_last_value() {
    let mut w = RollingWindow::new(2, 5000);
    w.push(1, 10);
    w.push(2, 20);
    w.push(3, 30);
    assert_eq!(w.asof(1), None);
    assert_eq!(w.asof(2), Some(20));
    assert_eq!(w.asof(9), Some(30));
}

// ---- gaps -------------------------------------------------------------------------------

#[test]
fn gap_summary_stats() {
    let samples: Vec<i64> = (1..=100).map(|i| n(i as f64 * 0.001)).collect();
    let s = gap_summary(&samples, n(0.03)).expect("non-empty");
    assert_eq!(s.n, 100);
    assert_eq!(s.mean, n(0.0505));
    assert_eq!(s.abs_mean, n(0.0505) as i128);
    assert_eq!(s.max, n(0.100) as i128);
    assert_eq!(s.ge_delta, 71);
    assert!(s.p50 > n(0.045) as i128 && s.p50 < n(0.056) as i128, "p50 {}", s.p50);
    assert!(s.p90 > n(0.085) as i128 && s.p90 < n(0.095) as i128, "p90 {}", s.p90);
    assert!(s.p99 > n(0.095) as i128, "p99 {}", s.p99);
}

#[test]
fn gap_summary_empty() {
    assert!(gap_summary(&vec![], n(0.03)).is_none());
}

#[test]
fn gap_summary_signed_vs_abs() {
    let s = gap_summary(&vec![n(-0.02), n(0.02), n(-0.04), n(0.04)], n(0.03)).unwrap();
    assert_eq!(s.mean, 0, "signed mean {}", s.mean);
    assert_eq!(s.abs_mean, n(0.03) as i128);
    assert_eq!(s.ge_delta, 2);
}

// ---- the ride rule ----------------------------------------------------------------------

fn calib(seq: u64, fitted_at_tte_ms: i64) -> Event {
    Event::new("calib.K".into(), "t", BASE, 0, Payload::Calib(CalibUpdate {
        instrument: K.into(),
        reference: CB.into(),
        seq,
        ts_ns: BASE,
        fitted_at_tte_ms,
        rows: 100,
        d_b_bits: 0,
        d_rho_bits: 0,
        bce_bits: 0,
        model_hash: 77,
    }))
}

fn ride_state() -> MarketState {
    let mut st = MarketState::new(CB.into(), "15m_updown".into(), 512, 5000);
    st.on_event(&meta(K, "15m_updown", MarketStatus::Live, BASE + 200 * S, Some(m(64000.0))));
    st
}

fn look(r: &mut FairRideRule, st: &mut MarketState, at: i64, cb: f64, mid: f64, fair: f64) -> Weighed {
    st.on_event(&book(CB, cb - 0.5, cb + 0.5, at));
    st.on_event(&book(K, mid - 0.01, mid + 0.01, at));
    match r.scan(K, st, at) {
        Scan::Ask(q, row) => {
            assert_eq!(q.px, h(cb));
            assert_eq!(q.strike, m(64000.0));
            r.weigh(K, &row, n(fair))
        },
        Scan::Nothing => panic!("nothing to ask"),
    }
}

#[test]
fn a_crossing_that_the_model_opened_is_ridden() {
    let mut st = ride_state();
    let mut r = FairRideRule::new(FairRideCfg::default(), vec![], false, 77);
    assert!(matches!(r.on_event(&calib(1, 200_000), &st), Todo::Nothing));
    assert!(matches!(look(&mut r, &mut st, BASE + S, 64000.0, 0.50, 0.50), Weighed::Nothing));
    let c = match look(&mut r, &mut st, BASE + 3 * S, 64100.0, 0.50, 0.58) {
        Weighed::LookBack(q, c) => {
            assert_eq!(q.px, h(64000.0));
            c
        },
        other => panic!("no crossing: {:?}", other),
    };
    assert_eq!((c.sig, c.entry), (n(0.08), 1));
    assert_eq!(r.gate(&c, n(0.50)), (n(0.08) as i128, 0, Gate::Pass));
    let s = r.ride(K, &c, n(0.50)).unwrap();
    assert_eq!((s.target.as_str(), s.direction), (K, 1));
    assert_eq!(
        s.reason,
        "gap=+0.0800 share=1.00 fair=0.5800 mid=0.5000 tte=197.0s px=64100.00 entry#1"
    );
    // the market moved, not the model: no ride
    assert_eq!(r.gate(&c, n(0.58)), (0, 0, Gate::Reject));
    assert!(r.ride(K, &c, n(0.58)).is_none());
    // disarmed until the gap closes, and a flip rearms at once
    assert!(matches!(look(&mut r, &mut st, BASE + 5 * S, 64100.0, 0.50, 0.58), Weighed::Nothing));
    assert!(matches!(look(&mut r, &mut st, BASE + 7 * S, 63900.0, 0.50, 0.42), Weighed::Rearmed { dir: 1, .. }));
    assert!(matches!(look(&mut r, &mut st, BASE + 9 * S, 63800.0, 0.50, 0.42), Weighed::LookBack(..)));
}

#[test]
fn nothing_is_asked_without_a_fit_of_this_model() {
    let mut st = ride_state();
    let mut r = FairRideRule::new(FairRideCfg::default(), vec![], false, 78);
    r.on_event(&calib(1, 200_000), &st);
    st.on_event(&book(CB, 64000.0, 64001.0, BASE + S));
    st.on_event(&book(K, 0.49, 0.51, BASE + S));
    assert!(matches!(r.scan(K, &st, BASE + S), Scan::Nothing));
    r.prefill(K, &vec![(BASE, h(0.5), n(0.5))]);
    assert!(matches!(r.scan("kalshi.other.YES", &st, BASE + S), Scan::Nothing));
}

// ---- features ---------------------------------------------------------------------------

#[test]
fn features_come_all_or_none() {
    let mut f = FeatureState::new(vec!["basis".into(), "imb1".into()]);
    assert!(f.active());
    f.on_perp(BASE, h(64000.0), m(3.0), m(1.0));
    assert!(f.feats(BASE).is_none());
    f.on_cb(BASE, h(64010.0));
    let v = f.feats(BASE).unwrap();
    assert_eq!(v.len(), 2);
    assert!((value(v[0]) - 10.0).abs() < 1e-9, "basis {}", value(v[0]));
    assert!((value(v[1]) - 0.5).abs() < 1e-9, "imb1 {}", value(v[1]));
    assert_eq!(f.cb_price(BASE), Some(h(64010.0)));
    assert_eq!(f.cb_age(BASE + 5), Some(5));
    f.on_perp_trade(BASE, m(1.0));
    assert!(!FeatureState::new(vec![]).active());
}

#[test]
fn the_probe_shows_the_features_at_its_pace() {
    let cfg = FeatureProbeCfg::default();
    assert_eq!(cfg.reference, PERP);
    let mut p = Probe::new(cfg, vec!["basis".into()]);
    assert!(matches!(p.on_event(&book(PERP, 64000.0, 64002.0, BASE)), Shown::NotReady));
    assert!(matches!(p.on_event(&book(CB, 64010.0, 64012.0, BASE + S)), Shown::Nothing));
    p.on_event(&book(PERP, 64000.0, 64002.0, BASE + 59 * S));
    p.on_event(&volume("binance.usdt_perp.BTCUSDT.vol", 1.0, BASE + 59 * S));
    match p.on_event(&book(CB, 64010.0, 64012.0, BASE + 60 * S)) {
        Shown::Values(v) => assert!((value(v[0]) - 10.0).abs() < 1e-9),
        other => panic!("{:?}", other),
    }
}

#[test]
fn hist_lags_and_sigma() {
    let mut hist = Hist::new();
    let t0 = 1_000_000_000_000i64;
    hist.on_perp(t0, h(100.0));
    hist.on_yes("k", t0, h(0.50));
    hist.on_yes("k", t0 + 2_000_000_000, h(0.60));
    hist.on_perp(t0 + 3_000_000_000, h(110.0));
    let now = t0 + 4_000_000_000;
    let x = hist.hist_block("k", now, &vec![5, 10, 15], h(110.0)).unwrap();
    assert!(x.moves.is_none(), "too few grid points: the floor is used");
    assert_eq!(x.yes, vec![h(0.60), h(0.60), h(0.50)]);
    assert_eq!(x.perp, vec![h(110.0), h(100.0), h(100.0)]);
    assert!(hist.hist_block("k", now, &vec![30], h(110.0)).is_none());
}

#[test]
fn lake_bars_flow_and_depth() {
    let mut l = LakeFeats::new();
    let t0 = 1_700_000_000_000_000_000i64;
    l.on_vol(t0, 0);
    l.on_volb(t0, 0, 0);
    for i in 1..=12 {
        let t = t0 + i * BAR_NS;
        l.on_vol(t, m(2.0) * i);
        l.on_volb(t, m(1.5) * i, m(3.0) * i);
    }
    let bids: Vec<(i64, i64)> = (0..10).map(|k| (m(99.99 - 0.011 * k as f64), m(2.0))).collect();
    let asks: Vec<(i64, i64)> = (0..10).map(|k| (m(100.01 + 0.011 * k as f64), m(1.0))).collect();
    l.on_depth(t0 + 12 * BAR_NS, &bids, &asks);
    let names = |s: &[&str]| -> Vec<String> { s.iter().map(|x| x.to_string()).collect() };
    let bad = names(&[
        "flow_tfi_1s", "flow_vol_1s", "flow_n_1s", "flow_n_5s", "depth_spread_bps", "depth_imb5_x",
        "depth_band5", "depth_depth10", "depth_dimb5_1s",
    ]);
    assert!(l.features(t0 + 12 * BAR_NS, &bad).is_none());
    let good = names(&[
        "flow_tfi_1s", "flow_vol_1s", "flow_n_1s", "flow_n_5s", "depth_spread_bps", "depth_band5",
        "depth_depth10", "depth_dimb5_1s", "depth_band10",
    ]);
    let x: Vec<f64> = l
        .features(t0 + 12 * BAR_NS + 30_000_000, &good)
        .unwrap()
        .into_iter()
        .map(term)
        .collect();
    assert!((x[0] - 0.5).abs() < 1e-9, "tfi {}", x[0]);
    assert!((x[1] - 20f64.ln_1p()).abs() < 1e-9);
    assert!((x[2] - 30.0).abs() < 1e-9);
    assert!((x[3] - 36.0).abs() < 1e-9, "n_5s {}", x[3]);
    assert!((x[4] - 2.0).abs() < 1e-6, "spread bps {}", x[4]);
    assert!((x[5] - 4.0 / 12.0).abs() < 1e-9, "band5 {}", x[5]);
    assert!((x[6] - 27f64.ln_1p()).abs() < 1e-9, "depth10 {}", x[6]);
    assert_eq!(x[7], 0.0);
    assert!((x[8] - 9.0 / 27.0).abs() < 1e-9, "band10 {}", x[8]);
    let x: Vec<f64> =
        l.features(t0 + 27 * BAR_NS, &good).unwrap().into_iter().map(term).collect();
    assert!((x[4] - 2.0).abs() < 1e-6);
    let x: Vec<f64> =
        l.features(t0 + 37 * BAR_NS, &good).unwrap().into_iter().map(term).collect();
    assert_eq!(x[4], 0.0);
}

#[test]
fn window_feats_warm_up_then_publish() {
    let mut f = ObFeats::new();
    let mut t = 0i64;
    let mut px = 100_000.0f64;
    f.on_vol(t, 0);
    f.on_volb(t, 0, 0);
    let mut cum = 0.0;
    let mut cum_buy = 0.0;
    for i in 0..900 {
        t += 100_000_000;
        px += if i % 3 == 0 { 1.0 } else { -0.5 };
        f.on_depth_best(t, &Best {
            bid: m(px - 0.5),
            bid_sz: m(3.0),
            ask: m(px + 0.5),
            ask_sz: m(4.0),
        });
        cum += 0.4;
        cum_buy += 0.25;
        f.on_vol(t, m(cum));
        f.on_volb(t, m(cum_buy), m((i + 1) as f64));
        if i == 300 {
            assert!(f.window_feats().is_none(), "must not publish before 600 bars");
        }
    }
    f.roll(t + 100_000_000);
    let w = f.window_feats().expect("should publish after warmup");
    for win in [w.second, w.ten, w.minute] {
        assert!(win.mid_then > 0 && win.mid_now > 0);
        assert!(win.sums.vol >= win.sums.buy);
    }
    // spread 1.0 on a ~100k mid ~= 0.1bp
    let bps = w.spread as f64 / 1e6 / px * 1e4;
    assert!((bps - 0.1).abs() < 0.05, "spread_bps {}", bps);
    assert!(f.window_feats_b4().is_none(), "half an hour is not there yet");
}

#[test]
fn bars_count_what_happens_in_them() {
    let top = |bid_sz: f64, ask_sz: f64| Best {
        bid: m(100.0),
        bid_sz: m(bid_sz),
        ask: m(101.0),
        ask_sz: m(ask_sz),
    };
    let mut f = ObFeats::new();
    assert!(f.on_tob(0, &top(3.0, 4.0)).is_empty());
    assert!(f.on_tob(5_000_000, &Best { bid: 0, ..top(9.0, 9.0) }).is_empty());
    f.on_tob(10_000_000, &top(5.0, 4.0));
    f.on_depth5(20_000_000, m(10.0), m(8.0));
    f.on_depth5(30_000_000, m(12.0), m(7.0));
    f.on_vol(40_000_000, m(10.0));
    f.on_volb(40_000_000, m(4.0), m(2.0));
    f.on_vol(50_000_000, m(11.5));
    let bars = f.on_tob(BAR_NS, &top(5.0, 6.0));
    assert_eq!(bars.len(), 1);
    let b = &bars[0];
    assert_eq!((b.bar, b.valid, b.ofi, b.updates, b.stood), (0, true, m(2.0), 2, 0));
    assert_eq!((b.mid, b.ofl5, b.dofi), (Some(m(201.0) as i128), Some(m(3.0)), None));
    assert_eq!(b.largest, Some(m(1.5)));
    let t = b.trades.unwrap();
    assert_eq!((t.vol, t.flow), (0, Some((0, 0))));
    f.on_vol(BAR_NS + 1, m(13.0));
    f.on_volb(BAR_NS + 1, m(5.0), m(3.0));
    let bars = f.roll(3 * BAR_NS);
    assert_eq!(bars.iter().map(|b| (b.bar, b.ofi)).collect::<Vec<_>>(), vec![(1, m(-2.0)), (2, 0)]);
    let t = bars[0].trades.unwrap();
    assert_eq!((t.vol, t.flow), (m(1.5), Some((m(1.0), m(1.0)))));
    assert_eq!((bars[1].updates, bars[1].stood), (0, 2));
    assert!(f.ready());
}

#[test]
fn nets_are_told_apart_by_their_columns() {
    let mut w: Vec<String> = ob_w_feats().iter().map(|s| s.to_string()).collect();
    w.push("spread_bps".into());
    assert_eq!(net_kind(&w), ObNetKind::Window);
    w.pop();
    w.push("spnorm".into());
    assert_eq!(net_kind(&w), ObNetKind::Window4);
    let legacy: Vec<String> = [
        "ob_tfi", "ob_tfi_e2", "ob_tfi_e10", "ob_tfi_e60", "ob_tv_e10", "ob_nt", "ob_bigtr",
        "ob_tslc", "ob_ret1", "ob_ret10", "ob_ret100", "ob_ret600", "ob_rv100", "ob_dofi",
        "ob_dofi_e2", "ob_dofi_e10", "ob_dofi_e60",
    ]
    .iter()
    .map(|s| s.to_string())
    .collect();
    assert_eq!(net_kind(&legacy), ObNetKind::Legacy);
    let places = legacy_places(&legacy).unwrap();
    let all = ob_feats();
    for (i, p) in places.iter().enumerate() {
        assert_eq!(all[*p], legacy[i]);
    }
    assert!(legacy_places(&vec!["nothing".into()]).is_none());
    assert!(!ObFeats::new().ready());
}

// ---- the exceed rule --------------------------------------------------------------------

#[test]
fn layouts_are_checked() {
    let check = |kind: &str, feat: &str, lake: Vec<&str>, nf: usize| {
        let lake = lake.into_iter().map(String::from).collect();
        check_layout(kind, feat, vec![5, 10], lake, nf)
    };
    let l = check("exceed", "hist, pas,kbs", vec![], 11).unwrap();
    assert_eq!(l.lags, vec![5, 10]);
    assert_eq!(l.book, vec![BookCol::BidSize, BookCol::RefAskSize]);
    assert!(l.lake.is_empty());
    let l = check("exceed", "hist,lf_flow_n_1s", vec!["flow_n_1s"], 10).unwrap();
    assert_eq!(l.lake, vec!["flow_n_1s".to_string()]);
    assert_eq!(check("nothing", "hist", vec![], 9).unwrap_err(), LayoutError::Kind);
    assert_eq!(check("exceed", "kbs", vec![], 10).unwrap_err(), LayoutError::NoLags);
    assert_eq!(check("exceed", "hist,zzz", vec![], 9).unwrap_err(), LayoutError::Group);
    assert_eq!(
        check("exceed", "hist,lf_flow_n_1s", vec![], 9).unwrap_err(),
        LayoutError::LakeList
    );
    assert_eq!(
        check("exceed", "hist,lf_nope", vec!["nope"], 10).unwrap_err(),
        LayoutError::LakeName
    );
    assert_eq!(check("exceed", "hist", vec![], 10).unwrap_err(), LayoutError::Count);
}

#[test]
fn a_score_past_the_cut_is_traded_once() {
    let cfg = ExceedCfg { reference: PERP.into(), ..ExceedCfg::default() };
    let cut = cfg.cut;
    let at = |bid: f64, ask: f64| Row {
        now: BASE,
        tte_ns: 100 * S,
        bid: m(bid),
        ask: m(ask),
        bid_sz: m(1.0),
        ask_sz: m(1.0),
        px: h(64000.0),
        px_bid_sz: m(1.0),
        px_ask_sz: m(1.0),
    };
    let high = at(0.92, 0.94);
    assert_eq!(high.mid(), h(0.93));
    let layout = Layout { lags: vec![5], book: vec![], lake: vec![] };
    let mut r = ExceedRule::new(cfg, layout);
    // a market that is not watched
    assert!(r.decide(K, &high, cut, (n(0.9), n(0.1))).is_none());
    let live = meta(K, "15m_updown", MarketStatus::Live, BASE + 100 * S, Some(m(64000.0)));
    assert!(r.on_event(&live).is_empty());
    // prices in the middle do not count
    assert!(r.decide(K, &at(0.49, 0.51), cut, (n(0.9), n(0.1))).is_none());
    assert!(r.decide(K, &high, cut - 1, (n(0.9), n(0.1))).is_none());
    let s = r.decide(K, &high, cut, (n(0.9), n(0.1))).unwrap();
    assert_eq!((s.direction, s.trigger.yes_price), (1, h(0.94)));
    assert_eq!((s.strategy.as_str(), s.target.as_str(), s.ttl_ms), ("exceed", K, 500));
    assert_eq!(s.trigger.move_bps, cut / 10);
    assert_eq!(
        s.reason,
        "s=+0.4800 pup=0.9000 pdn=0.1000 mid=0.9300 tte=100.0s px=64000.00 entry#1"
    );
    // the same episode goes on, until the score falls back
    assert!(r.decide(K, &high, cut, (n(0.9), n(0.1))).is_none());
    assert!(r.decide(K, &high, 200_000_000, (n(0.9), n(0.1))).is_none());
    let s = r.decide(K, &high, -cut, (n(0.9), n(0.1))).unwrap();
    assert_eq!((s.direction, s.trigger.yes_price), (-1, h(0.08)));
    assert_eq!(r.on_event(&book(PERP, 64000.0, 64001.0, BASE)), vec![K.to_string()]);
    let over = meta(K, "15m_updown", MarketStatus::Expired, BASE + 100 * S, None);
    assert!(r.on_event(&over).is_empty());
    assert!(r.on_event(&book(PERP, 64000.0, 64001.0, BASE)).is_empty());
}

// ---- the calibration --------------------------------------------------------------------

#[test]
fn events_are_fitted_on_their_samples() {
    let mut cfg = CalibCfg::default();
    cfg.min_rows = 3;
    let kind = cfg.kind.clone();
    let reference = cfg.reference.clone();
    let first = cfg.first_tte_ns;
    let mut c = CalibCore::new(cfg, vec![], 77);
    let expiry = BASE + first + 100 * S;
    assert!(c.on_event(&meta(K, &kind, MarketStatus::Live, expiry, Some(m(64000.0)))).is_empty());
    let mut jobs = Vec::new();
    for i in 0..120 {
        let at = BASE + i * S;
        jobs.extend(c.on_event(&book(&reference, 64000.0, 64001.0, at)));
        jobs.extend(c.on_event(&book(K, 0.49, 0.51, at)));
        jobs.extend(c.tick(at));
    }
    assert_eq!(jobs.len(), 1, "one fit at the first boundary");
    assert!(!jobs[0].warm);
    assert_eq!(jobs[0].strike, m(64000.0));
    assert_eq!(jobs[0].update.model_hash, 77);
    assert!(jobs[0].rows.len() >= 3);
    assert!(fit_topic(K).contains("K"));
    assert_eq!(fnv1a(b""), 0xcbf29ce484222325);
    assert_eq!(fnv1a(b"a"), 0xaf63dc4c8601ec8c);
}

// ---- the shapes of the models -------------------------------------------------------------

fn dense(n_in: usize, n_out: usize) -> LayerShape {
    LayerShape { rows: vec![n_in; n_out], bias: n_out }
}

#[test]
fn surfaces_are_checked() {
    let good = || vec![dense(4, 16), dense(16, 16), dense(16, 1)];
    assert_eq!(check_surface("direct", 16, 2, 2, 2, &good()), Ok(()));
    let err = |mode: &str, hidden, n, mu, sd, s: &Vec<LayerShape>| {
        check_surface(mode, hidden, n, mu, sd, s).unwrap_err()
    };
    assert_eq!(err("latent", 16, 2, 2, 2, &good()), ShapeError::Mode);
    assert_eq!(err("direct", 16, 2, 2, 2, &vec![dense(4, 16)]), ShapeError::Layers);
    assert_eq!(err("direct", 8, 2, 2, 2, &good()), ShapeError::Hidden);
    assert_eq!(err("direct", 16, 9, 9, 9, &good()), ShapeError::Extras);
    assert_eq!(err("direct", 16, 2, 1, 2, &good()), ShapeError::Scales);
    assert_eq!(err("direct", 16, 3, 3, 3, &good()), ShapeError::Input);
    let mut bad = good();
    bad[1].bias = 15;
    assert_eq!(err("direct", 16, 2, 2, 2, &bad), ShapeError::Bias);
    let mut bad = good();
    bad[2].rows[0] = 15;
    bad[2].rows.push(16);
    bad[2].bias = 2;
    assert_eq!(err("direct", 16, 2, 2, 2, &bad), ShapeError::Ragged);
    let mut bad = good();
    bad[1].rows.clear();
    assert_eq!(err("direct", 16, 2, 2, 2, &bad), ShapeError::Empty);
}

#[test]
fn ensembles_and_distributions_are_checked() {
    let member = || vec![dense(9, 4), dense(4, 2)];
    assert_eq!(check_ensemble(9, 9, &vec![member(), member()]), Ok(()));
    assert_eq!(check_ensemble(9, 8, &vec![member()]), Err(ShapeError::Scales));
    assert_eq!(check_ensemble(9, 9, &vec![]), Err(ShapeError::Members));
    assert_eq!(check_ensemble(8, 8, &vec![member()]), Err(ShapeError::Input));
    let wide = vec![member(), vec![dense(9, 3)]];
    assert_eq!(check_ensemble(9, 9, &wide), Err(ShapeError::Output));
    let cols: Vec<String> = vec!["ob_upd".into(), "ob_ofi".into()];
    let net = || vec![dense(2, 8), dense(8, 11)];
    let c = check_distribution(11, &cols, (2, 2, 2, 2), &net()).unwrap();
    assert_eq!((c.kind, c.places), (ObNetKind::Legacy, vec![11, 0]));
    let err = |k, cols: &Vec<String>, lo| {
        check_distribution(k, cols, (lo, 2, 2, 2), &net()).unwrap_err()
    };
    assert_eq!(err(12, &cols, 2), ShapeError::Bins);
    assert_eq!(err(11, &cols, 3), ShapeError::Scales);
    assert_eq!(err(11, &vec!["ob_upd".into(), "nope".into()], 2), ShapeError::Column);
}

// ---- over a run -------------------------------------------------------------------------

#[test]
fn a_market_is_fitted_once_at_each_boundary() {
    let mut cfg = CalibCfg::default();
    cfg.min_rows = 3;
    let (kind, reference) = (cfg.kind.clone(), cfg.reference.clone());
    let (first, every, last) = (cfg.first_tte_ns, cfg.refit_every_ns, cfg.last_tte_ns);
    let mut c = CalibCore::new(cfg, vec![], 77);
    let expiry = BASE + first + 100 * S;
    c.on_event(&meta(K, &kind, MarketStatus::Live, expiry, Some(m(64000.0))));
    let mut fits = Vec::new();
    let mut at = BASE;
    while at < expiry + 60 * S {
        let mut jobs = c.on_event(&book(&reference, 64000.0, 64001.0, at));
        jobs.extend(c.on_event(&book(K, 0.49, 0.51, at)));
        jobs.extend(c.tick(at));
        fits.extend(jobs.iter().map(|j| (j.update.seq, j.update.fitted_at_tte_ms)));
        at += S;
    }
    assert_eq!(fits.len() as i64, (first - last) / every + 1);
    for (i, w) in fits.windows(2).enumerate() {
        assert!(w[0].0 < w[1].0 && w[0].1 > w[1].1, "fit {}: {:?}", i, w);
    }
}

#[test]
fn gaps_are_summed_up_at_their_pace() {
    assert_eq!(gap_due(0, 1, BASE), (false, BASE));
    assert_eq!(gap_due(BASE, 2, BASE + 59 * S), (false, BASE));
    assert_eq!(gap_due(BASE, 2, BASE + 60 * S), (true, BASE + 60 * S));
    assert_eq!(gap_due(BASE, 50_000, BASE + 1), (true, BASE + 1));
    assert_eq!(line_due(0, 10 * S, BASE), (true, BASE));
    assert_eq!(line_due(BASE, 10 * S, BASE + 10 * S - 1), (false, BASE));
}

#[test]
fn volume_that_no_flow_goes_with_leaves_the_flow_open() {
    let top = Best { bid: m(100.0), bid_sz: m(1.0), ask: m(101.0), ask_sz: m(1.0) };
    let mut f = ObFeats::default();
    f.on_tob(0, &top);
    f.on_vol(1, m(10.0));
    f.on_tob(BAR_NS, &top);
    f.on_vol(BAR_NS + 1, m(12.0));
    f.on_volb(BAR_NS + 1, m(4.0), m(2.0));
    let bars = f.roll(2 * BAR_NS);
    let t = bars[0].trades.unwrap();
    assert_eq!((t.vol, t.flow), (m(2.0), None));
    // there is no window until that bar has left the last minute
    for i in 2..=601 {
        f.on_depth_best(i * BAR_NS, &top);
        f.on_tob(i * BAR_NS, &top);
        f.on_vol(i * BAR_NS, m(12.0 + i as f64));
        f.on_volb(i * BAR_NS, m(4.0 + i as f64), m(2.0));
        assert!(f.window_feats().is_none());
    }
    f.roll(602 * BAR_NS);
    assert!(f.window_feats().is_none(), "no mid of a minute ago yet");
    f.roll(604 * BAR_NS);
    let w = f.window_feats().unwrap();
    assert_eq!(w.ten.sums.buy, w.ten.sums.vol);
}

#[test]
fn the_lake_counts_what_came() {
    let mut l = LakeFeats::new();
    assert_eq!((l.n_depth(), l.n_vol()), (0, 0));
    l.on_vol(BASE, m(1.0));
    l.on_vol(BASE + 1, m(2.0));
    l.on_depth(BASE, &vec![(m(99.0), m(1.0))], &vec![(m(101.0), m(1.0))]);
    assert_eq!((l.n_depth(), l.n_vol()), (1, 2));
}

#[test]
fn the_smallest_rise_is_a_rise() {
    let fire = |rise: i64| {
        let mut st = MarketState::new(PERP.into(), "5m_updown".into(), 512, 5000);
        live_market(&mut st);
        let mut r = rule();
        r.threshold_bps = 0;
        let mut out = Vec::new();
        for (ts, up) in [(BASE, 0), (BASE + S, rise)] {
            let px = 90_000_000_000_000_000 + up;
            let ev = Event::new(format!("market.{}.book", PERP), "t", ts, 0, Payload::Book(BookUpdate {
                instrument: PERP.into(),
                bids: vec![(px - 1, m(5.0))],
                asks: vec![(px + 1, m(5.0))],
                update_id: None,
                exch_ts_ns: ts,
                recv_ts_ns: ts,
            }));
            st.on_event(&ev);
            out.extend(r.on_event(&ev, &st));
        }
        (out[0].direction, out[0].trigger.move_bps)
    };
    // less than a millionth of a basis point
    assert_eq!(fire(1), (1, 0));
    assert_eq!(fire(0), (-1, 0));
    assert_eq!(fire(-1), (-1, 0));
}

#[test]
fn a_move_is_told_with_its_size() {
    let mut st = MarketState::new(PERP.into(), "5m_updown".into(), 512, 5000);
    live_market(&mut st);
    let mut r = rule();
    let mut out = Vec::new();
    for k in 0..=12i64 {
        let ev = perp_book(BASE + k * 100_000_000, 50000.0 + k as f64 * 2.0);
        st.on_event(&ev);
        out.extend(r.on_event(&ev, &st));
    }
    assert_eq!(st.links.get(PERP).map(String::as_str), Some(UP));
    assert!(st.instruments.contains(UP));
    assert_eq!(out[0].trigger.yes_price, h(0.50));
    assert_eq!(out[0].reason, "perp move +4.00bps over 1000ms, token +0.00c");
}

#[test]
fn five_levels_are_summed() {
    let l = |n: i64| -> Vec<(i64, i64)> { (1..=n).map(|i| (m(100.0) - i, m(i as f64))).collect() };
    assert_eq!(five_sizes(&l(3)), m(6.0));
    assert_eq!(five_sizes(&l(8)), m(15.0));
    assert_eq!(five_sizes(&vec![(1, i64::MAX), (2, i64::MAX)]), i64::MAX);
}

#[test]
fn an_interval_below_zero_moves_the_boundary_away() {
    let mut cfg = CalibCfg::default();
    cfg.min_rows = 3;
    cfg.refit_every_ns = -10 * S;
    let (kind, reference, first) = (cfg.kind.clone(), cfg.reference.clone(), cfg.first_tte_ns);
    let mut c = CalibCore::new(cfg, vec![], 77);
    let expiry = BASE + first + 20 * S;
    c.on_event(&meta(K, &kind, MarketStatus::Live, expiry, Some(m(64000.0))));
    let mut fits = Vec::new();
    for i in 0..24 {
        let at = BASE + i * S;
        let mut jobs = c.on_event(&book(&reference, 64000.0, 64001.0, at));
        jobs.extend(c.on_event(&book(K, 0.49, 0.51, at)));
        jobs.extend(c.tick(at));
        fits.extend(jobs.iter().map(|j| (j.update.seq, j.update.fitted_at_tte_ms)));
    }
    assert!(fits.len() > 2);
    for (i, f) in fits.iter().enumerate() {
        assert_eq!(*f, (i as u64 + 1, first / 1_000_000 + i as i64 * 10_000));
    }
}
