//! Positions, risk, venues, order state, the reconciler and the engine.
use arb::event::{Event, Payload};
use arb::executor::config::{ExecutorCfg, RiskCfg};
use arb::executor::engine::{Action, Engine, Note, Out};
use arb::executor::mirror::ExecBookMirror;
use arb::executor::order_manager::{
    is_definite, BookSide, FillRec, OmsEvent, OmsState, OrderMsg, OrderStatus, PlaceError,
};
use arb::executor::order_manager_kalshi::{
    apply_fills, apply_resolved, fills_query, fills_since, next_backoff, orders_query, page_step, parse_fill, parse_order, parse_orders_page, parse_position, parse_positions, route,
    sync_due, PageStep,
};
use arb::executor::plan::Reject;
use arb::executor::position::{FillError, PosStatus, PositionManager};
use arb::executor::reconciler::{CancelReply, ReconAction, ReconEvent, Reconciler};
use arb::executor::report::note_text;
use arb::executor::risk::{Proposal, RiskGate, RiskReject};
use arb::executor::sampler::{
    maker_outcome, price_ladder, HoldProbe, HoldSampler, MakerOutcome, MakerProbe, MakerSampler,
    PriceSampler, PxProbe, sample_price, split_due, volume_due, volume_span,
};
use arb::executor::slot::{
    clamp_liquidation, entry_gate, exposure_ok, translated_close_fill, EntryClaim, GateReject,
    ReconCfg, RestingClose, Slots, TradeState,
};
use arb::executor::startup::{balance_halts, startup, Adapter, StartError};
use arb::executor::types::{
    BookDepth, BookTop, CancelOutcome, Fill, FillStatus, IntentKind, MarketParams, OrderIntent,
    VenueOutcome,
};
use arb::executor::venue::{fee_usdc, sweep_sell, SimReject, SimVenue};
use arb::executor::venue_kalshi::{
    base_of, cancel_path, extract_balance, extract_fill_count, extract_order_id, extract_reduced,
    ioc_outcome, ioc_request, map_order, reject_text, rest_request, OrderReject,
};
use arb::executor::venue_spec::{
    by_name, complement, market_id_of, traded_instrument, venue_of, yes_side_of,
};
use arb::json;
use arb::json::Json;
use arb::model::{BookUpdate, LegSummary, MarketMeta, MarketStatus, Side, TradeSignal, Trigger};

const MS: i64 = 1_000_000;

fn m(x: f64) -> i64 {
    (x * 1e6).round() as i64
}

/// An amount of money, in units of 1e-18.
fn money(x: f64) -> i128 {
    m(x) as i128 * 1_000_000_000_000
}

fn read(s: &str) -> Json {
    json::parse(s).unwrap()
}

// ---- the mirror -------------------------------------------------------------------------

fn book_ev(inst: &str, bid: f64, ask: f64, recv: i64) -> Event {
    Event::new("market.polymarket.0xabc.book".into(), "poly", recv, 0, Payload::Book(BookUpdate {
        instrument: inst.into(),
        bids: vec![(m(bid), m(100.0))],
        asks: vec![(m(ask), m(80.0))],
        update_id: None,
        exch_ts_ns: recv,
        recv_ts_ns: recv,
    }))
}

fn meta_ev(inst: &str, expiry_ns: i64) -> Event {
    Event::new("market.polymarket.catalog".into(), "poly", 900, 0, Payload::Meta(MarketMeta {
        instrument: inst.into(),
        kind: "5m_updown".into(),
        status: MarketStatus::Live,
        start_ts_ns: Some(0),
        expiry_ts_ns: Some(expiry_ns),
        winner: None,
        min_order_size: Some(m(5.0)),
        tick_size: Some(m(0.01)),
        fee_rate: Some(m(0.07)),
        strike: None,
    }))
}

#[test]
fn tracks_book_and_meta_across_tokens() {
    let mut mir = ExecBookMirror::new();
    mir.on_event(&book_ev("polymarket.0xabc.UP", 0.40, 0.42, 1000));
    mir.on_event(&book_ev("polymarket.0xabc.DOWN", 0.58, 0.60, 1000));
    mir.on_event(&meta_ev("polymarket.0xabc.UP", 300_000_000_000));
    let up = mir.top("polymarket.0xabc.UP").unwrap();
    assert_eq!(up.best_ask, m(0.42));
    assert_eq!(mir.tte_ms("polymarket.0xabc.DOWN", 0), Some(300_000));
    assert!(mir.top("polymarket.0xabc.DOWN").is_some());
    assert_eq!(mir.meta_of("polymarket.0xabc.DOWN").unwrap().min_order_size, Some(m(5.0)));
    assert_eq!(mir.meta_of("polymarket.0xabc.DOWN").unwrap().fee_rate, Some(m(0.07)));
}

#[test]
fn the_mirror_remembers_asks_and_trades() {
    let mut mir = ExecBookMirror::new();
    let inst = "polymarket.0xabc.UP";
    mir.on_event(&book_ev(inst, 0.40, 0.42, 1_000));
    mir.on_event(&book_ev(inst, 0.40, 0.45, 2_000));
    assert_eq!(mir.ask_move_c(inst, 1_500, 2_500), Some(m(0.03) as i128));
    assert_eq!(mir.ask_move_c(inst, 500, 2_500), None);
    mir.on_trade(inst, 10, m(2.0));
    mir.on_trade("polymarket.0xabc.DOWN", 20, m(3.0));
    assert_eq!(mir.traded_between(inst, 10, 20), m(3.0) as i128);
    assert_eq!(mir.traded_between(inst, 5, 20), m(5.0) as i128);
    assert_eq!(mir.winner_of(inst), None);
}

// ---- the slots --------------------------------------------------------------------------

fn rc() -> ReconCfg {
    ReconCfg {
        cadence_ms: 200,
        transit_ns: 1_000 * MS,
        submitted_timeout_ns: 3_000 * MS,
        settle_wait_ms: 150,
    }
}

#[test]
fn entry_gate_freezes_in_flight_and_transit() {
    let r = rc();
    let now = 10_000 * MS;
    assert!(entry_gate(TradeState::Submitted { since_ns: now - 100 * MS }, now, &r).is_err());
    assert!(entry_gate(TradeState::Submitted { since_ns: now - 5_000 * MS }, now, &r).is_ok());
    assert!(entry_gate(TradeState::Filled { fill_ns: now - 500 * MS }, now, &r).is_err());
    assert!(entry_gate(TradeState::Filled { fill_ns: now - 1_500 * MS }, now, &r).is_ok());
    assert!(entry_gate(TradeState::Rest, now, &r).is_ok());
    assert!(entry_gate(TradeState::Idle, now, &r).is_ok());
}

#[test]
fn exposure_cap_blocks_growth_allows_reduction() {
    assert!(exposure_ok(0, true, m(1.0), m(1.0)));
    assert!(!exposure_ok(m(1.0), true, m(1.0), m(1.0)));
    assert!(exposure_ok(m(1.0), false, m(1.0), m(1.0)));
    assert!(exposure_ok(m(-2.0), true, m(1.0), m(1.0)));
    assert!(!exposure_ok(m(1.0), false, m(3.0), m(1.0)));
}

#[test]
fn close_fill_translates_to_held_side_sell() {
    let f = translated_close_fill("kalshi.KXBTC15M-1.YES", "ord-1", 2, m(1.0), m(0.43), 5);
    assert_eq!(f.instrument, "kalshi.KXBTC15M-1.YES");
    assert!(matches!(f.side, Side::Sell));
    assert_eq!(f.px, m(0.57));
    assert_eq!(f.fee, 0);
    assert!(f.client_id.starts_with("close:"), "routes via the close: prefix");
    assert_eq!(f.venue_trade_id, "ord-1-cl2", "unique per accounting event");
}

#[test]
fn yes_side_resolves_from_either_token() {
    assert_eq!(yes_side_of("kalshi.KXBTC15M-1.YES"), "kalshi.KXBTC15M-1.YES");
    assert_eq!(yes_side_of("kalshi.KXBTC15M-1.NO"), "kalshi.KXBTC15M-1.YES");
    assert_eq!(yes_side_of("polymarket.0xabc.DOWN"), "polymarket.0xabc.UP");
}

fn liq_fill(qty: f64, fee: f64) -> Fill {
    Fill {
        venue_trade_id: "sim-liq-1".into(),
        order_id: "sim-liq-1".into(),
        client_id: "liq:x".into(),
        instrument: "polymarket.0xabc.UP".into(),
        status: FillStatus::Confirmed,
        side: Side::Sell,
        qty: m(qty),
        px: m(0.40),
        fee: m(fee),
        ts_ns: 0,
    }
}

#[test]
fn clamp_liquidation_handles_the_exit_race() {
    assert!(clamp_liquidation(0, &liq_fill(20.0, 0.34)).is_none());
    let full = clamp_liquidation(m(20.0), &liq_fill(20.0, 0.336)).unwrap();
    assert_eq!(full.qty, m(20.0));
    assert_eq!(full.fee, m(0.336));
    let part = clamp_liquidation(m(5.0), &liq_fill(20.0, 0.40)).unwrap();
    assert_eq!(part.qty, m(5.0));
    assert_eq!(part.fee, m(0.10), "fee scaled to qty: 0.40*5/20");
}

fn params() -> MarketParams {
    MarketParams { min_order_size: m(1.0), tick_size: m(0.01), fee_rate: m(0.07) }
}

fn claim(inst: &str, size: f64) -> EntryClaim {
    EntryClaim {
        instrument: inst.into(),
        size: m(size),
        params: params(),
        expiry_ns: i64::MAX,
        trade_id: "t-1".into(),
    }
}

#[test]
fn one_entry_at_a_time_and_never_past_the_cap() {
    let mut s = Slots::new();
    let c = claim("kalshi.K.YES", 1.0);
    assert!(s.claim("K", &c, 0, &rc(), m(1.0)).unwrap().is_none());
    assert_eq!(s.claim("K", &c, 100 * MS, &rc(), m(1.0)).unwrap_err(), GateReject::InFlight);
    assert!(s.hand_over("K", true, m(1.0), 200 * MS, 1_000));
    assert_eq!(s.claim("K", &c, 300 * MS, &rc(), m(1.0)).unwrap_err(), GateReject::Transit);
    assert_eq!(s.claim("K", &c, 9_000 * MS, &rc(), m(1.0)).unwrap_err(), GateReject::Exposure);
    assert!(matches!(s.get("K").unwrap().state, TradeState::Filled { .. }));
    s.release_submitted("K");
    assert_eq!(s.get("K").unwrap().state, TradeState::Rest);
    assert!(!s.recover("K", "kalshi.K.YES", m(3.0), params()));
    assert!(s.recover("L", "kalshi.L.YES", m(3.0), params()));
    assert_eq!(s.get("L").unwrap().net_est, m(3.0));
    assert_eq!(s.get("L").unwrap().trade_id, "recovered-L");
}

// ---- the samplers -----------------------------------------------------------------------

#[test]
fn maker_outcome_covers_all_branches() {
    assert_eq!(maker_outcome(m(0.50), m(0.50), m(0.50), false).0, MakerOutcome::Reject);
    assert_eq!(maker_outcome(m(0.50), m(0.51), m(0.51), false).0, MakerOutcome::Reject);
    assert_eq!(maker_outcome(m(0.50), m(0.48), m(0.48), false).0, MakerOutcome::Rest);
    assert_eq!(maker_outcome(m(0.50), m(0.48), m(0.45), false).0, MakerOutcome::Rest);
    assert_eq!(
        maker_outcome(m(0.50), m(0.48), m(0.50), false),
        (MakerOutcome::MakerFill, m(0.50))
    );
    assert_eq!(
        maker_outcome(m(0.50), m(0.48), m(0.45), true),
        (MakerOutcome::Timeout, m(0.45))
    );
}

#[test]
fn probes_are_sampled_once_per_offset() {
    assert_eq!(price_ladder(200, 50), vec![0, 50, 100, 150, 200]);
    assert_eq!(split_due(&vec![0, 50, 100], 1_000 * MS, 1_060 * MS), (vec![0, 50], vec![100]));
    assert_eq!(volume_span(1_000 * MS, 100, 50), (1_050 * MS, 1_100 * MS));
    assert!(volume_due(0, 1_000) >= 1_000 * MS);
    let inst = "polymarket.0xabc.UP";
    let mut mir = ExecBookMirror::new();
    mir.on_event(&book_ev(inst, 0.40, 0.42, 0));
    let mut hs = HoldSampler::new(vec![10, 20]);
    hs.add_probe(HoldProbe {
        trade_id: "t".into(),
        inst: inst.into(),
        t0_ns: 0,
        qty: m(5.0),
        entry_vwap: m(0.30),
        fee_rate: 0,
    });
    let s = hs.tick(&mir, 15 * MS);
    assert_eq!(s.len(), 1);
    assert_eq!((s[0].h, s[0].filled, s[0].exit_vwap), (10, m(5.0), m(0.40)));
    assert_eq!(s[0].gross, m(0.1));
    assert_eq!(hs.tick(&mir, 25 * MS).len(), 1);
    assert!(hs.tick(&mir, 35 * MS).is_empty());
    let probe = MakerProbe {
        trade_id: "t".into(),
        inst: inst.into(),
        t0_ns: 0,
        offer_px: m(0.42),
        bid0: m(0.40),
        fee_rate: 0,
    };
    let mut ms = MakerSampler::new(1_000);
    assert!(ms.add_probe(probe).is_none());
    assert!(ms.tick(&mir, 500 * MS).is_empty());
    let out = ms.tick(&mir, 1_000 * MS);
    assert_eq!(out[0].outcome, MakerOutcome::Timeout);
    assert_eq!(out[0].cross_px, m(0.40));
    let px = PxProbe {
        trade_id: "t".into(),
        inst: inst.into(),
        t0_ns: 0,
        ref_ask: m(0.41),
        ref_mid_twice: m(0.80) as i128,
        tte_ms: None,
        pre_move: None,
    };
    let sample = sample_price(&px, 50, &mir).unwrap();
    assert_eq!(sample.dmid_twice, m(0.02) as i128);
    assert_eq!(sample.dask, m(0.01) as i128);
    let mut ps = PriceSampler::new(price_ladder(100, 50));
    ps.add_probe(px);
    assert_eq!(ps.count(), 1);
    assert_eq!(ps.due(0, 60 * MS), vec![0, 50]);
    ps.advance(60 * MS);
    assert_eq!(ps.due(0, 60 * MS), Vec::<u64>::new());
    ps.advance(100 * MS);
    assert_eq!(ps.count(), 0);
}

// ---- order state ------------------------------------------------------------------------

fn msg(id: &str, cid: &str, status: &str, initial: f64, filled: f64, ts: i64) -> OrderMsg {
    OrderMsg {
        order_id: id.into(),
        client_id: cid.into(),
        ticker: "T".into(),
        side: BookSide::Bid,
        yes_price: m(0.42),
        initial: m(initial),
        filled: m(filled),
        remaining: m(initial - filled),
        status: status.into(),
        updated_ms: ts,
    }
}

fn fill_rec(fid: &str, oid: &str, side: BookSide, count: f64, ts: i64) -> FillRec {
    FillRec {
        fill_id: fid.into(),
        order_id: oid.into(),
        ticker: "T".into(),
        side,
        count: m(count),
        yes_price: m(0.42),
        is_taker: false,
        fee: 0,
        ts_ms: ts,
    }
}

#[test]
fn place_ack_links_client_id_even_if_ws_arrives_first() {
    let mut s = OmsState::default();
    s.register_pending("c1", "T", BookSide::Bid, m(0.42), m(5.0), 1000);
    assert!(s.side_locked("T", BookSide::Bid));
    s.on_order_msg(&msg("o1", "c1", "resting", 5.0, 0.0, 1001), false);
    assert_eq!(s.order("o1").unwrap().status, OrderStatus::Resting);
    assert!(s.order("o1").unwrap().managed);
    s.on_place_ack("c1", "o1", 1002);
    assert_eq!(s.resting("T").len(), 1);
    assert!(!s.side_locked("T", BookSide::Bid));
}

#[test]
fn fills_dedup_and_never_decrease() {
    let mut s = OmsState::default();
    s.register_pending("c1", "T", BookSide::Bid, m(0.42), m(5.0), 1000);
    s.on_place_ack("c1", "o1", 1001);
    s.on_fill(&fill_rec("f1", "o1", BookSide::Bid, 2.0, 1500));
    s.on_fill(&fill_rec("f1", "o1", BookSide::Bid, 2.0, 1500));
    assert_eq!(s.order("o1").unwrap().filled, m(2.0));
    assert_eq!(s.order("o1").unwrap().remaining, m(3.0));
    assert_eq!(s.position("T", 2000).est, m(2.0));
    s.on_order_msg(&msg("o1", "c1", "resting", 5.0, 0.0, 1400), false);
    assert_eq!(s.order("o1").unwrap().filled, m(2.0));
    s.on_order_msg(&msg("o1", "c1", "resting", 5.0, 2.0, 1600), false);
    assert_eq!(s.order("o1").unwrap().filled, m(2.0));
    assert_eq!(s.order("o1").unwrap().status, OrderStatus::Resting);
    s.on_fill(&fill_rec("f2", "o1", BookSide::Bid, 3.0, 1700));
    assert_eq!(s.order("o1").unwrap().status, OrderStatus::Executed);
    assert!(s.resting("T").is_empty());
    assert_eq!(s.position("T", 2000).est, m(5.0));
}

#[test]
fn cancel_outcomes() {
    let mut s = OmsState::default();
    s.register_pending("c1", "T", BookSide::Ask, m(0.42), m(5.0), 1000);
    s.on_place_ack("c1", "o1", 1001);
    s.on_cancel_sent("o1", 1100);
    assert!(s.side_locked("T", BookSide::Ask));
    s.on_order_msg(&msg("o1", "c1", "resting", 5.0, 0.0, 1150), false);
    assert_eq!(s.order("o1").unwrap().status, OrderStatus::Canceling);
    s.on_cancel_outcome("o1", Some(CancelOutcome::Canceled { reduced_by: m(3.0) }), 1200);
    assert_eq!(s.order("o1").unwrap().status, OrderStatus::Canceled);
    assert_eq!(s.order("o1").unwrap().filled, m(2.0));
    assert!(!s.side_locked("T", BookSide::Ask));
    s.register_pending("c2", "T", BookSide::Ask, m(0.42), m(1.0), 2000);
    s.on_place_ack("c2", "o2", 2001);
    s.on_cancel_sent("o2", 2100);
    s.on_cancel_outcome("o2", Some(CancelOutcome::Gone), 2200);
    assert_eq!(s.order("o2").unwrap().status, OrderStatus::Unknown);
    assert!(s.side_locked("T", BookSide::Ask));
    let ev = s.on_order_msg(&msg("o2", "c2", "executed", 1.0, 1.0, 2300), false);
    assert!(ev.iter().any(|e| matches!(e, OmsEvent::Resolved(_))));
    assert_eq!(s.order("o2").unwrap().status, OrderStatus::Executed);
    assert!(!s.side_locked("T", BookSide::Ask));
    s.register_pending("c3", "T", BookSide::Bid, m(0.42), m(1.0), 3000);
    s.on_place_ack("c3", "o3", 3001);
    s.on_cancel_sent("o3", 3100);
    s.on_cancel_outcome("o3", None, 3200);
    assert_eq!(s.order("o3").unwrap().status, OrderStatus::Unknown);
}

#[test]
fn rest_sync_marks_vanished_orders_unknown_after_grace() {
    let mut s = OmsState::default();
    s.register_pending("c1", "T", BookSide::Bid, m(0.42), m(5.0), 1000);
    s.on_place_ack("c1", "o1", 1001);
    s.on_rest_orders(&vec![], 2000, 2000);
    assert_eq!(s.order("o1").unwrap().status, OrderStatus::Resting);
    let ev = s.on_rest_orders(&vec![], 4000, 2000);
    assert!(ev.iter().any(|e| matches!(e, OmsEvent::Unknown { .. })));
    assert_eq!(s.order("o1").unwrap().status, OrderStatus::Unknown);
    assert_eq!(s.unknown_ids(), vec!["o1".to_string()]);
    s.on_order_msg(&msg("x9", "", "resting", 1.0, 0.0, 5000), false);
    assert!(!s.side_locked("T", BookSide::Ask));
    assert!(s.resting("T").is_empty());
}

#[test]
fn position_poll_wins_and_fills_readd() {
    let mut s = OmsState::default();
    s.on_fill(&fill_rec("f1", "", BookSide::Bid, 2.0, 1000));
    assert_eq!(s.position("T", 1000).est, m(2.0));
    s.on_rest_positions(&vec![("T".into(), m(1.5))], 1500);
    let p = s.position("T", 1600);
    assert_eq!(p.auth, m(1.5));
    assert_eq!(p.est, m(1.5));
    assert_eq!(p.auth_age_ms, 100);
    s.on_fill(&fill_rec("f2", "", BookSide::Ask, 0.5, 1700));
    assert_eq!(s.position("T", 1700).est, m(1.0));
    s.on_rest_positions(&vec![], 2000);
    assert_eq!(s.position("T", 2000).auth, 0);
    s.on_position("T", m(9.0), 1900);
    assert_eq!(s.position("T", 2000).auth, 0);
}

#[test]
fn book_side_parsing_and_sign() {
    assert_eq!(BookSide::parse(Some("bid"), None, None), Some(BookSide::Bid));
    assert_eq!(BookSide::parse(None, Some("no"), Some("buy")), Some(BookSide::Ask));
    assert_eq!(BookSide::parse(None, Some("no"), Some("sell")), Some(BookSide::Bid));
    assert_eq!(BookSide::parse(None, Some("yes"), Some("sell")), Some(BookSide::Ask));
    assert_eq!(BookSide::Ask.signed(m(3.0)), m(-3.0) as i128);
}

#[test]
fn action_budget() {
    let mut s = OmsState::default();
    assert!(s.action_ok(0, m(2.0)));
    assert!(s.action_ok(10, m(2.0)));
    assert!(!s.action_ok(20, m(2.0)));
    assert!(s.action_ok(1100, m(2.0)));
}

#[test]
fn orders_are_refused_while_their_side_is_locked_or_the_budget_is_spent() {
    let mut s = OmsState::default();
    assert!(s.begin_place("c1", "T", BookSide::Bid, m(0.42), m(1.0), 0, m(2.0)).is_ok());
    assert!(matches!(
        s.begin_place("c2", "T", BookSide::Bid, m(0.42), m(1.0), 1, m(2.0)),
        Err(PlaceError::SideLocked)
    ));
    assert!(s.begin_place("c3", "T", BookSide::Ask, m(0.42), m(1.0), 2, m(2.0)).is_ok());
    assert!(matches!(
        s.begin_place("c4", "U", BookSide::Ask, m(0.42), m(1.0), 3, m(2.0)),
        Err(PlaceError::Budget)
    ));
    assert!(s.on_place_reject("c1", true, 4).is_empty());
    assert_eq!(s.on_place_reject("c3", false, 4).len(), 1);
    assert!(!s.side_locked("T", BookSide::Bid));
    assert!(!s.begin_cancel("o-none", 5, m(2.0)));
    assert!(is_definite("kalshi post-only 400: bad request"));
    assert!(!is_definite("timed out"));
    let h = s.health(10);
    assert!(!h.ws_up);
    s.set_ws(true);
    s.touch_ws(10);
    assert_eq!(s.health(12).ws_age_ms, 2);
    s.gc(10_000_000, 1);
    assert_eq!(s.resting_count(), 0);
}

#[test]
fn parses_documented_ws_fill() {
    let v = read(r#"{"type":"fill","sid":13,"msg":{"trade_id":"d91bc706","order_id":"ee587a1c","client_order_id":"my-order-1",
            "market_ticker":"HIGHNY-22DEC23-B53.5","is_taker":true,"side":"yes","yes_price_dollars":"0.7500","count_fp":"278.00","fee_cost":"0.010000",
            "action":"buy","ts":1671899397,"ts_ms":1671899397000,"post_position_fp":"500.00","purchased_side":"yes","book_side":"bid"}}"#);
    let f = parse_fill(v.get("msg").unwrap()).unwrap();
    assert_eq!(f.fill_id, "d91bc706");
    assert_eq!(f.side, BookSide::Bid);
    assert_eq!(f.count, m(278.0));
    assert_eq!(f.yes_price, m(0.75));
    assert!(f.is_taker);
    assert_eq!(f.ts_ms, 1671899397000);
}

#[test]
fn parses_documented_ws_order_and_rest_order() {
    let v = read(r#"{"order_id":"o-1","user_id":"u","ticker":"KXBTC15M-X","status":"resting","side":"no","book_side":"ask",
            "yes_price_dollars":"0.4200","initial_count_fp":"5.00","fill_count_fp":"2.00","remaining_count_fp":"3.00","client_order_id":"c-1",
            "created_ts_ms":1700000000000,"last_updated_ts_ms":1700000001000}"#);
    let o = parse_order(&v).unwrap();
    assert_eq!(o.side, BookSide::Ask);
    assert_eq!((o.initial, o.filled, o.remaining), (m(5.0), m(2.0), m(3.0)));
    assert_eq!(o.updated_ms, 1700000001000);
    assert_eq!(o.client_id, "c-1");
    let r = read(r#"{"order_id":"o-2","ticker":"T","status":"executed","side":"yes","action":"buy","yes_price":42,
            "initial_count":"1.00","fill_count":"1.00","remaining_count":"0.00","last_update_time":"2026-09-11T00:00:01Z"}"#);
    let o = parse_order(&r).unwrap();
    assert_eq!(o.side, BookSide::Bid);
    assert_eq!(o.yes_price, m(0.42));
    assert_eq!(o.remaining, 0);
    assert!(o.updated_ms > 1_700_000_000_000);
}

#[test]
fn parses_documented_position() {
    let v = read(r#"{"type":"market_position","sid":14,"msg":{"user_id":"u","market_ticker":"FED-23DEC-T3.00","position_fp":"-12.50","volume_fp":"40.00"}}"#);
    let (t, p) = parse_position(v.get("msg").unwrap()).unwrap();
    assert_eq!(t, "FED-23DEC-T3.00");
    assert_eq!(p, m(-12.5));
}

#[test]
fn feed_frames_reach_the_order_state() {
    let mut s = OmsState::default();
    let v = read(r#"{"type":"fill","msg":{"trade_id":"d1","order_id":"o1","market_ticker":"T","yes_price_dollars":"0.75","count_fp":"2.00","ts_ms":5,"book_side":"bid"}}"#);
    let ev = route(&mut s, &v, 6);
    assert!(ev.iter().any(|e| matches!(e, OmsEvent::Fill(_))));
    assert_eq!(s.position("T", 6).est, m(2.0));
    assert!(route(&mut s, &read(r#"{"type":"other"}"#), 7).is_empty());
    let page = read(r#"{"orders":[{"order_id":"o-2","ticker":"T","status":"resting","side":"yes","action":"buy","yes_price":42,"initial_count":"1.00","fill_count":"0","remaining_count":"1"}],"cursor":"next"}"#);
    let (rows, cursor) = parse_orders_page(&page);
    assert_eq!((rows.len(), cursor.as_str()), (1, "next"));
    let pos = read(r#"{"market_positions":[{"ticker":"T","position_fp":"2"}]}"#);
    assert_eq!(parse_positions(&pos), vec![("T".to_string(), m(2.0))]);
    assert!(fills_since(0, 100_000_000) > 0);
}

// ---- positions --------------------------------------------------------------------------

fn fill(inst: &str, side: Side, qty: f64, px: f64, vtid: &str, status: FillStatus) -> Fill {
    Fill {
        venue_trade_id: vtid.into(),
        order_id: "o".into(),
        client_id: "t-1:E:0".into(),
        instrument: inst.into(),
        status,
        side,
        qty: m(qty),
        px: m(px),
        fee: 0,
        ts_ns: 0,
    }
}

#[test]
fn buy_then_sell_realizes_pnl_and_flattens() {
    let inst = "polymarket.0xabc.UP";
    let mut pm = PositionManager::new(money(1000.0));
    pm.apply_fill(&fill(inst, Side::Buy, 20.0, 0.40, "v1", FillStatus::Confirmed)).unwrap();
    assert_eq!(pm.qty(inst), m(20.0));
    assert_eq!(pm.cash(), money(1000.0 - 8.0));
    pm.apply_fill(&fill(inst, Side::Sell, 20.0, 0.45, "v2", FillStatus::Confirmed)).unwrap();
    assert_eq!(pm.qty(inst), 0);
    let p = pm.position(inst).unwrap();
    assert_eq!(p.realized_pnl, money(1.0));
    assert_eq!(pm.cash(), money(1001.0));
}

#[test]
fn apply_fill_is_idempotent_on_venue_trade_id() {
    let inst = "polymarket.0xabc.UP";
    let mut pm = PositionManager::new(money(1000.0));
    let f = fill(inst, Side::Buy, 20.0, 0.40, "v1", FillStatus::Confirmed);
    pm.apply_fill(&f).unwrap();
    pm.apply_fill(&f).unwrap();
    assert_eq!(pm.qty(inst), m(20.0));
}

#[test]
fn matched_then_failed_reverses() {
    let inst = "polymarket.0xabc.UP";
    let mut pm = PositionManager::new(money(1000.0));
    pm.apply_fill(&fill(inst, Side::Buy, 20.0, 0.40, "v1", FillStatus::Matched)).unwrap();
    assert_eq!(pm.qty(inst), m(20.0));
    pm.apply_fill(&fill(inst, Side::Buy, 20.0, 0.40, "v1", FillStatus::Failed)).unwrap();
    assert_eq!(pm.qty(inst), 0);
    assert_eq!(pm.cash(), money(1000.0));
}

#[test]
fn oversell_violates_long_only() {
    let inst = "polymarket.0xabc.UP";
    let mut pm = PositionManager::new(money(1000.0));
    pm.apply_fill(&fill(inst, Side::Buy, 10.0, 0.40, "v1", FillStatus::Confirmed)).unwrap();
    let err = pm.apply_fill(&fill(inst, Side::Sell, 20.0, 0.45, "v2", FillStatus::Confirmed));
    assert_eq!(err.unwrap_err(), FillError::Oversold { qty: m(20.0), held: m(10.0) });
}

#[test]
fn fills_that_no_amount_can_hold_are_refused() {
    let mut pm = PositionManager::new(0);
    let mut f = fill("x", Side::Buy, 1.0, 0.40, "v1", FillStatus::Confirmed);
    f.qty = 1_125_899_906_842_625;
    pm.apply_fill(&f).unwrap();
    assert_eq!(pm.qty("x"), 1_125_899_906_842_625);
    assert_eq!(pm.cash(), -(f.qty as i128 * m(0.40) as i128 * 1_000_000));
    f.venue_trade_id = "v2".into();
    f.qty = i64::MAX;
    assert_eq!(pm.apply_fill(&f).unwrap_err(), FillError::TooLarge);
    f.qty = m(1.0);
    f.px = i64::MAX;
    pm.apply_fill(&f).unwrap();
    f.venue_trade_id = "v3".into();
    f.qty = 1_125_899_906_842_625;
    assert_eq!(pm.apply_fill(&f).unwrap_err(), FillError::TooLarge);
    assert_eq!(PositionManager::new(i128::MIN).cash(), i128::MIN);
}

#[test]
fn one_trade_gate_and_cooldown() {
    let mut pm = PositionManager::new(money(1000.0));
    assert!(pm.try_begin_trade("t-1", 0));
    assert!(!pm.try_begin_trade("t-2", 0));
    pm.end_trade(0, 2000);
    assert!(!pm.try_begin_trade("t-3", 1_000_000_000));
    assert!(pm.try_begin_trade("t-3", 2_000_000_000));
}

#[test]
fn settlement_pays_winner() {
    let inst = "polymarket.0xabc.UP";
    let mut pm = PositionManager::new(money(1000.0));
    pm.apply_fill(&fill(inst, Side::Buy, 20.0, 0.40, "v1", FillStatus::Confirmed)).unwrap();
    pm.settle(inst, inst);
    assert_eq!(pm.qty(inst), 0);
    assert_eq!(pm.cash(), money(1000.0 - 8.0 + 20.0));
}

#[test]
fn marks_and_snapshots_follow_the_holding() {
    let inst = "polymarket.0xabc.UP";
    let mut pm = PositionManager::new(money(1000.0));
    pm.apply_fill(&fill(inst, Side::Buy, 20.0, 0.40, "v1", FillStatus::Confirmed)).unwrap();
    pm.mark(inst, m(0.45));
    pm.set_status(inst, PosStatus::PendingResolution);
    let s = pm.snapshot(inst).unwrap();
    assert_eq!(s.upnl, money(1.0));
    assert_eq!(s.status, PosStatus::PendingResolution.as_str());
    assert!(pm.snapshot("other").is_none());
    assert_eq!(pm.active_trade(), None);
    assert_eq!(pm.daily().n_trades, 0);
}

// ---- risk -------------------------------------------------------------------------------

fn proposal() -> Proposal {
    Proposal {
        signal_ts_ns: 0,
        signal_ttl_ms: 1_000,
        book: BookTop {
            best_bid: m(0.40),
            bid_sz: m(10.0),
            best_ask: m(0.42),
            ask_sz: m(10.0),
            recv_ts_ns: 0,
        },
        tte_ms: Some(60_000),
        now_ns: 0,
        size: m(20.0),
        price: m(0.42),
    }
}

#[test]
fn each_limit_has_its_own_refusal() {
    let mut g = RiskGate::new(RiskCfg::default());
    assert!(g.check(&proposal()).is_ok());
    let mut p = proposal();
    p.now_ns = 2_000 * MS;
    assert_eq!(g.check(&p).unwrap_err(), RiskReject::StaleBook { age_ms: 2_000 });
    p = proposal();
    p.book.best_ask = m(0.99);
    p.book.best_bid = m(0.98);
    p.price = m(0.99);
    assert_eq!(g.check(&p).unwrap_err(), RiskReject::OutsideBucket { ask: m(0.99) });
    p = proposal();
    p.tte_ms = Some(10_000);
    assert_eq!(g.check(&p).unwrap_err(), RiskReject::NearExpiry { tte_ms: 10_000 });
    p.tte_ms = None;
    assert_eq!(g.check(&p).unwrap_err(), RiskReject::NoExpiry);
    p = proposal();
    p.now_ns = 1_200 * MS;
    assert_eq!(g.check(&p).unwrap_err(), RiskReject::StaleSignal { age_ms: 1_200 });
    p = proposal();
    p.size = m(100.0);
    assert_eq!(g.check(&p).unwrap_err(), RiskReject::Notional { cost: m(42.0) });
    for _ in 0..6 {
        g.note_trade(0);
    }
    assert_eq!(g.check(&proposal()).unwrap_err(), RiskReject::RateLimit);
    assert!(g.trip());
    assert!(!g.trip());
    assert_eq!(g.check(&proposal()).unwrap_err(), RiskReject::KillSwitch);
    g.resume();
    assert!(!g.killed());
}

// ---- the simulated venue ----------------------------------------------------------------

fn sim(force: bool) -> SimVenue {
    SimVenue::new(0, force, 30_000, 5)
}

fn sim_params(fee_rate: f64) -> MarketParams {
    MarketParams { min_order_size: m(5.0), tick_size: m(0.01), fee_rate: m(fee_rate) }
}

fn intent(side: Side, price: f64, size: f64) -> OrderIntent {
    intent_fee(side, price, size, 0.0)
}

fn intent_fee(side: Side, price: f64, size: f64, fee_rate: f64) -> OrderIntent {
    OrderIntent {
        client_id: "t-1:E:0".into(),
        instrument: "polymarket.0xabc.UP".into(),
        token_id: "tok".into(),
        side,
        price: m(price),
        size: m(size),
        kind: IntentKind::TakeNow,
        params: sim_params(fee_rate),
        expiry_ns: i64::MAX,
    }
}

fn depth(bids: &[(f64, f64)], asks: &[(f64, f64)]) -> BookDepth {
    BookDepth {
        bids: bids.iter().map(|&(p, q)| (m(p), m(q))).collect(),
        asks: asks.iter().map(|&(p, q)| (m(p), m(q))).collect(),
        recv_ts_ns: 0,
    }
}

fn book() -> BookDepth {
    depth(&[(0.40, 50.0)], &[(0.42, 30.0)])
}

fn fills_of(o: VenueOutcome) -> Vec<Fill> {
    match o {
        VenueOutcome::Acked { fills, .. } => fills,
        VenueOutcome::Rejected(why) => panic!("{}", why),
    }
}

#[test]
fn buy_fills_at_ask_capped_by_depth() {
    let mut v = sim(false);
    let fills = fills_of(v.submit(&intent(Side::Buy, 0.42, 20.0), Some(&book()), 0));
    assert_eq!(fills.len(), 1);
    assert_eq!(fills[0].px, m(0.42));
    assert_eq!(fills[0].qty, m(20.0));
}

#[test]
fn buy_above_cap_does_not_fill() {
    let mut v = sim(false);
    assert!(fills_of(v.submit(&intent(Side::Buy, 0.41, 20.0), Some(&book()), 0)).is_empty());
}

#[test]
fn sell_fills_at_bid() {
    let mut v = sim(false);
    let fills = fills_of(v.submit(&intent(Side::Sell, 0.40, 20.0), Some(&book()), 0));
    assert_eq!(fills[0].px, m(0.40));
}

#[test]
fn fill_uses_post_delay_book() {
    let moved = depth(&[(0.43, 50.0)], &[(0.45, 30.0)]);
    let mut v = sim(false);
    assert!(fills_of(v.submit(&intent(Side::Buy, 0.42, 20.0), Some(&moved), 0)).is_empty());
}

#[test]
fn sweep_fills_multiple_bid_levels() {
    let deep = depth(&[(0.40, 10.0), (0.39, 10.0), (0.38, 10.0)], &[(0.42, 30.0)]);
    let mut v = sim(false);
    let fills = fills_of(v.submit(&intent(Side::Sell, 0.01, 25.0), Some(&deep), 0));
    assert_eq!(fills[0].qty, m(25.0));
    assert_eq!(fills[0].px, m(0.392));
}

#[test]
fn submit_is_book_only_no_fabricated_liquidity() {
    let thin = depth(&[(0.40, 10.0), (0.39, 5.0)], &[(0.42, 30.0)]);
    let mut v = sim(true);
    let fills = fills_of(v.submit(&intent(Side::Sell, 0.01, 25.0), Some(&thin), 0));
    assert_eq!(fills[0].qty, m(15.0));
}

#[test]
fn submit_tracks_net_position() {
    let mut v = sim(false);
    let inst = "polymarket.0xabc.UP";
    v.submit(&intent(Side::Buy, 0.42, 20.0), Some(&book()), 0);
    assert_eq!(v.net_qty(inst), m(20.0));
    v.submit(&intent(Side::Sell, 0.40, 4.0), Some(&book()), 0);
    assert_eq!(v.net_qty(inst), m(20.0));
    v.submit(&intent(Side::Sell, 0.40, 6.0), Some(&book()), 0);
    assert_eq!(v.net_qty(inst), m(14.0));
}

#[test]
fn liquidator_sells_residual_at_bid_near_expiry() {
    let bk = depth(&[(0.40, 5.0)], &[(0.42, 50.0)]);
    let mut v = sim(true);
    let mut it = intent(Side::Buy, 0.42, 20.0);
    it.expiry_ns = 1;
    v.submit(&it, Some(&bk), 0);
    assert_eq!(v.net_qty(&it.instrument), m(20.0));
    assert_eq!(v.liquidator_every_ms(), Some(5));
    let due = v.due(10);
    assert_eq!(due, vec![it.instrument.clone()]);
    let fill = v.liquidate(&due[0], m(0.40), 10).unwrap();
    assert!(matches!(fill.side, Side::Sell));
    assert_eq!(fill.qty, m(20.0));
    assert_eq!(fill.px, m(0.40), "sold at best bid");
    assert!(v.due(10).is_empty());
}

#[test]
fn liquidator_skips_when_normal_exit_already_flat() {
    let bk = depth(&[(0.40, 50.0)], &[(0.42, 50.0)]);
    let mut v = sim(true);
    let mut buy = intent(Side::Buy, 0.42, 20.0);
    buy.expiry_ns = 1;
    v.submit(&buy, Some(&bk), 0);
    let mut sell = intent(Side::Sell, 0.40, 20.0);
    sell.expiry_ns = 1;
    v.submit(&sell, Some(&bk), 0);
    assert_eq!(v.net_qty(&buy.instrument), 0, "normal exit flattened the net");
    assert!(v.due(60 * MS).is_empty());
    assert!(v.liquidate(&buy.instrument, m(0.40), 60 * MS).is_none());
}

#[test]
fn sweep_sell_walks_the_book_with_slippage() {
    let bids = depth(&[(0.40, 10.0), (0.39, 10.0), (0.38, 10.0)], &[]).bids;
    let (q, vwap) = sweep_sell(&bids, m(25.0), 0);
    assert_eq!(q, m(25.0));
    assert_eq!(vwap, m(0.392));
    let (q2, _) = sweep_sell(&bids, m(40.0), 0);
    assert_eq!(q2, m(30.0));
}

#[test]
fn crypto_fee_matches_polymarket_formula() {
    let mut v = sim(false);
    let fills = fills_of(v.submit(&intent_fee(Side::Sell, 0.40, 20.0, 0.07), Some(&book()), 0));
    assert_eq!(fills[0].fee, m(0.336));
    assert_eq!(fee_usdc(m(0.07), m(0.40), m(20.0)), m(0.336));
}

#[test]
fn the_simulated_venue_says_why_it_refuses() {
    let mut v = sim(false);
    assert_eq!(v.check(&intent(Side::Buy, 0.4, 1.0)), Some(SimReject::Size));
    let mut c = intent(Side::Buy, 0.4, 10.0);
    c.kind = IntentKind::Cancel;
    assert_eq!(v.check(&c), Some(SimReject::Kind));
    assert!(matches!(v.submit(&c, Some(&book()), 0), VenueOutcome::Rejected(_)));
    assert!(sim(false).liquidator_every_ms().is_none());
}

// ---- the Kalshi venue -------------------------------------------------------------------

fn k_intent(inst: &str, side: Side, price: f64, size: f64) -> OrderIntent {
    OrderIntent {
        client_id: "t-1:E:0".into(),
        instrument: inst.into(),
        token_id: String::new(),
        side,
        price: m(price),
        size: m(size),
        kind: IntentKind::TakeNow,
        params: params(),
        expiry_ns: i64::MAX,
    }
}

#[test]
fn yes_buy_is_bid_ceil() {
    let k = map_order(&k_intent("kalshi.KXBTC15M-1.YES", Side::Buy, 0.621, 20.0), true);
    assert_eq!(k.side, "bid");
    assert_eq!(k.cents, 63, "buy YES rounds up to cross");
}

#[test]
fn no_buy_is_ask_complement() {
    let k = map_order(&k_intent("kalshi.KXBTC15M-1.NO", Side::Buy, 0.40, 20.0), true);
    assert_eq!(k.side, "ask");
    assert_eq!(k.cents, 60);
}

#[test]
fn yes_sell_is_ask_floor() {
    let k = map_order(&k_intent("kalshi.KXBTC15M-1.YES", Side::Sell, 0.589, 20.0), true);
    assert_eq!(k.side, "ask");
    assert_eq!(k.cents, 58, "sell YES rounds down");
}

#[test]
fn no_sell_is_bid_complement() {
    let k = map_order(&k_intent("kalshi.KXBTC15M-1.NO", Side::Sell, 0.40, 20.0), true);
    assert_eq!(k.side, "bid");
    assert_eq!(k.cents, 60);
}

#[test]
fn clamps_into_1_99() {
    assert_eq!(map_order(&k_intent("kalshi.X.YES", Side::Buy, 0.005, 5.0), true).cents, 1);
    assert_eq!(map_order(&k_intent("kalshi.X.YES", Side::Sell, 0.999, 5.0), true).cents, 99);
}

#[test]
fn post_only_no_sell_is_bid_floor() {
    let k = map_order(&k_intent("kalshi.KXBTC15M-1.NO", Side::Sell, 0.685, 20.0), false);
    assert_eq!(k.side, "bid");
    assert_eq!(k.cents, 31, "post-only bid floors: never crosses");
    let k = map_order(&k_intent("kalshi.KXBTC15M-1.NO", Side::Sell, 0.685, 20.0), true);
    assert_eq!(k.cents, 32);
}

#[test]
fn post_only_yes_sell_is_ask_ceil() {
    let k = map_order(&k_intent("kalshi.KXBTC15M-1.YES", Side::Sell, 0.582, 20.0), false);
    assert_eq!(k.side, "ask");
    assert_eq!(k.cents, 59, "post-only ask ceils: never crosses");
}

#[test]
fn post_only_integer_cent_is_at_touch() {
    let k = map_order(&k_intent("kalshi.KXBTC15M-1.NO", Side::Sell, 0.68, 20.0), false);
    assert_eq!(k.side, "bid");
    assert_eq!(k.cents, 32, "1-0.68=0.32 -> 32c exactly, at the passive touch");
}

#[test]
fn kalshi_requests_and_replies() {
    let it = k_intent("kalshi.KX-1.YES", Side::Buy, 0.50, 2.0);
    let req = ioc_request(&it, m(100.0)).unwrap();
    assert_eq!(json::str_field(&req, "ticker"), Some("KX-1"));
    assert_eq!(ioc_request(&it, m(0.5)).unwrap_err(), OrderReject::TooLarge);
    assert_eq!(
        ioc_request(&k_intent("kalshi.KX-1.YES", Side::Buy, 0.50, 0.001), m(100.0)).unwrap_err(),
        OrderReject::TooSmall
    );
    assert_eq!(
        ioc_request(&k_intent("nowhere", Side::Buy, 0.50, 2.0), m(100.0)).unwrap_err(),
        OrderReject::NoTicker
    );
    assert_eq!(rest_request(&k_intent("kalshi.KX-1.YES", Side::Buy, 0.50, 0.001)).unwrap_err(), OrderReject::TooSmall);
    let mut cancel = k_intent("kalshi.KX-1.YES", Side::Buy, 0.50, 2.0);
    cancel.kind = IntentKind::Cancel;
    assert_eq!(ioc_request(&cancel, m(100.0)).unwrap_err(), OrderReject::Kind);
    let mut resting = k_intent("kalshi.KX-1.YES", Side::Buy, 0.50, 2.0);
    resting.kind = IntentKind::RestUntil { expiry_ns: 5 };
    assert!(rest_request(&resting).is_ok());
    assert!(!reject_text(OrderReject::TooSmall, &it, m(1.0)).is_empty());
    let reply = read(r#"{"order_id":"o-9","fill_count":"2.00","average_fill_price":"0.50","average_fee_paid":"0.01"}"#);
    assert_eq!(extract_order_id(&reply).unwrap(), "o-9");
    assert_eq!(extract_fill_count(&reply), m(2.0));
    let fills = fills_of(ioc_outcome(&it, &reply, 7).unwrap());
    assert_eq!((fills.len(), fills[0].qty), (1, m(2.0)));
    let listed = |s: &str| ioc_outcome(&it, &read(s), 7).map(fills_of);
    assert_eq!(listed(r#"["o-9","2.00","0.50"]"#).unwrap()[0].qty, m(2.0));
    assert!(listed(r#"["o-9"]"#).unwrap().is_empty());
    assert!(listed(r#"["o-9","2.00","0.50","0.01","x"]"#).is_none());
    assert!(listed(r#"{"fill_count":"2.00"}"#).is_none());
    assert!(listed(r#"{"order_id":"o-9","fill_count":2}"#).is_none());
    assert_ne!(base_of("mainnet"), base_of("testnet"));
    assert!(cancel_path("o-9").contains("o-9"));
}

// ---- the venues' names ------------------------------------------------------------------

#[test]
fn resolves_venue_by_prefix() {
    assert_eq!(venue_of("polymarket.0xabc.UP").unwrap().prefix, "polymarket");
    assert_eq!(venue_of("kalshi.KXBTC15M-240621-14C.YES").unwrap().prefix, "kalshi");
    assert!(venue_of("binance.usdt_perp.BTCUSDT").is_none());
    assert_eq!(by_name("kalshi").unwrap().taker_delay_ms, 0);
    assert_eq!(by_name("polymarket").unwrap().taker_delay_ms, 250);
    assert!(by_name("nope").is_none());
}

#[test]
fn market_id_parses_both_venues() {
    let id = |s: &str| market_id_of(s);
    assert_eq!(id("polymarket.0xabc.UP").as_deref(), Some("0xabc"));
    assert_eq!(id("polymarket.0xabc.DOWN").as_deref(), Some("0xabc"));
    assert_eq!(id("kalshi.KXBTC15M-240621-14C.YES").as_deref(), Some("KXBTC15M-240621-14C"));
    assert_eq!(id("kalshi.KXBTC15M-240621-14C.NO").as_deref(), Some("KXBTC15M-240621-14C"));
    assert_eq!(id("binance.usdt_perp.BTCUSDT"), None);
    assert_eq!(id("nope"), None);
}

#[test]
fn traded_instrument_maps_direction_per_venue() {
    assert_eq!(traded_instrument("polymarket.0xabc.UP", 1), "polymarket.0xabc.UP");
    assert_eq!(traded_instrument("polymarket.0xabc.UP", -1), "polymarket.0xabc.DOWN");
    assert_eq!(traded_instrument("kalshi.KXBTC15M-1.YES", 1), "kalshi.KXBTC15M-1.YES");
    assert_eq!(traded_instrument("kalshi.KXBTC15M-1.YES", -1), "kalshi.KXBTC15M-1.NO");
}

#[test]
fn complement_flips_either_side() {
    assert_eq!(complement("kalshi.KXBTC15M-1.YES"), "kalshi.KXBTC15M-1.NO");
    assert_eq!(complement("kalshi.KXBTC15M-1.NO"), "kalshi.KXBTC15M-1.YES");
    assert_eq!(complement("polymarket.0xabc.UP"), "polymarket.0xabc.DOWN");
    assert_eq!(complement("polymarket.0xabc.DOWN"), "polymarket.0xabc.UP");
    assert_eq!(complement("binance.usdt_perp.BTCUSDT"), "binance.usdt_perp.BTCUSDT");
}

// ---- the reconciler ---------------------------------------------------------------------

#[test]
fn a_holding_is_closed_by_buying_the_other_side() {
    let mut mir = ExecBookMirror::new();
    mir.on_event(&book_ev("kalshi.K.NO", 0.55, 0.57, 0));
    let mut slots = Slots::new();
    slots.recover("K", "kalshi.K.YES", m(2.0), params());
    let mut r = Reconciler::new("K", rc());
    let (a, _) = r.step(&mut slots, &mir, ReconEvent::Tick, 10);
    assert!(matches!(a, ReconAction::Poll));
    let (a, _) = r.step(&mut slots, &mir, ReconEvent::Position(Some(m(2.0))), 10);
    match a {
        ReconAction::Post(i) => {
            assert_eq!(i.instrument, "kalshi.K.NO");
            assert_eq!((i.price, i.size), (m(0.55), m(2.0)));
        },
        _ => panic!("no close posted"),
    }
    r.step(&mut slots, &mir, ReconEvent::Posted(Some("o1".into())), 11);
    assert_eq!(slots.get("K").unwrap().resting.as_ref().unwrap().order_id, "o1");
    // flat now: the close is canceled, and what it filled is accounted for
    r.step(&mut slots, &mir, ReconEvent::Tick, 20);
    let (a, _) = r.step(&mut slots, &mir, ReconEvent::Position(Some(0)), 20);
    assert!(matches!(a, ReconAction::Cancel(_)));
    let (a, _) = r.step(&mut slots, &mir, ReconEvent::Cancel(CancelReply::Gone), 21);
    assert!(matches!(a, ReconAction::Wait));
    let (a, _) = r.step(&mut slots, &mir, ReconEvent::Waited, 22);
    assert!(matches!(a, ReconAction::CountFills(_)));
    let (a, f) = r.step(&mut slots, &mir, ReconEvent::FillCount(Some(m(2.0))), 23);
    let f = f.unwrap();
    assert!(matches!(a, ReconAction::Stop));
    assert_eq!((f.instrument.as_str(), f.px, f.qty), ("kalshi.K.YES", m(0.45), m(2.0)));
    assert!(slots.get("K").unwrap().resting.is_none());
    assert!(!slots.get("K").unwrap().reconciler_alive);
}

#[test]
fn a_failed_cancel_keeps_the_reference() {
    let mir = ExecBookMirror::new();
    let mut slots = Slots::new();
    slots.recover("K", "kalshi.K.YES", m(2.0), params());
    let rest = RestingClose {
        order_id: "o1".into(),
        instrument: "kalshi.K.NO".into(),
        px: m(0.55),
        count: m(2.0),
    };
    slots.restore("K", rest);
    let mut r = Reconciler::new("K", rc());
    r.step(&mut slots, &mir, ReconEvent::Tick, 0);
    r.step(&mut slots, &mir, ReconEvent::Position(Some(0)), 0);
    let (a, f) = r.step(&mut slots, &mir, ReconEvent::Cancel(CancelReply::Failed), 1);
    assert!(matches!(a, ReconAction::Sleep) && f.is_none());
    assert!(slots.get("K").unwrap().resting.is_some());
}

// ---- the engine -------------------------------------------------------------------------

const UP: &str = "polymarket.0xabc.UP";

fn signal(ts_ns: i64) -> TradeSignal {
    TradeSignal {
        strategy: "perp_move".into(),
        ts_ns,
        reference: "binance.usdt_perp.BTCUSDT".into(),
        target: UP.into(),
        direction: 1,
        trigger: Trigger { move_bps: m(3.5), window_ms: 1_000, yes_price: m(0.82), target_move_c: None },
        hold_ms: 1_000,
        ttl_ms: 1_000,
        reason: "a move".into(),
    }
}

fn mirror() -> ExecBookMirror {
    let mut mir = ExecBookMirror::new();
    mir.on_event(&book_ev(UP, 0.40, 0.42, 1_000));
    mir.on_event(&meta_ev(UP, 300_000_000_000));
    mir
}

fn notes(outs: &[Out]) -> Vec<&'static str> {
    outs.iter()
        .filter_map(|o| match o {
            Out::Report { note, .. } => Some(note.state()),
            _ => None,
        })
        .collect()
}

#[test]
fn a_trade_is_entered_held_and_left() {
    let mir = mirror();
    let mut e = Engine::new(ExecutorCfg::default());
    let mut slots = Slots::new();
    let mut venue = sim(false);
    let mut outs = Vec::new();
    assert!(e.is_ready());
    let a = e.on_signal(&mut slots, &mir, &signal(1_000), false, 2_000, &mut outs);
    let i = match a {
        Action::Submit(i) => i,
        _ => panic!("no entry: {:?}", notes(&outs)),
    };
    assert_eq!((i.instrument.as_str(), i.price, i.size), (UP, m(0.42), m(20.0)));
    let o = venue.submit(&i, mir.depth(UP).as_ref(), 3_000);
    let a = e.on_outcome(&mut slots, o, 3_000, &mut outs);
    let until = match a {
        Action::SleepUntil { ns } => ns,
        Action::Sleep { ms } => 3_000 + ms as i64 * MS,
        _ => panic!("not holding: {:?}", notes(&outs)),
    };
    assert_eq!(e.qty(UP), m(20.0));
    let a = e.on_wake(&mut slots, &mir, until, &mut outs);
    let i = match a {
        Action::Submit(i) => i,
        _ => panic!("no exit: {:?}", notes(&outs)),
    };
    assert!(matches!(i.side, Side::Sell));
    assert_eq!(i.size, m(20.0));
    let o = venue.submit(&i, mir.depth(UP).as_ref(), until);
    let mut a = e.on_outcome(&mut slots, o, until, &mut outs);
    if let Action::Sleep { ms } = a {
        a = e.on_wake(&mut slots, &mir, until + ms as i64 * MS, &mut outs);
    }
    assert!(matches!(a, Action::Done), "{:?} {:?}", a, notes(&outs));
    assert!(e.is_ready());
    assert_eq!(e.qty(UP), 0);
    assert!(outs.iter().any(|o| matches!(o, Out::Trade(_))));
}

#[test]
fn refused_signals_are_reported_and_leave_the_engine_ready() {
    let mir = mirror();
    let mut slots = Slots::new();
    let mut outs = Vec::new();
    let mut e = Engine::new(ExecutorCfg::default());
    assert!(matches!(
        e.on_signal(&mut slots, &mir, &signal(1_000), true, 2_000, &mut outs),
        Action::Done
    ));
    match &outs[0] {
        Out::Report { note: Note::Rejected(Reject::BalanceKill), .. } => {},
        o => panic!("{:?}", o),
    }
    let empty = ExecBookMirror::new();
    let mut outs = Vec::new();
    e.on_signal(&mut slots, &empty, &signal(1_000), false, 2_000, &mut outs);
    assert!(matches!(&outs[0], Out::Report { note: Note::Rejected(Reject::NoBook), .. }));
    let mut cfg = ExecutorCfg::default();
    cfg.sizing.size_shares = m(1.0);
    let mut small = Engine::new(cfg);
    let mut outs = Vec::new();
    small.on_signal(&mut slots, &mir, &signal(1_000), false, 2_000, &mut outs);
    assert!(matches!(&outs[0], Out::Report { note: Note::Rejected(Reject::TooSmall { .. }), .. }));
    let mut outs = Vec::new();
    e.on_signal(&mut slots, &mir, &signal(1_000), false, 5_000 * MS, &mut outs);
    assert!(matches!(
        &outs[0],
        Out::Report { note: Note::Rejected(Reject::Risk(RiskReject::StaleBook { .. })), .. }
    ));
    assert!(e.is_ready());
}

#[test]
fn a_dry_run_places_nothing() {
    let mir = mirror();
    let mut slots = Slots::new();
    let mut outs = Vec::new();
    let mut cfg = ExecutorCfg::default();
    cfg.dry_run = true;
    let mut e = Engine::new(cfg);
    let a = e.on_signal(&mut slots, &mir, &signal(1_000), false, 2_000, &mut outs);
    assert!(!matches!(a, Action::Submit(_)));
    assert!(e.is_ready());
    assert!(outs.iter().any(|o| matches!(o, Out::Report { note: Note::Shadow, .. })));
}

#[test]
fn an_unfilled_entry_is_abandoned() {
    let mir = mirror();
    let mut slots = Slots::new();
    let mut outs = Vec::new();
    let mut e = Engine::new(ExecutorCfg::default());
    let mut a = e.on_signal(&mut slots, &mir, &signal(1_000), false, 2_000, &mut outs);
    let mut now = 2_000;
    for _ in 0..10 {
        a = match a {
            Action::Submit(_) => {
                let o = VenueOutcome::Acked { order_id: "o".into(), fills: vec![] };
                e.on_outcome(&mut slots, o, now, &mut outs)
            },
            Action::Sleep { ms } => {
                now += ms as i64 * MS;
                e.on_wake(&mut slots, &mir, now, &mut outs)
            },
            Action::SleepUntil { ns } => {
                now = ns;
                e.on_wake(&mut slots, &mir, now, &mut outs)
            },
            other => other,
        };
    }
    assert!(matches!(a, Action::Done));
    assert!(e.is_ready());
    assert_eq!(e.qty(UP), 0);
    assert!(outs.iter().any(|o| matches!(o, Out::Report { note: Note::Abandoned, .. })));
}

#[test]
fn liquidations_and_settlements_reach_the_books() {
    let mir = mirror();
    let mut slots = Slots::new();
    let mut outs = Vec::new();
    let mut e = Engine::new(ExecutorCfg::default());
    let mut venue = sim(true);
    if let Action::Submit(i) = e.on_signal(&mut slots, &mir, &signal(1_000), false, 2_000, &mut outs) {
        let o = venue.submit(&i, mir.depth(UP).as_ref(), 3_000);
        e.on_outcome(&mut slots, o, 3_000, &mut outs);
    }
    assert_eq!(e.qty(UP), m(20.0));
    e.on_fill(&slots, &liq_fill(5.0, 0.1), &mut outs);
    assert_eq!(e.qty(UP), m(15.0));
    e.on_catalog(&slots, MarketStatus::Resolved, UP, Some(UP), 4_000, &mut outs);
    assert_eq!(e.qty(UP), 0);
}

// ---- the start ----------------------------------------------------------------------------

fn start_cfg(market: &str, adapter: &str, mode: &str) -> ExecutorCfg {
    let mut cfg = ExecutorCfg::default();
    cfg.venue.market = market.into();
    cfg.venue.adapter = adapter.into();
    cfg.exit.mode = mode.into();
    cfg
}

#[test]
fn the_start_follows_the_settings() {
    let s = startup(&start_cfg("kalshi", "kalshi", "reconcile")).unwrap();
    assert_eq!((s.adapter, s.reconcile, s.spec.prefix), (Adapter::Kalshi, true, "kalshi"));
    let s = startup(&start_cfg("nowhere", "sim", "taker")).unwrap();
    assert_eq!((s.adapter, s.reconcile, s.spec.prefix), (Adapter::Sim, false, "polymarket"));
    let e = startup(&start_cfg("kalshi", "paper", "maker")).unwrap_err();
    assert_eq!(e, StartError::Adapter);
    let e = startup(&start_cfg("kalshi", "sim", "maker")).unwrap_err();
    assert_eq!(e, StartError::MakerExit);
}

#[test]
fn a_low_balance_halts_for_good() {
    let floor = 100_000_000;
    assert!(!balance_halts(false, floor, floor));
    assert!(balance_halts(false, floor - 1, floor));
    assert!(balance_halts(true, floor, floor));
    assert!(!balance_halts(false, -1, 0));
}

#[test]
fn answers_of_the_account_are_read() {
    let v = json::parse(r#"{"order":{"reduced_by":3}}"#).unwrap();
    assert_eq!(extract_reduced(&v), Some(3_000_000));
    let v = json::parse(r#"{"reduced_by_fp":"2.50"}"#).unwrap();
    assert_eq!(extract_reduced(&v), Some(2_500_000));
    assert_eq!(extract_reduced(&Json::Null), None);
    let v = json::parse(r#"{"balance":12345}"#).unwrap();
    assert_eq!(extract_balance(&v), Some(123_450_000));
    assert_eq!(extract_balance(&Json::Null), None);
}

#[test]
fn refused_orders_say_why() {
    assert_eq!(
        PlaceError::SideLocked.text(),
        "side locked (order in pending/canceling/unknown)"
    );
    assert_eq!(PlaceError::Budget.text(), "action budget exhausted");
    assert_eq!(PlaceError::Rejected("x".into()).text(), "rejected: x");
    assert_eq!(PlaceError::Unknown("y".into()).text(), "unknown outcome: y");
}

// ---- entries beside a resting close -------------------------------------------------------

fn reconciling() -> (Engine, Slots) {
    let mut cfg = ExecutorCfg::default();
    cfg.exit.mode = "reconcile".into();
    cfg.risk.max_net_per_market = m(1_000.0);
    let mut slots = Slots::new();
    assert!(slots.recover("0xabc", UP, m(5.0), params()));
    slots.restore("0xabc", RestingClose {
        order_id: "o1".into(),
        instrument: "polymarket.0xabc.DOWN".into(),
        px: m(0.58),
        count: m(5.0),
    });
    (Engine::new(cfg), slots)
}

#[test]
fn a_resting_close_is_canceled_before_an_entry() {
    let mir = mirror();
    let (mut e, mut slots) = reconciling();
    let mut outs = Vec::new();
    let a = e.on_signal(&mut slots, &mir, &signal(1_000), false, 2_000, &mut outs);
    assert!(matches!(a, Action::Cancel(id) if id == "o1"));
    assert!(slots.get("0xabc").unwrap().resting.is_none());
    let reply = CancelReply::Canceled { reduced_by: m(3.0) };
    let a = e.on_cancel(&mut slots, &mir, reply, 2_500, &mut outs);
    let i = match a {
        Action::Submit(i) => i,
        _ => panic!("no entry: {:?}", notes(&outs)),
    };
    assert_eq!(slots.get("0xabc").unwrap().net_est, m(3.0));
    let o = sim(false).submit(&i, mir.depth(UP).as_ref(), 3_000);
    assert!(matches!(e.on_outcome(&mut slots, o, 3_000, &mut outs), Action::Done));
    let s = slots.get("0xabc").unwrap();
    assert_eq!(s.net_est, m(23.0));
    assert_eq!(s.state, TradeState::Filled { fill_ns: 3_000 });
    // its reconciler is there already
    assert!(!outs.iter().any(|o| matches!(o, Out::Spawn(_))));
    assert!(e.is_ready());
}

#[test]
fn an_entry_is_dropped_where_the_cancel_is_not_confirmed() {
    let mir = mirror();
    let (mut e, mut slots) = reconciling();
    let mut outs = Vec::new();
    e.on_signal(&mut slots, &mir, &signal(1_000), false, 2_000, &mut outs);
    let a = e.on_cancel(&mut slots, &mir, CancelReply::Failed, 2_500, &mut outs);
    assert!(matches!(a, Action::Done));
    assert!(matches!(
        outs.last(),
        Some(Out::Report { note: Note::Rejected(Reject::CancelFailed), .. })
    ));
    let s = slots.get("0xabc").unwrap();
    assert_eq!(s.state, TradeState::Rest);
    assert_eq!(s.resting.as_ref().unwrap().order_id, "o1");
}

#[test]
fn polls_catch_up_with_the_orders() {
    let mut s = OmsState::default();
    s.begin_place("c1", "T", BookSide::Bid, m(0.42), m(5.0), 1_000, 10).unwrap();
    s.on_place_ack("c1", "o1", 1_001);
    let f = vec![
        fill_rec("f1", "o1", BookSide::Bid, 1.0, 1_100),
        fill_rec("f1", "o1", BookSide::Bid, 1.0, 1_100),
        fill_rec("f2", "o1", BookSide::Bid, 2.0, 1_200),
    ];
    apply_fills(&mut s, &f);
    assert_eq!(s.order("o1").unwrap().filled, m(3.0));
    assert_eq!(s.last_fill_ms(), 1_200);
    let v = read(r#"{"order":{"order_id":"o1","ticker":"T","status":"executed","side":"yes","action":"buy","yes_price":42,"initial_count":"5","fill_count":"5","remaining_count":"0","last_updated_ts_ms":1300}}"#);
    apply_resolved(&mut s, &v);
    let o = s.order("o1").unwrap();
    assert_eq!((o.status, o.filled), (OrderStatus::Executed, m(5.0)));
    assert!(apply_resolved(&mut s, &Json::Null).is_empty());
    s.set_ws(true);
    s.touch_ws(1_400);
    let h = s.health(1_450);
    assert_eq!((h.ws_up, h.ws_age_ms, h.open_orders, h.unknown_orders), (true, 50, 0, 0));
    s.gc(1_000_000, 1_000);
    assert!(s.order("o1").is_none());
}

#[test]
fn polls_come_in_their_time() {
    assert_eq!(sync_due(10_000, 0, 0, 10_000), (true, false));
    assert_eq!(sync_due(9_999, 0, 0, 10_000), (false, false));
    assert_eq!((next_backoff(1), next_backoff(16), next_backoff(40)), (2, 32, 60));
    assert!(orders_query("").contains("status=resting"));
    assert!(orders_query("c9").ends_with("c9"));
    assert!(fills_query(7).contains("min_ts=7"));
}

// ---- orders over a run ------------------------------------------------------------------

#[test]
fn a_fill_that_comes_before_the_ack_is_kept() {
    let mut s = OmsState::default();
    s.register_pending("c1", "T", BookSide::Bid, m(0.42), m(5.0), 1000);
    s.on_fill(&fill_rec("f1", "o1", BookSide::Bid, 2.0, 1001));
    s.on_order_msg(&msg("o1", "", "resting", 5.0, 2.0, 1002), false);
    s.on_place_ack("c1", "o1", 1003);
    let o = s.order("o1").unwrap();
    assert_eq!((o.filled, o.fills_sum, o.remaining), (m(2.0), m(2.0), m(3.0)));
    assert_eq!((o.status, o.client_id.as_str()), (OrderStatus::Resting, "c1"));
    assert!(o.managed);
    assert!(s.order("pending:c1").is_none());
    s.on_fill(&fill_rec("f2", "o1", BookSide::Bid, 3.0, 1004));
    assert_eq!(s.order("o1").unwrap().status, OrderStatus::Executed);
    assert_eq!(s.position("T", 1005).est, m(5.0));
}

#[test]
fn an_order_that_was_filled_before_its_ack_is_over() {
    let mut s = OmsState::default();
    s.register_pending("c1", "T", BookSide::Bid, m(0.42), m(5.0), 1000);
    s.on_order_msg(&msg("o1", "", "executed", 5.0, 5.0, 1001), false);
    s.on_place_ack("c1", "o1", 1002);
    let o = s.order("o1").unwrap();
    assert_eq!((o.status, o.filled, o.remaining), (OrderStatus::Executed, m(5.0), 0));
    assert!(!s.side_locked("T", BookSide::Bid));
    assert!(s.resting("T").is_empty());
}

#[test]
fn no_second_sees_more_actions_than_its_budget() {
    let mut s = OmsState::default();
    let mut granted = Vec::new();
    for t in 0..400i64 {
        let now = t * 17;
        if s.action_ok(now, m(3.0)) {
            granted.push(now);
        }
    }
    assert!(granted.len() > 12);
    for &t in &granted {
        let seen = granted.iter().filter(|&&x| x <= t && t - x < 1000).count();
        assert!(seen <= 3, "{} actions in the second before {}", seen, t);
    }
}

#[test]
fn a_cancel_marks_the_order_and_takes_of_the_budget() {
    let mut s = OmsState::default();
    s.register_pending("c1", "T", BookSide::Bid, m(0.42), m(5.0), 1000);
    s.on_place_ack("c1", "o1", 1001);
    assert!(s.begin_cancel("o1", 1002, m(1.0)));
    assert_eq!(s.order("o1").unwrap().status, OrderStatus::Canceling);
    assert_eq!(s.order("o1").unwrap().updated_ms, 1002);
    assert!(!s.action_ok(1003, m(1.0)));
    assert!(!s.begin_cancel("o1", 1004, m(1.0)));
}

#[test]
fn positions_that_a_read_leaves_out_are_told_as_flat() {
    let mut s = OmsState::default();
    s.on_rest_positions(&vec![("T".into(), m(1.5)), ("U".into(), m(2.0))], 1500);
    let ev = s.on_rest_positions(&vec![("U".into(), m(2.5))], 2000);
    assert_eq!(ev.len(), 3);
    assert!(matches!(&ev[0], OmsEvent::Position { ticker, auth, .. } if ticker == "U" && *auth == m(2.5)));
    assert!(matches!(&ev[1], OmsEvent::Position { ticker, auth: 0, ts_ms: 2000 } if ticker == "T"));
    assert!(matches!(&ev[2], OmsEvent::Synced { .. }));
    assert_eq!(s.position("T", 2000).auth, 0);
}

#[test]
fn old_orders_are_forgotten_and_nothing_else() {
    let mut s = OmsState::default();
    s.register_pending("c1", "T", BookSide::Bid, m(0.42), m(1.0), 1000);
    s.on_place_ack("c1", "o1", 1001);
    s.on_fill(&fill_rec("f1", "o1", BookSide::Bid, 1.0, 1002));
    s.register_pending("c2", "T", BookSide::Bid, m(0.42), m(1.0), 1003);
    s.gc(100_000, 1_000);
    assert!(s.order("o1").is_none());
    assert!(s.order("pending:c2").is_some(), "an open order stays");
    assert_eq!(s.position("T", 100_000).est, m(1.0));
    assert_eq!(s.last_fill_ms(), 1002);
    s.on_fill(&fill_rec("f1", "o1", BookSide::Bid, 1.0, 1002));
    assert_eq!(s.position("T", 100_000).est, m(1.0), "a fill counts once");
}

#[test]
fn a_listing_is_used_when_it_is_whole() {
    assert_eq!(page_step(1, "", false), PageStep::Done);
    assert_eq!(page_step(1, "next", false), PageStep::Next);
    assert_eq!(page_step(20, "next", false), PageStep::Done);
    assert_eq!(page_step(1, "", true), PageStep::Incomplete);
}

#[test]
fn a_mark_at_any_price_is_taken() {
    let inst = "polymarket.0xabc.UP";
    let mut pm = PositionManager::new(money(1000.0));
    pm.apply_fill(&fill(inst, Side::Buy, 20.0, 0.40, "v1", FillStatus::Confirmed)).unwrap();
    pm.mark(inst, i64::MAX);
    assert_eq!(
        pm.snapshot(inst).unwrap().upnl,
        (i64::MAX as i128 - m(0.40) as i128) * m(20.0) as i128 * 1_000_000
    );
    pm.mark(inst, m(0.39));
    assert_eq!(pm.snapshot(inst).unwrap().upnl, money(-0.2));
}

#[test]
fn the_settings_have_their_defaults() {
    let c = ExecutorCfg::default();
    assert!(!c.enabled && !c.dry_run);
    assert_eq!(c.hold_ms, 1000);
    assert!(c.hold_probe_ms.is_empty());
    assert_eq!(c.risk.max_trades_per_min, 6);
}

// ---- what is said of a trade ------------------------------------------------------------

#[test]
fn rejections_are_told_with_their_numbers() {
    let c = RiskCfg::default();
    let told = |r: Reject| note_text(&Note::Rejected(r), &c, false, "timed out");
    let risk = |r: RiskReject| told(Reject::Risk(r));
    assert_eq!(told(Reject::BalanceKill), "real-balance kill switch");
    assert_eq!(told(Reject::NoBook), "no book in mirror");
    assert_eq!(told(Reject::TooSmall { size: m(1.5) }), "size 1.50 < min");
    assert_eq!(told(Reject::Busy), "active trade / cooldown");
    assert_eq!(note_text(&Note::Rejected(Reject::Busy), &c, true, ""), "cooldown");
    assert_eq!(told(Reject::NoMarket), "no market id");
    assert_eq!(told(Reject::CancelFailed), "cancel resting close failed: timed out");
    assert_eq!(told(Reject::Gate(GateReject::InFlight)), "entry in flight");
    assert_eq!(told(Reject::Gate(GateReject::Transit)), "entry transit gate");
    assert_eq!(told(Reject::Gate(GateReject::Exposure)), "exposure cap");
    assert_eq!(risk(RiskReject::KillSwitch), "kill switch engaged");
    assert_eq!(risk(RiskReject::StaleBook { age_ms: 1_700 }), "stale book (1700ms)");
    assert_eq!(
        risk(RiskReject::OutsideBucket { ask: m(0.97) }),
        format!("ask {:.3} outside bucket {:?}", 0.97, (0.05, 0.95))
    );
    assert_eq!(risk(RiskReject::NearExpiry { tte_ms: -5 }), "tte -5ms < min 15000ms");
    assert_eq!(risk(RiskReject::NoExpiry), "no expiry meta");
    assert_eq!(risk(RiskReject::StaleSignal { age_ms: 900 }), "signal stale (900ms)");
    assert_eq!(risk(RiskReject::Notional { cost: m(42.0) }), "notional 42.00 > max 25.00");
    assert_eq!(risk(RiskReject::RateLimit), "rate limit 6 trades/min");
    let wide = RiskCfg { yes_bucket: (0, m(1.0)), ..c };
    assert_eq!(
        note_text(&Note::Rejected(Reject::Risk(RiskReject::OutsideBucket { ask: m(1.5) })), &wide, false, ""),
        format!("ask {:.3} outside bucket {:?}", 1.5, (0.0, 1.0))
    );
}

#[test]
fn reports_are_told_with_their_numbers() {
    let c = RiskCfg::default();
    let told = |n: Note| note_text(&n, &c, false, "UP");
    let leg = || LegSummary {
        qty: m(20.0),
        notional: m(20.0) as i128 * m(0.41) as i128,
        ..LegSummary::default()
    };
    assert_eq!(told(Note::Entering { size: m(20.0) }), "size=20.00");
    assert_eq!(told(Note::Shadow), "dry_run: probe only, no order");
    assert_eq!(told(Note::TtlElapsed), "entry ttl elapsed");
    assert_eq!(told(Note::RanAway), "ask ran past chase cap");
    assert_eq!(told(Note::VenueReject("no".into())), "no");
    assert_eq!(told(Note::Abandoned), "no entry fill");
    assert_eq!(told(Note::Holding { leg: leg() }), "qty=20.00 @ 0.410");
    assert_eq!(
        note_text(&Note::Holding { leg: leg() }, &c, true, ""),
        "qty=20.00 @ 0.410 (exit: reconciler)"
    );
    assert_eq!(told(Note::Exiting), "");
    assert_eq!(told(Note::ExitFillError(FillError::TooLarge)), "exit fill-apply error");
    assert_eq!(told(Note::Closed { leg: leg() }), "exit qty=20.00 @ 0.410");
    assert_eq!(
        told(Note::Pending { qty: m(3.0) }),
        "ALERT: long 3.00 at exit deadline; awaiting resolution"
    );
    let over = FillError::Oversold { qty: m(20.0), held: m(10.0) };
    assert_eq!(told(Note::Halt(over)), "long-only violation \u{2014} see logs");
    assert_eq!(
        told(Note::LiquidationHalt(over)),
        "fill error: long-only violation: sell 20.0000 exceeds held 10.0000"
    );
    assert_eq!(
        told(Note::CloseHalt(FillError::Overdrawn { left: m(-2.5) })),
        "close fill: long-only violation: buy reverse would drive qty -2.5000 < 0"
    );
    assert_eq!(
        told(Note::LiquidationSkip { qty: m(5.0), px: m(0.3) }),
        "5.00 @ 0.300: already flat (normal exit beat the liquidator)"
    );
    assert_eq!(told(Note::Liquidated { qty: m(5.0), px: m(0.3) }), "5.00 @ 0.300 (near expiry, sim)");
    assert_eq!(told(Note::CloseSkip), "close fill on already-flat PM (accounting)");
    assert_eq!(
        told(Note::CloseFill { qty: m(2.0), px: m(0.55), held: m(1.0) }),
        "close fill 2 @ 0.550 (held 1)"
    );
    assert_eq!(told(Note::CloseFlat { realized: money(-1.25) }), "flat; realized_total=-1.2500");
    assert_eq!(told(Note::Settled), "winner=UP");
    assert_eq!(told(Note::SettleHalt), "amount too large");
}

#[test]
fn a_buy_that_was_sold_cannot_be_taken_back() {
    let inst = "polymarket.0xabc.UP";
    let mut pm = PositionManager::new(money(1000.0));
    pm.apply_fill(&fill(inst, Side::Buy, 10.0, 0.40, "v1", FillStatus::Matched)).unwrap();
    pm.apply_fill(&fill(inst, Side::Sell, 6.0, 0.45, "v2", FillStatus::Confirmed)).unwrap();
    let back = pm.apply_fill(&fill(inst, Side::Buy, 10.0, 0.40, "v1", FillStatus::Failed));
    assert_eq!(back.unwrap_err(), FillError::Overdrawn { left: m(-6.0) });
    assert_eq!(pm.qty(inst), m(4.0));
}
