//! The collectors: frames in, books and events out.
use arb::collector::binance::{
    book_event, is_book_ticker, on_change, on_snapshot, parse_book_ticker, parse_delta,
    parse_snapshot, ticker_event, BinanceCfg, Delta, SeqBook, SessionStep, Snapshot,
};
use arb::collector::kalshi::{
    book_events, parse_rest_orderbook, parse_ws_delta, parse_ws_snapshot, Books, KSide, KalshiBook,
};
use arb::collector::kalshi_markets::list_step;
use arb::collector::net::{doubled, host_port, nxt, url_host_port};
use arb::collector::polymarket::{
    parse_levels, parse_price_changes, predict_slugs, LevelSide, PolyBook, PolyBooks, TokenInst,
};
use arb::collector::venuelat::{csv_line, known_venue, parse, sub_frame, wanted, FeedCfg, VenueLatCfg};
use arb::event::Payload;
use arb::json;
use arb::json::Json;
use arb::model::Side;

fn read(s: &str) -> Json {
    json::parse(s).unwrap()
}

/// A decimal amount in micro-units.
fn m(x: f64) -> i64 {
    (x * 1e6).round() as i64
}

fn lv(v: &[(f64, f64)]) -> Vec<(i64, i64)> {
    v.iter().map(|&(p, q)| (m(p), m(q))).collect()
}

fn d(big_u: i64, u: i64, pu: i64, bids: Vec<(f64, f64)>, asks: Vec<(f64, f64)>) -> Delta {
    Delta { big_u, u, pu, bids: lv(&bids), asks: lv(&asks), exch_ns: 0, recv_ns: 0 }
}

fn snap() -> Snapshot {
    Snapshot { last_update_id: 100, bids: lv(&[(50000.0, 1.0)]), asks: lv(&[(50001.0, 2.0)]) }
}

#[test]
fn parse_book_ticker_frame() {
    let text = r#"{"stream":"btcusdt@bookTicker","data":{"e":"bookTicker","u":400,"s":"BTCUSDT","b":"64000.0","B":"1.5","a":"64000.1","A":"2.0","T":2,"E":2}}"#;
    let t = parse_book_ticker(text, 0).unwrap();
    assert_eq!(t.bid, m(64000.0));
    assert_eq!(t.ask, m(64000.1));
    assert_eq!(t.bid_sz, m(1.5));
    assert_eq!(t.ask_sz, m(2.0));
    assert_eq!(t.u, 400);
    assert_eq!(t.exch_ns, 2_000_000);
}

#[test]
fn snapshot_no_buffer_ready() {
    let mut sb = SeqBook::new();
    assert!(sb.apply_snapshot(&snap(), true));
    assert!(sb.initialized());
    let (b, a) = sb.book().top_n(5);
    assert_eq!(b[0], (m(50000.0), m(1.0)));
    assert_eq!(a[0], (m(50001.0), m(2.0)));
}

#[test]
fn buffered_deltas_replayed_with_straddle() {
    let mut sb = SeqBook::new();
    assert_eq!(sb.on_delta(d(97, 99, 96, vec![], vec![])), Some(false));
    assert_eq!(sb.on_delta(d(100, 102, 99, vec![(50000.5, 3.0)], vec![])), Some(false));
    assert_eq!(sb.on_delta(d(103, 104, 102, vec![], vec![(50002.0, 1.0)])), Some(false));
    assert!(sb.apply_snapshot(&snap(), true));
    assert_eq!(sb.last_u(), 104);
    let (b, _) = sb.book().top_n(5);
    assert_eq!(b[0], (m(50000.5), m(3.0)));
}

#[test]
fn first_delta_gap_resyncs() {
    let mut sb = SeqBook::new();
    sb.on_delta(d(103, 105, 102, vec![], vec![]));
    assert!(!sb.apply_snapshot(&snap(), true));
}

#[test]
fn live_gap_detected() {
    let mut sb = SeqBook::new();
    sb.apply_snapshot(&snap(), true);
    assert_eq!(sb.on_delta(d(101, 101, 100, vec![], vec![])), Some(true));
    assert_eq!(sb.on_delta(d(102, 103, 102, vec![], vec![])), None);
}

#[test]
fn crossed_book_resyncs() {
    let mut sb = SeqBook::new();
    sb.apply_snapshot(&snap(), true);
    assert_eq!(sb.on_delta(d(101, 101, 100, vec![(50002.0, 1.0)], vec![])), None);
}

#[test]
fn parse_delta_combined_frame() {
    let text = r#"{"stream":"btcusdt@depth@100ms","data":{"e":"depthUpdate","E":1,"T":2,"s":"BTCUSDT","U":10,"u":12,"pu":9,"b":[["50000.0","1.5"]],"a":[["50001.0","0"]]}}"#;
    let delta = parse_delta(text, 0).unwrap();
    assert_eq!(delta.big_u, 10);
    assert_eq!(delta.u, 12);
    assert_eq!(delta.pu, 9);
    assert_eq!(delta.bids[0], (m(50000.0), m(1.5)));
    assert_eq!(delta.asks[0], (m(50001.0), 0));
}

#[test]
fn a_session_fetches_again_after_a_gap() {
    let mut sb = SeqBook::new();
    assert!(matches!(on_snapshot(&mut sb, None, 5), SessionStep::Fetch { .. }));
    assert_eq!(on_snapshot(&mut sb, Some(&snap()), 5), SessionStep::Publish { exch_ns: 5, recv_ns: 5 });
    let mut change = d(101, 101, 100, vec![(49999.0, 4.0)], vec![]);
    change.exch_ns = 8;
    change.recv_ns = 9;
    assert_eq!(on_change(&mut sb, change), SessionStep::Publish { exch_ns: 8, recv_ns: 9 });
    assert!(matches!(
        on_change(&mut sb, d(105, 106, 104, vec![], vec![])),
        SessionStep::Fetch { .. }
    ));
    assert!(!sb.initialized());
}

#[test]
fn a_depth_snapshot_is_read() {
    let s = parse_snapshot(&read(
        r#"{"lastUpdateId":77,"bids":[["1.5","2"],["1.4","3"]],"asks":[["1.6","4"]]}"#,
    ))
    .unwrap();
    assert_eq!(s.last_update_id, 77);
    assert_eq!(s.bids, lv(&[(1.5, 2.0), (1.4, 3.0)]));
    assert_eq!(s.asks, lv(&[(1.6, 4.0)]));
    assert!(parse_snapshot(&read(r#"{"bids":[],"asks":[]}"#)).is_none());
}

#[test]
fn binance_events_carry_the_top_of_the_book() {
    let cfg = BinanceCfg::default();
    let mut sb = SeqBook::new();
    sb.apply_snapshot(&snap(), true);
    let mut seq = 6;
    let ev = book_event(&cfg, sb.book(), 1, 2, 100, &mut seq);
    assert_eq!(seq, 7);
    assert_eq!(ev.topic, format!("market.{}.book", cfg.instrument));
    match &ev.payload {
        Payload::Book(b) => {
            assert_eq!(b.bids, lv(&[(50000.0, 1.0)]));
            assert_eq!(b.exch_ts_ns, 1);
            assert_eq!(b.recv_ts_ns, 2);
            assert_eq!(b.update_id, Some(100));
        },
        _ => panic!("not a book"),
    }
    let text = r#"{"u":400,"b":"64000.0","B":"1.5","a":"64000.1","A":"2.0","T":2,"E":2}"#;
    let tk = parse_book_ticker(text, 3).unwrap();
    let ev = ticker_event(&cfg, &tk, &mut seq);
    match &ev.payload {
        Payload::Book(b) => assert_eq!((b.bids.clone(), b.asks.clone()), (
            lv(&[(64000.0, 1.5)]),
            lv(&[(64000.1, 2.0)]),
        )),
        _ => panic!("not a book"),
    }
    assert!(is_book_ticker(&cfg));
    let depth = BinanceCfg { stream: "depth".into(), ..BinanceCfg::default() };
    assert!(!is_book_ticker(&depth));
}

#[test]
fn host_port_parsing() {
    assert_eq!(host_port("wss://fstream.binance.com/public"), ("fstream.binance.com".into(), 443));
    assert_eq!(host_port("wss://example.com:8443/x"), ("example.com".into(), 8443));
}

#[test]
fn snapshot_reflects_no_bids_into_yes_asks() {
    let mut b = KalshiBook::default();
    b.apply_snapshot(&lv(&[(0.48, 10.0), (0.47, 20.0)]), &lv(&[(0.51, 5.0), (0.50, 8.0)]), Some(1));
    let (bids, asks) = b.top_n(10);
    assert_eq!(bids[0], (m(0.48), m(10.0)));
    assert_eq!(asks[0], (m(0.49), m(5.0)));
    assert_eq!(asks[1], (m(0.50), m(8.0)));
}

#[test]
fn no_ladder_mirrors_yes() {
    let mut b = KalshiBook::default();
    b.apply_snapshot(&lv(&[(0.48, 10.0), (0.47, 20.0)]), &lv(&[(0.51, 5.0), (0.50, 8.0)]), Some(1));
    let (nb, na) = b.top_n_no(10);
    assert_eq!(nb[0], (m(0.51), m(5.0)));
    assert_eq!(nb[1], (m(0.50), m(8.0)));
    assert_eq!(na[0], (m(0.52), m(10.0)));
    assert_eq!(na[1], (m(0.53), m(20.0)));
}

#[test]
fn delta_signed_and_seq_gap() {
    let mut b = KalshiBook::default();
    b.apply_snapshot(&lv(&[(0.48, 10.0)]), &lv(&[(0.51, 5.0)]), Some(1));
    assert!(!b.apply_delta(KSide::Yes, m(0.48), m(3.0), Some(2)));
    let (bids, _) = b.top_n(10);
    assert_eq!(bids[0], (m(0.48), m(13.0)));
    assert!(!b.apply_delta(KSide::Yes, m(0.48), m(-13.0), Some(3)));
    assert!(b.top_n(10).0.is_empty());
    assert!(b.apply_delta(KSide::No, m(0.51), m(1.0), Some(5)));
}

#[test]
fn ws_frames_parse() {
    let snap = read(
        r#"{"type": "orderbook_snapshot", "seq": 7,
            "msg": {"market_ticker": "KXBTC15M-Y", "yes_dollars_fp": [["0.48","10"]], "no_dollars_fp": [["0.51","5"]]}}"#,
    );
    let (yes, no, seq) = parse_ws_snapshot(&snap);
    assert_eq!(yes, lv(&[(0.48, 10.0)]));
    assert_eq!(no, lv(&[(0.51, 5.0)]));
    assert_eq!(seq, Some(7));

    let delta = read(
        r#"{"type": "orderbook_delta", "seq": 8,
            "msg": {"market_ticker": "KXBTC15M-Y", "side": "yes", "price_dollars": "0.48", "delta_fp": "-4"}}"#,
    );
    let (side, p, dd, s) = parse_ws_delta(&delta).unwrap();
    assert_eq!(side, KSide::Yes);
    assert_eq!((p, dd, s), (m(0.48), m(-4.0), Some(8)));
}

#[test]
fn rest_orderbook_cents_fallback() {
    let ob = read(r#"{"orderbook": {"yes": [[48, 10]], "no": [[51, 5]]}}"#);
    let (yes, no) = parse_rest_orderbook(&ob);
    assert_eq!(yes, lv(&[(0.48, 10.0)]));
    assert_eq!(no, lv(&[(0.51, 5.0)]));
}

#[test]
fn kalshi_frames_are_routed_to_both_sides() {
    let mut books = Books::new();
    let wanted = vec![("KX-1".to_string(), "kalshi.KX-1.YES".to_string())];
    let mut seq = 0;
    let snap = read(
        r#"{"type":"orderbook_snapshot","seq":1,"msg":{"market_ticker":"KX-1","yes_dollars_fp":[["0.48","10"]],"no_dollars_fp":[["0.51","5"]]}}"#,
    );
    let (gap, evs) = books.route_ws(&snap, &wanted, 9, 5, &mut seq);
    assert!(!gap);
    assert_eq!(evs.len(), 2);
    assert!(evs.iter().all(|e| e.topic == "market.kalshi.KX-1.book"));
    let jump = read(
        r#"{"type":"orderbook_delta","seq":4,"msg":{"market_ticker":"KX-1","side":"yes","price_dollars":"0.48","delta_fp":"1"}}"#,
    );
    let (gap, evs) = books.route_ws(&jump, &wanted, 10, 5, &mut seq);
    assert!(gap);
    assert_eq!(evs.len(), 2);
    let ob = read(r#"{"orderbook": {"yes": [[48, 10]], "no": [[51, 5]]}}"#);
    assert_eq!(books.on_rest_book("KX-1", &ob, 11, 5, &mut seq).len(), 2);
    let mut b = KalshiBook::default();
    b.apply_snapshot(&lv(&[(0.48, 10.0)]), &lv(&[(0.51, 5.0)]), None);
    assert_eq!(book_events("KX-1", &b, 1, 5, &mut seq).len(), 2);
}

#[test]
fn levels_sorted_best_first_in_unit_prices() {
    let bids = read(r#"[{"price": "0.49", "size": "10"}, {"price": "0.50", "size": "5"}]"#);
    let asks = read(r#"[{"price": "0.52", "size": "8"}, {"price": "0.51", "size": "3"}]"#);
    let b = parse_levels(&bids, LevelSide::Bid);
    let a = parse_levels(&asks, LevelSide::Ask);
    assert_eq!(b[0], (m(0.50), m(5.0)));
    assert_eq!(a[0], (m(0.51), m(3.0)));
}

#[test]
fn snapshot_then_delta() {
    let mut book = PolyBook::default();
    book.apply_snapshot(&lv(&[(0.49, 10.0), (0.48, 20.0)]), &lv(&[(0.51, 8.0), (0.52, 4.0)]));
    let (b, a) = book.top_n(10);
    assert_eq!(b[0], (m(0.49), m(10.0)));
    assert_eq!(a[0], (m(0.51), m(8.0)));

    book.apply_delta(&vec![(m(0.50), m(7.0), Side::Buy), (m(0.51), 0, Side::Sell)]);
    let (b, a) = book.top_n(10);
    assert_eq!(b[0], (m(0.50), m(7.0)));
    assert_eq!(a[0], (m(0.52), m(4.0)));
}

#[test]
fn price_changes_parsed_by_asset() {
    let msg = read(
        r#"{
            "event_type": "price_change",
            "market": "0xabc",
            "price_changes": [
                {"asset_id": "tok_up", "price": "0.50", "size": "7", "side": "BUY"},
                {"asset_id": "tok_up", "price": "0.51", "size": "0", "side": "SELL"}
            ]
        }"#,
    );
    let chs = parse_price_changes(&msg);
    assert_eq!(chs.len(), 2);
    assert_eq!(chs[0].0, "tok_up");
    assert_eq!(chs[0].3, Side::Buy);
    assert_eq!(chs[1].2, 0);
}

#[test]
fn polymarket_frames_are_routed_by_token() {
    let ts = vec![TokenInst {
        token: "tok_up".into(),
        cid: "0xabc".into(),
        instrument: "polymarket.0xabc.UP".into(),
    }];
    let mut books = PolyBooks::new();
    let mut seq = 0;
    let frame = read(
        r#"[{"event_type":"book","asset_id":"tok_up","bids":[{"price":"0.49","size":"10"}],"asks":[{"price":"0.51","size":"3"}]},
            {"event_type":"book","asset_id":"other","bids":[],"asks":[]}]"#,
    );
    let evs = books.route_frame(&frame, &ts, 5, 10, &mut seq);
    assert_eq!(evs.len(), 1);
    assert_eq!(evs[0].topic, "market.polymarket.0xabc.book");
    let change = read(
        r#"{"event_type":"price_change","price_changes":[{"asset_id":"tok_up","price":"0.50","size":"7","side":"BUY"}]}"#,
    );
    let evs = books.route_frame(&change, &ts, 6, 10, &mut seq);
    match &evs[0].payload {
        Payload::Book(b) => assert_eq!(b.bids, lv(&[(0.50, 7.0), (0.49, 10.0)])),
        _ => panic!("not a book"),
    }
}

#[test]
fn current_window_is_floor_of_now() {
    let s = predict_slugs("btc-updown-5m", 300, 3, 1000);
    assert_eq!(s[0], ("btc-updown-5m-900".into(), 900));
    assert_eq!(s[1], ("btc-updown-5m-1200".into(), 1200));
    assert_eq!(s[2], ("btc-updown-5m-1500".into(), 1500));
}

#[test]
fn exact_boundary() {
    let s = predict_slugs("btc-updown-5m", 300, 1, 1200);
    assert_eq!(s[0].1, 1200);
}

#[test]
fn parses_binance_book_ticker() {
    let t = r#"{"u":1,"s":"BTCUSDT","b":"63000.1","B":"1","a":"63000.2","A":"2","E":1700000000123,"T":1700000000100}"#;
    let s = parse("binance", "BTCUSDT", "perp", t, 42).unwrap();
    assert_eq!(s.bid, m(63000.1));
    assert_eq!(s.ask, m(63000.2));
    assert_eq!(s.exch_ts_ns, Some(1_700_000_000_100 * 1_000_000));
    assert_eq!(s.recv_ts_ns, 42);
}

#[test]
fn parses_bybit_orderbook_1() {
    let t = r#"{"topic":"orderbook.1.BTCUSDT","ts":1700000000123,"cts":1700000000100,
                    "data":{"b":[["63000.1","1"]],"a":[["63000.2","2"]]}}"#;
    let s = parse("bybit", "BTCUSDT", "perp", t, 7).unwrap();
    assert_eq!((s.bid, s.ask), (m(63000.1), m(63000.2)));
    assert_eq!(s.exch_ts_ns, Some(1_700_000_000_100 * 1_000_000));
}

#[test]
fn parses_okx_bbo_tbt() {
    let t = r#"{"arg":{"channel":"bbo-tbt","instId":"BTC-USDT-SWAP"},
                    "data":[{"bids":[["63000.1","1","0","1"]],"asks":[["63000.2","2","0","1"]],"ts":"1700000000100"}]}"#;
    let s = parse("okx", "BTC-USDT-SWAP", "perp", t, 9).unwrap();
    assert_eq!((s.bid, s.ask), (m(63000.1), m(63000.2)));
    assert_eq!(s.exch_ts_ns, Some(1_700_000_000_100 * 1_000_000));
}

#[test]
fn control_frames_are_ignored() {
    assert!(parse("bybit", "BTCUSDT", "perp", r#"{"success":true,"op":"subscribe"}"#, 0).is_none());
    assert!(parse("okx", "BTC-USDT-SWAP", "perp", r#"{"event":"subscribe"}"#, 0).is_none());
    assert!(parse("binance", "BTCUSDT", "perp", r#"{"result":null,"id":1}"#, 0).is_none());
}

#[test]
fn host_port_handles_explicit_port() {
    assert_eq!(url_host_port("wss://ws.okx.com:8443/ws/v5/public"), ("ws.okx.com".into(), 8443));
    assert_eq!(
        url_host_port("wss://stream.bybit.com/v5/public/linear"),
        ("stream.bybit.com".into(), 443)
    );
}

#[test]
fn disabled_or_empty_never_spawns() {
    assert!(!wanted(&VenueLatCfg::default()));
    assert!(!wanted(&VenueLatCfg { enabled: true, ..Default::default() }));
    let one = FeedCfg { venue: "okx".into(), market: "perp".into(), symbol: "S".into(), url: "u".into() };
    assert!(wanted(&VenueLatCfg { enabled: true, feeds: vec![one], ..Default::default() }));
}

#[test]
fn venue_latency_rows_and_requests() {
    let t = r#"{"b":"63000.1","a":"63000.2","T":1700000000100}"#;
    let s = parse("binance", "BTCUSDT", "perp", t, 42).unwrap();
    assert_eq!(csv_line(&s), "42,1700000000100000000,binance,perp,BTCUSDT,63000.1,63000.2");
    assert!(known_venue("okx") && !known_venue("nowhere"));
    assert!(sub_frame("binance", "BTCUSDT").is_none());
    assert!(sub_frame("bybit", "BTCUSDT").unwrap().contains("orderbook.1.BTCUSDT"));
    assert!(parse("binance", "BTCUSDT", "perp", "not json", 0).is_none());
}

#[test]
fn waits_double_up_to_their_limit() {
    assert_eq!(doubled(500, 30_000), 1_000);
    assert_eq!(doubled(20_000, 30_000), 30_000);
    let mut seq = u64::MAX;
    assert_eq!(nxt(&mut seq), u64::MAX);
    assert_eq!(seq, 0);
}

#[test]
fn a_gap_right_after_the_snapshot_is_seen() {
    let mut sb = SeqBook::new();
    assert!(sb.apply_snapshot(&snap(), true));
    assert_eq!(sb.on_delta(d(150, 151, 149, vec![], vec![])), None);
    assert_eq!(sb.last_u(), 100);
    assert!(sb.apply_snapshot(&snap(), true));
    assert_eq!(sb.on_delta(d(101, 103, 100, vec![], vec![])), Some(true));
    assert_eq!(sb.last_u(), 103);
}

#[test]
fn the_first_change_may_reach_over_the_snapshot() {
    let mut sb = SeqBook::new();
    assert!(sb.apply_snapshot(&snap(), true));
    assert_eq!(sb.on_delta(d(98, 105, 97, vec![(49999.0, 2.0)], vec![])), Some(true));
    assert_eq!(sb.last_u(), 105);
    // only the first
    assert_eq!(sb.on_delta(d(104, 107, 103, vec![], vec![])), None);
    assert_eq!(sb.on_delta(d(106, 107, 105, vec![], vec![])), Some(true));
}

#[test]
fn the_two_ladders_of_a_book_mirror_each_other() {
    let mut b = KalshiBook::default();
    b.apply_snapshot(&lv(&[(0.48, 10.0), (0.47, 0.0)]), &lv(&[(0.51, 5.0), (0.50, -8.0)]), Some(1));
    b.apply_delta(KSide::Yes, m(0.45), m(2.0), Some(2));
    b.apply_delta(KSide::No, m(0.51), m(-9.0), Some(3));
    b.apply_delta(KSide::No, m(0.40), m(3.0), Some(4));
    let ((yb, ya), (nb, na)) = (b.top_n(10), b.top_n_no(10));
    assert_eq!(yb, lv(&[(0.48, 10.0), (0.45, 2.0)]));
    assert_eq!(nb, lv(&[(0.40, 3.0)]));
    let turned = |v: &[(i64, i64)]| -> Vec<(i64, i64)> {
        v.iter().map(|&(p, q)| (1_000_000 - p, q)).collect()
    };
    assert_eq!(ya, turned(&nb));
    assert_eq!(na, turned(&yb));
    assert!(ya.iter().chain(&na).all(|&(_, q)| q > 0));
}

#[test]
fn windows_before_the_epoch_start_at_their_floor() {
    let s = predict_slugs("w", 300, 2, -100);
    assert_eq!(s[0], ("w--300".into(), -300));
    assert_eq!(s[1].1, 0);
}

#[test]
fn a_level_of_the_smallest_size_stays() {
    let s = parse_snapshot(&read(r#"{"lastUpdateId":1,"bids":[["10","0.0000004"]],"asks":[["11","0.0"]]}"#))
        .unwrap();
    let mut sb = SeqBook::new();
    assert!(sb.apply_snapshot(&s, true));
    let (b, a) = sb.book().top_n(5);
    assert_eq!((b, a), (vec![(m(10.0), 1)], vec![]));
}

#[test]
fn a_listing_has_six_pages_at_most() {
    let next = Some("c".to_string());
    assert_eq!(list_step(1, next.clone()), next);
    assert_eq!(list_step(5, next.clone()), next);
    assert_eq!(list_step(6, next), None);
    assert_eq!(list_step(1, None), None);
}
