//! Catalogs, spot feeds, futures, recording, sampling, replay and signing.
use arb::auth::{credentials, Signer};
use arb::collector::cryptospot;
use arb::collector::cryptospot::{Bbo, Frame};
use arb::collector::databento::{quote_event, root_of, DatabentoCfg, Labels, Quote};
use arb::collector::kalshi::KalshiCfg;
use arb::collector::kalshi_markets;
use arb::collector::phase::{next_phase, phase_of, status_of, Phase};
use arb::collector::polymarket::PolyCfg;
use arb::collector::polymarket_markets;
use arb::collector::polymarket_markets::{json_str_array, lookup_due, parse_market, read_lookup};
use arb::datetime::date_utc;
use arb::event::{Event, Payload};
use arb::json;
use arb::json::Json;
use arb::live;
use arb::model::{BookUpdate, LatencySample, MarketMeta, MarketStatus};
use arb::recorder::{dir_of, instrument_of, stream_venue, RecorderCfg, Sampler};
use arb::replay::{read_header, read_row, strike_of, yes_instrument, Feeder};
use base64::Engine;
use rsa::pkcs1::EncodeRsaPrivateKey;
use rsa::pkcs8::EncodePrivateKey;
use rsa::signature::Verifier;

const S: i64 = 1_000_000_000;

fn m(x: f64) -> i64 {
    (x * 1e6).round() as i64
}

fn read(s: &str) -> Json {
    json::parse(s).unwrap()
}

fn book(inst: &str, bid: f64, ask: f64, ts: i64) -> Event {
    Event::new(format!("market.{}.book", inst), "t", ts, 0, Payload::Book(BookUpdate {
        instrument: inst.into(),
        bids: vec![(m(bid), m(5.0))],
        asks: vec![(m(ask), m(6.0))],
        update_id: None,
        exch_ts_ns: ts,
        recv_ts_ns: ts,
    }))
}

fn meta(inst: &str, expiry: i64) -> Event {
    Event::new(format!("market.{}.catalog", inst), "t", 0, 0, Payload::Meta(MarketMeta {
        instrument: inst.into(),
        kind: "15m_updown".into(),
        status: MarketStatus::Live,
        start_ts_ns: Some(0),
        expiry_ts_ns: Some(expiry),
        winner: None,
        min_order_size: None,
        tick_size: None,
        fee_rate: None,
        strike: Some(m(64000.0)),
    }))
}

// ---- catalogs ---------------------------------------------------------------------------

#[test]
fn parse_market_basic() {
    let v = read(
        r#"{
            "conditionId": "0xCID",
            "clobTokenIds": "[\"up_tok\", \"down_tok\"]",
            "outcomes": "[\"Up\", \"Down\"]",
            "slug": "btc-updown-5m-1200",
            "orderMinSize": "5",
            "orderPriceMinTickSize": "0.01",
            "feeSchedule": { "rate": 0.07, "exponent": 1 }
        }"#,
    );
    let mi = parse_market(&v, "btc-updown-5m-1200", 1200, 300).unwrap();
    assert_eq!(mi.cid, "0xCID");
    assert_eq!(mi.up_token, "up_tok");
    assert_eq!(mi.down_token, "down_tok");
    assert_eq!(mi.up_inst, "polymarket.0xCID.UP");
    assert_eq!(mi.down_inst, "polymarket.0xCID.DOWN");
    assert_eq!(mi.start_ns, 1_200_000_000_000);
    assert_eq!(mi.expiry_ns, 1_500_000_000_000);
    assert_eq!(mi.min_order_size, Some(m(5.0)));
    assert_eq!(mi.tick_size, Some(m(0.01)));
    assert_eq!(mi.fee_rate, Some(m(0.07)));
}

#[test]
fn parse_market_down_first_orientation() {
    let v = read(
        r#"{
            "conditionId": "0xCID",
            "clobTokenIds": "[\"down_tok\", \"up_tok\"]",
            "outcomes": "[\"Down\", \"Up\"]",
            "slug": "btc-updown-5m-1200"
        }"#,
    );
    let mi = parse_market(&v, "btc-updown-5m-1200", 1200, 300).unwrap();
    assert_eq!(mi.up_token, "up_tok");
    assert_eq!(mi.down_token, "down_tok");
}

#[test]
fn parse_market_missing_tokens_is_none() {
    let v = read(r#"{ "conditionId": "0xCID", "outcomes": "[\"Up\",\"Down\"]" }"#);
    assert!(parse_market(&v, "s", 1200, 300).is_none());
    assert_eq!(json_str_array(&read(r#"["a","b"]"#)), vec!["a".to_string(), "b".to_string()]);
    assert!(json_str_array(&read("7")).is_empty());
}

fn found(slug: &str, start: i64) -> polymarket_markets::MarketInfo {
    let v = read(
        r#"[{"conditionId":"0xCID","clobTokenIds":"[\"up_tok\", \"down_tok\"]","outcomes":"[\"Up\", \"Down\"]"}]"#,
    );
    read_lookup(&v, slug, start, 300).unwrap()
}

#[test]
fn polymarket_windows_are_found_once_and_run_out() {
    let cfg = PolyCfg::default();
    let mut r = polymarket_markets::Registry::new();
    let now = 1_000 * S;
    let want = r.to_look_up(&cfg, now);
    assert_eq!(want[0].1, 900);
    let entry = r.take_up(found(&want[0].0, 900), now, "5m_updown").unwrap();
    assert_eq!(entry.status, MarketStatus::Live);
    assert!(r.take_up(found(&want[0].0, 900), now, "5m_updown").is_none());
    assert!(!r.to_look_up(&cfg, now).iter().any(|w| w.1 == 900));
    assert_eq!(r.desired().len(), 2);
    assert_eq!(r.desired()[0].token, "down_tok", "sorted by token");
    assert!(r.next_sleep(now, now, &cfg) <= 200 * S);
    let over = r.tick(1_200 * S, &cfg);
    assert_eq!(over[0].status, MarketStatus::Expired);
    assert!(lookup_due(now, 0, 20));
    assert!(!lookup_due(now, now, 20));
    let req = polymarket_markets::subscribe_request(&r.desired());
    assert!(req.get("assets_ids").is_some());
}

#[test]
fn markets_only_move_forward() {
    assert_eq!(phase_of(0, 5, 10), Phase::Upcoming);
    assert_eq!(phase_of(5, 5, 10), Phase::Live);
    assert_eq!(phase_of(10, 5, 10), Phase::Expired);
    assert_eq!(next_phase(Phase::Live, 5, 10, 0), Phase::Live);
    assert_eq!(next_phase(Phase::Upcoming, 5, 10, 7), Phase::Live);
    assert_eq!(status_of(Phase::Expired), MarketStatus::Expired);
}

#[test]
fn kalshi_markets_are_ranked_by_close_and_distance() {
    let cfg = KalshiCfg::default();
    let list = vec![
        read(r#"{"ticker":"KX-T65000","title":"far","open_time":"2024-01-01T00:00:00Z","close_time":"2024-01-01T00:15:00Z"}"#),
        read(r#"{"ticker":"KX-T64000","title":"near","open_time":"2024-01-01T00:00:00Z","close_time":"2024-01-01T00:15:00Z"}"#),
        read(r#"{"title":"no ticker"}"#),
    ];
    let now = 1_704_067_200 * S + 60 * S;
    let ranked = kalshi_markets::rank_candidates(&list, now, &cfg, 2 * m(64_100.0) as i128);
    assert_eq!(ranked.len(), 2);
    assert_eq!(ranked[0].ticker, "KX-T64000");
    assert_eq!(kalshi_markets::strike_of("KX-T64000"), Some(m(64000.0)));
    assert_eq!(kalshi_markets::strike_of("KX"), None);
    let mut r = kalshi_markets::Registry::new();
    let new = r.discover(&list, now, &cfg, 2 * m(64_100.0) as i128);
    assert!(!new.is_empty());
    assert_eq!(r.desired().ticker_inst.len(), new.len());
    assert!(r.discover(&list, now, &cfg, 2 * m(64_100.0) as i128).is_empty());
    assert!(!kalshi_markets::subscribe_request(&r.desired()).get("cmd").is_none());
    let gone = r.tick(now + 3_600 * S, &cfg);
    assert!(gone.iter().all(|e| e.status == MarketStatus::Expired));
}

#[test]
fn kalshi_trades_are_taken_once() {
    let items = vec![
        read(r#"{"created_time":"2024-01-01T00:00:02Z","yes_price":48,"count":3,"taker_side":"yes"}"#),
        read(r#"{"created_time":"2024-01-01T00:00:01Z","yes_price":47,"count":1,"taker_side":"no"}"#),
    ];
    let (ticks, mark) = kalshi_markets::take_trades(&items, "kalshi.K.YES", 0, 5);
    assert_eq!(ticks.len(), 2);
    assert_eq!(mark, 1_704_067_202 * S);
    let (again, same) = kalshi_markets::take_trades(&items, "kalshi.K.YES", mark, 6);
    assert!(again.is_empty());
    assert_eq!(same, mark);
    assert_eq!(kalshi_markets::trades_since(0), None);
    assert!(kalshi_markets::trades_url("https://x", "K", Some(7)).contains("min_ts=7"));
    assert!(kalshi_markets::markets_url("https://x", "KXBTC", None).contains("KXBTC"));
}

// ---- spot and futures feeds -------------------------------------------------------------

#[test]
fn spot_frames_are_read_by_venue() {
    let t = cryptospot::coinbase_top(&read(
        r#"{"type":"ticker","best_bid":"64000.1","best_bid_size":"1","best_ask":"64000.2","best_ask_size":"2","time":"2024-01-01T00:00:00Z"}"#,
    ))
    .unwrap();
    assert_eq!((t.bid, t.ask), (m(64000.1), m(64000.2)));
    assert_eq!(t.exch_ns, None);
    let b = cryptospot::binanceus_top(&read(r#"{"b":"1.5","B":"2","a":"1.6","A":"3"}"#)).unwrap();
    assert_eq!((b.bid, b.bid_sz, b.ask, b.ask_sz), (m(1.5), m(2.0), m(1.6), m(3.0)));
    assert!(cryptospot::kraken_top(&read(r#"{"channel":"heartbeat"}"#)).is_none());
    assert!(matches!(
        cryptospot::bitstamp_frame(&read(r#"{"event":"bts:request_reconnect"}"#)),
        Frame::Reconnect
    ));
    assert!(matches!(cryptospot::okx_frame(&read(r#"{"event":"subscribe"}"#)), Frame::Skip));
    assert_eq!(cryptospot::base_of("BTC-USD"), "BTC");
    assert!(cryptospot::binanceus_url("btcusd").contains("btcusd"));
    let mut seq = 0;
    let ev = cryptospot::book_event("coinbase", "BTC", &t, 9, &mut seq);
    assert_eq!(ev.topic, "market.coinbase.BTC.book");
}

#[test]
fn the_last_change_of_a_side_counts() {
    let mut b = Bbo::new();
    let one = read(
        r#"{"type":"update","events":[{"type":"change","side":"bid","price":"10","remaining":"1"},{"type":"change","side":"ask","price":"11","remaining":"2"}]}"#,
    );
    let t = b.take_frame(&one).unwrap();
    assert_eq!((t.bid, t.ask), (m(10.0), m(11.0)));
    let two = read(
        r#"{"type":"update","events":[{"type":"change","side":"bid","price":"10.2","remaining":"1"},{"type":"change","side":"bid","price":"10.1","remaining":"4"}]}"#,
    );
    let t = b.take_frame(&two).unwrap();
    assert_eq!((t.bid, t.bid_sz, t.ask), (m(10.1), m(4.0), m(11.0)));
}

#[test]
fn futures_quotes_are_named_by_their_root() {
    assert_eq!(root_of("ES.c.0"), "ES");
    assert!(!DatabentoCfg::default().enabled);
    let mut labels = Labels::new(&vec!["ES.c.0".into(), "NQ.c.0".into()]);
    labels.map_symbol(7, "NQ.c.0");
    assert_eq!(labels.label_of(7), "NQ");
    let single = Labels::new(&vec!["ES.c.0".into()]);
    assert_eq!(single.label_of(99), "ES");
    let q = Quote {
        instrument_id: 7,
        bid_px: 5_000_250_000_000,
        bid_sz: 3,
        ask_px: 5_000_500_000_000,
        ask_sz: 4,
        sequence: 11,
        ts_event: 12,
    };
    let mut seq = 0;
    let ev = quote_event(&q, &labels, 13, &mut seq).unwrap();
    match &ev.payload {
        Payload::Book(b) => {
            assert_eq!(b.bids, vec![(m(5000.25), m(3.0))]);
            assert_eq!(b.asks, vec![(m(5000.5), m(4.0))]);
        },
        _ => panic!("not a book"),
    }
}

// ---- recording --------------------------------------------------------------------------

#[test]
fn date_from_ns() {
    assert_eq!(date_utc(1_781_416_438_838_654_500), "2026-06-14");
    assert_eq!(date_utc(0), "1970-01-01");
}

#[test]
fn dates_cross_leap_days_and_the_epoch() {
    assert_eq!(date_utc(1_709_164_800 * S), "2024-02-29");
    assert_eq!(date_utc(1_709_251_200 * S), "2024-03-01");
    assert_eq!(date_utc(-1), "1969-12-31");
}

#[test]
fn latency_sample_routes() {
    let ev = Event::new(
        "latency.processor.book_to_signal".into(),
        "processor",
        1_781_460_000_000_000_000,
        7,
        Payload::Latency(LatencySample {
            name: "book_to_signal".into(),
            latency_ns: 42_500,
            origin_ts_ns: 1_781_460_000_000_000_000,
            strategy: "perp_move".into(),
            target: "polymarket.0xabc.UP".into(),
        }),
    );
    assert_eq!(stream_venue(&ev), ("latency".into(), "processor".into()));
    assert_eq!(instrument_of(&ev), "book_to_signal");
    assert!(dir_of("data", &ev).starts_with("data/"));
    assert!(dir_of("data", &ev).contains("2026-06-14"));
}

#[test]
fn kept_events_of_an_instrument_are_apart() {
    let mut cfg = RecorderCfg::default();
    cfg.sample_interval_ms = 1_000;
    let mut s = Sampler::new();
    assert!(s.keep(&cfg, &book("binance.x", 1.0, 2.0, 10 * S)));
    assert!(!s.keep(&cfg, &book("binance.x", 1.0, 2.0, 10 * S + 500_000_000)));
    assert!(s.keep(&cfg, &book("binance.x", 1.0, 2.0, 11 * S)));
    cfg.sample_interval_ms = 0;
    assert!(s.keep(&cfg, &book("binance.x", 1.0, 2.0, 11 * S)));
}

// ---- sampling and replay ----------------------------------------------------------------

#[test]
fn samples_are_taken_near_the_end_only() {
    let mut s = live::Sampler::new("binance.usdt_perp.BTCUSDT".into());
    assert!(s.rows(0).is_none());
    s.on_event(&book("binance.usdt_perp.BTCUSDT", 64000.0, 64001.0, 0));
    s.on_event(&meta("kalshi.K.YES", 600 * S));
    s.on_event(&book("kalshi.K.YES", 0.48, 0.50, 599 * S));
    let rows = s.rows(599 * S + 500_000_000).unwrap();
    assert_eq!(rows.len(), 1);
    assert!(rows[0].contains(",K,"));
    assert_eq!(s.rows(601 * S).unwrap().len(), 1);
    assert!(s.rows(611 * S).unwrap().is_empty());
    s.forget(10_000 * S);
    assert_eq!(live::market_of("kalshi.K.YES").as_deref(), Some("K"));
    assert_eq!(live::market_of("binance.x"), None);
    assert!(live::header().starts_with("ts_ms,ticker"));
    let mut h = live::Heartbeat::new("binance.usdt_perp.BTCUSDT".into());
    h.on_event(&book("binance.usdt_perp.BTCUSDT", 64000.0, 64001.0, 0));
    assert_eq!(h.binance, 1);
    h.beat();
    assert_eq!(h.binance, 0);
}

#[test]
fn rows_become_events() {
    let c = read_header(
        "ts_ms,ticker,tte_ms,ybid,yask,cb_bid,cb_ask,cb_age_ms,perp_bid,perp_ask,perp_bid_sz,perp_ask_sz",
    )
    .unwrap();
    assert!(read_header("ts_ms,ticker").is_none());
    let row = read_row("1000,K,200000,0.48,0.50,64000,64001,5,64002,64003,1,2", &c).unwrap();
    assert_eq!(row.yes, (m(0.48), m(0.50)));
    assert!(read_row("x,K", &c).is_none());
    let catalog = read(r#"{"K":{"strike":64000}}"#);
    let strike = strike_of(&catalog, "K");
    let mut f = Feeder::new(true);
    let first = f.feed(&row, Some(m(64000.0)));
    assert!(first.iter().any(|e| matches!(e.payload, Payload::Meta(_))));
    let again = f.feed(&row, Some(m(64000.0)));
    assert!(!again.iter().any(|e| matches!(e.payload, Payload::Meta(_))));
    assert!(f.market("K").is_some());
    assert_eq!(yes_instrument("K"), "kalshi.K.YES");
    assert!(f.fair_due("kalshi.K.YES", 1_000));
    assert!(!f.fair_due("kalshi.K.YES", 1_000));
    let _ = strike;
}

// ---- signing ----------------------------------------------------------------------------

#[test]
fn requests_are_signed_with_the_key_that_was_read() {
    let mut rng = rand::rngs::OsRng;
    let key = rsa::RsaPrivateKey::new(&mut rng, 1024).unwrap();
    let pem8 = key.to_pkcs8_pem(rsa::pkcs8::LineEnding::LF).unwrap();
    let pem1 = key.to_pkcs1_pem(rsa::pkcs1::LineEnding::LF).unwrap();
    for pem in [pem8.as_str(), pem1.as_str()] {
        let s = Signer::load("id-1", pem).unwrap();
        assert_eq!(s.key_id(), "id-1");
        let (ts, sig) = s.sign("GET", "/trade-api/v2/markets", 1_700_000_000_123).unwrap();
        assert_eq!(ts, "1700000000123");
        let bytes = base64::engine::general_purpose::STANDARD.decode(sig).unwrap();
        let verifier = rsa::pss::VerifyingKey::<sha2::Sha256>::new(key.to_public_key());
        let given = rsa::pss::Signature::try_from(bytes.as_slice()).unwrap();
        let text = "1700000000123GET/trade-api/v2/markets";
        assert!(verifier.verify(text.as_bytes(), &given).is_ok());
        assert!(verifier.verify(b"something else", &given).is_err());
    }
    assert!(Signer::load("id-1", "no key").is_none());
}

#[test]
fn a_key_that_is_too_short_signs_nothing() {
    let key = rsa::RsaPrivateKey::new(&mut rand::rngs::OsRng, 512).unwrap();
    let pem = key.to_pkcs8_pem(rsa::pkcs8::LineEnding::LF).unwrap();
    let s = Signer::load("id-1", pem.as_str()).unwrap();
    assert!(s.sign("GET", "/trade-api/v2/markets", 1_700_000_000_123).is_none());
}

#[test]
fn credentials_are_the_time_and_the_signature() {
    let (ts, sig) = credentials(-5, &vec![1, 2, 3, 255]).unwrap();
    assert_eq!(ts, "-5");
    assert_eq!(sig, "AQID/w==");
}

// ---- pages and events ---------------------------------------------------------------------

#[test]
fn pages_are_put_together() {
    let mut all = Vec::new();
    let first = json::parse(r#"{"cursor":"c1","markets":[{"ticker":"A"},{"ticker":"B"}]}"#).unwrap();
    assert_eq!(kalshi_markets::take_page(&mut all, first), Some("c1".to_string()));
    let last = json::parse(r#"{"cursor":"","markets":[{"ticker":"C"}]}"#).unwrap();
    assert_eq!(kalshi_markets::take_page(&mut all, last), None);
    assert_eq!(kalshi_markets::take_page(&mut all, Json::Null), None);
    let tickers: Vec<&str> = all.iter().filter_map(|m| json::str_field(m, "ticker")).collect();
    assert_eq!(tickers, vec!["A", "B", "C"]);
}

#[test]
fn events_are_numbered_in_turn() {
    let page = json::parse(
        r#"[{"count":3,"yes_price":42,"created_time":"2026-06-21T14:00:00Z"},
            {"count":4,"no_price":50,"created_time":"2026-06-21T14:00:01Z"}]"#,
    )
    .unwrap();
    let items = page.as_array().unwrap();
    let (ticks, _) = kalshi_markets::take_trades(items, "kalshi.T.YES", 0, 7);
    let mut seq = 5;
    let evs = kalshi_markets::trade_events(&ticks, "T", 7, &mut seq);
    assert_eq!(evs.iter().map(|e| e.seq).collect::<Vec<_>>(), vec![5, 6]);
    assert_eq!(seq, 7);
    assert_eq!((evs[0].topic.as_str(), evs[0].source), ("market.kalshi.T.trade", "kalshi"));
    match &evs[0].payload {
        Payload::Trade(t) => assert_eq!((t.price, t.qty), (420_000, 3_000_000)),
        _ => panic!("no trade"),
    }
    let mut seq = u64::MAX;
    let meta = || MarketMeta {
        instrument: "x".into(),
        kind: "k".into(),
        status: MarketStatus::Live,
        start_ts_ns: None,
        expiry_ts_ns: None,
        winner: None,
        min_order_size: None,
        tick_size: None,
        fee_rate: None,
        strike: None,
    };
    let e = kalshi_markets::catalog_event(meta(), 9, &mut seq);
    assert_eq!((e.topic.as_str(), e.seq, e.ts_ns, seq), ("market.kalshi.catalog", u64::MAX, 9, 0));
    let e = polymarket_markets::catalog_event(meta(), 9, &mut seq);
    assert_eq!((e.topic.as_str(), e.source, seq), ("market.polymarket.catalog", "poly", 1));
}

#[test]
fn the_money_is_between_the_quotes() {
    let b = BookUpdate {
        instrument: "databento.ES".into(),
        bids: vec![(10, 1)],
        asks: vec![(13, 1)],
        update_id: None,
        exch_ts_ns: 0,
        recv_ts_ns: 0,
    };
    assert_eq!(kalshi_markets::money_mid(&b, "databento.ES"), Some(23));
    assert_eq!(kalshi_markets::money_mid(&b, "databento.CL"), None);
}

// ---- over a run -------------------------------------------------------------------------

#[test]
fn a_market_lives_once() {
    let cfg = PolyCfg::default();
    let mut r = polymarket_markets::Registry::new();
    let mut told = Vec::new();
    told.extend(r.take_up(found("s-1200", 1_200), 1_000 * S, "5m_updown").map(|e| e.status));
    for t in 1_001..2_000 {
        told.extend(r.take_up(found("s-1200", 1_200), t * S, "5m_updown").map(|e| e.status));
        told.extend(r.tick(t * S, &cfg).into_iter().map(|e| e.status));
        if t >= 1_500 {
            break;
        }
    }
    assert_eq!(told, vec![MarketStatus::Upcoming, MarketStatus::Live, MarketStatus::Expired]);
}

#[test]
fn dates_stand_in_the_order_of_time() {
    let at = [i64::MIN, -1, 0, 86_399 * S, 86_400 * S, 1_709_164_800 * S, i64::MAX];
    let dates: Vec<String> = at.iter().map(|&t| date_utc(t)).collect();
    assert!(dates.windows(2).all(|w| w[0] <= w[1]), "{:?}", dates);
    assert_eq!(dates[2], dates[3]);
    assert!(dates[3] < dates[4]);
    assert_eq!((dates[0].as_str(), dates[6].as_str()), ("1677-09-21", "2262-04-11"));
}

#[test]
fn a_row_of_a_market_that_is_over_needs_no_prices() {
    let c = read_header(
        "ts_ms,ticker,tte_ms,ybid,yask,cb_bid,cb_ask,cb_age_ms,perp_bid,perp_ask,perp_bid_sz,perp_ask_sz",
    )
    .unwrap();
    let row = read_row("1000,K,0", &c).unwrap();
    assert_eq!((row.ts_ms, row.ticker.as_str(), row.tte_ms, row.yes), (1000, "K", 0, (0, 0)));
    assert!(read_row("1000,K,5", &c).is_none());
    assert!(read_row("1000,K", &c).is_none());
}

#[test]
fn requests_name_a_browser() {
    let agent = PolyCfg::default().user_agent;
    assert!(agent.starts_with("Mozilla/5.0 (Windows NT 10.0; Win64; x64)"));
    assert!(agent.ends_with("(KHTML, like Gecko) Chrome/120.0 Safari/537.36"));
}
