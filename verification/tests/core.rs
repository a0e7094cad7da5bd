//! Topics, conflation, routing, texts, numbers, dates and keys.
use arb::bus::{key_by_instrument, seg_match, Conflate, Ports, Router};
use arb::event::{Event, Payload};
use arb::json;
use arb::model::{BookUpdate, LegSummary, TradeTick, Side};
use arb::numeral::{micros_to_text, one_place_text, parse_i64, parse_micros, parse_size, three_places_text, two_places_text};
use arb::strmap::StrMap;

fn p(s: &str) -> Vec<String> {
    s.split('.').map(String::from).collect()
}

fn book(inst: &str) -> Event {
    Event::new("market.x.book".into(), "test", 0, 0, Payload::Book(BookUpdate {
        instrument: inst.into(),
        bids: vec![],
        asks: vec![],
        update_id: None,
        exch_ts_ns: 0,
        recv_ts_ns: 0,
    }))
}

fn trade(inst: &str) -> Event {
    Event::new("market.x.trade".into(), "test", 0, 0, Payload::Trade(TradeTick {
        instrument: inst.into(),
        price: 1,
        qty: 1,
        side: Side::Buy,
        exch_ts_ns: 0,
        recv_ts_ns: 0,
    }))
}

#[test]
fn exact_and_wildcards() {
    assert!(seg_match(&p("market.binance.book"), &p("market.binance.book")));
    assert!(seg_match(&p("market.*.book"), &p("market.binance.book")));
    assert!(!seg_match(&p("market.*.book"), &p("market.binance.trade")));
    assert!(seg_match(&p("market.#"), &p("market.binance.usdt_perp.BTCUSDT.book")));
    assert!(seg_match(&p("signal.#"), &p("signal.perp_move")));
    assert!(!seg_match(&p("market.#"), &p("signal.perp_move")));
    assert!(seg_match(&p("market.#"), &p("market")));
}

#[test]
fn conflate_keeps_latest_per_key_in_order() {
    let mut c: Conflate<&str> = Conflate::new();
    c.push(1, "a");
    c.push(2, "b");
    c.push(1, "a2");
    assert_eq!(c.try_pop(), Some("a2"));
    assert_eq!(c.try_pop(), Some("b"));
    assert!(c.try_pop().is_none());
}

#[test]
fn keys_tell_kinds_and_instruments_apart() {
    assert_eq!(key_by_instrument(&book("a")), key_by_instrument(&book("a")));
    assert_ne!(key_by_instrument(&book("a")), key_by_instrument(&book("b")));
    assert_ne!(key_by_instrument(&book("a")), key_by_instrument(&trade("a")));
}

#[test]
fn events_go_to_the_matching_subscribers_that_are_still_there() {
    let mut r = Router::new();
    let a = r.subscribe("market.#").unwrap();
    let b = r.subscribe("signal.*").unwrap();
    let c = r.subscribe("#").unwrap();
    assert_eq!(r.publish("market.binance.book", &vec![a, b, c]), vec![a, c]);
    assert_eq!(r.publish("signal.perp_move", &vec![a, b]), vec![b]);
    // who is gone once stays gone
    assert_eq!(r.publish("signal.perp_move", &vec![a, b, c]), vec![b]);
    r.retain_live(&vec![a]);
    assert_eq!(r.publish("signal.perp_move", &vec![a, b, c]), Vec::<u64>::new());
    let b = r.subscribe("signal.*").unwrap();
    assert_eq!(r.publish("signal.perp_move.x", &vec![a, b]), Vec::<u64>::new());
}

#[test]
fn a_port_has_one_owner() {
    let mut ports = Ports::new();
    assert!(ports.claim_port("exec", 1));
    assert!(!ports.claim_port("exec", 2));
    assert_eq!(ports.owner_of("exec"), Some(1));
    assert_eq!(ports.owner_of("other"), None);
}

#[test]
fn json_is_read_by_kind() {
    let j = json::parse(r#"{"a":1.25,"b":"0.5","c":[true,null],"d":7}"#).unwrap();
    assert_eq!(j.get("a").unwrap().as_micros(), Some(1_250_000));
    assert_eq!(json::amount_field(&j, "b"), Some(500_000));
    assert_eq!(json::str_field(&j, "b"), Some("0.5"));
    assert_eq!(json::i64_field(&j, "d"), Some(7));
    assert_eq!(j.get("c").unwrap().idx(0).unwrap().as_bool(), Some(true));
    assert!(j.get("zz").is_none());
    assert!(json::parse("{").is_none());
}

#[test]
fn numbers_are_read_and_written() {
    assert_eq!(parse_micros("0.48"), Some(480_000));
    assert_eq!(parse_micros("-1.5e2"), Some(-150_000_000));
    assert_eq!(parse_micros("0.0000005"), Some(1));
    assert_eq!(parse_micros("x"), None);
    assert_eq!(parse_micros("0e9999999999999999999999999999"), Some(0));
    assert_eq!(parse_micros("12e-9999999999999999999999999999"), Some(0));
    assert_eq!(parse_micros("1e9999999999999999999999999999"), None);
    assert_eq!(parse_micros("1e"), None);
    assert_eq!(parse_i64("-42"), Some(-42));
    assert_eq!(parse_i64("9223372036854775808"), None);
    assert_eq!(micros_to_text(63_000_100_000), "63000.1");
    assert_eq!(two_places_text(480_000), "0.48");
    assert_eq!(one_place_text(1_260_000), "1.3");
    assert_eq!(three_places_text(-1_500), "-0.002");
}

#[test]
fn iso_times_are_read() {
    assert_eq!(arb::datetime::iso_ns("2024-01-01T00:00:00Z"), Some(1_704_067_200_000_000_000));
    assert_eq!(arb::datetime::iso_ms("2024-01-01T00:00:00.250+00:00"), Some(1_704_067_200_250));
    assert_eq!(arb::datetime::iso_ns("2024-01-01T01:00:00+01:00"), Some(1_704_067_200_000_000_000));
    assert_eq!(arb::datetime::iso_ns("yesterday"), None);
}

#[test]
fn vwap_is_the_cost_per_unit() {
    let mut l = LegSummary::default();
    assert_eq!(l.vwap(), 0);
    l.qty = 2_000_000;
    l.notional = 1_000_000_000_000;
    assert_eq!(l.vwap(), 500_000);
}

#[test]
fn maps_keep_one_value_per_key() {
    let mut s: StrMap<i64> = StrMap::new();
    s.insert("a".into(), 1);
    s.insert("b".into(), 2);
    s.insert("a".into(), 3);
    assert_eq!(s.len(), 2);
    assert_eq!(s.get("a"), Some(&3));
    assert_eq!(s.remove("a"), Some(3));
    assert!(!s.contains("a"));
}

#[test]
fn the_clock_tells_both_units() {
    let a = arb::clock::now_ns();
    let b = arb::clock::now_ms();
    assert!(b - a / 1_000_000 < 60_000 && b - a / 1_000_000 > -60_000);
}

#[test]
fn what_waits_is_the_last_of_each_key() {
    let mut c: Conflate<i64> = Conflate::new();
    let pushes = [(3, 1), (1, 2), (3, 3), (2, 4), (1, 5), (3, 6)];
    for (k, x) in pushes {
        c.push(k, x);
    }
    assert_eq!((c.try_pop(), c.try_pop()), (Some(6), Some(5)));
    // a key that was taken out waits at the end again
    c.push(3, 7);
    assert_eq!((c.try_pop(), c.try_pop(), c.try_pop()), (Some(4), Some(7), None));
}

#[test]
fn stamps_fit_their_type() {
    assert_eq!(arb::clock::nanos_of(None), 0);
    assert_eq!(arb::clock::nanos_of(Some(7)), 7);
    assert_eq!(arb::clock::nanos_of(Some(u128::MAX)), i64::MAX);
}

#[test]
fn a_size_that_is_there_stays_there() {
    assert_eq!(parse_size("0.0000004"), Some(1));
    assert_eq!(parse_size("-4e-7"), Some(-1));
    assert_eq!(parse_size("0.000"), Some(0));
    assert_eq!(parse_size("0e5"), Some(0));
    assert_eq!(parse_size("1.2345674"), Some(1_234_567));
    assert_eq!(parse_size("one"), None);
    assert_eq!(parse_micros("0.0000004"), Some(0));
}
