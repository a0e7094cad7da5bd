//! Which venue prints a change first: the top of several books at once, with the
//! exchange's time and our own for every update. Only watched, never traded on.
use vstd::prelude::*;
use crate::json;
use crate::json::{str_field, Json};
use crate::json::JsonV;
use crate::numeral;
use crate::numeral::{i64_text, micros_to_text, parse_micros};
use crate::text::{joined, same};

verus! {

/// One top-of-book feed.
#[derive(Debug)]
pub struct FeedCfg {
    /// "binance", "bybit" or "okx".
    pub venue: String,
    /// "perp" or "spot": a label only.
    pub market: String,
    pub symbol: String,
    pub url: String,
}

/// The probe's settings.
#[derive(Debug)]
pub struct VenueLatCfg {
    pub enabled: bool,
    pub socks_proxy: Option<String>,
    pub out_path: String,
    /// How many samples may wait for the writer; further ones are dropped.
    pub queue: usize,
    pub stale_timeout_s: u64,
    pub reconnect_base_ms: u64,
    pub reconnect_max_ms: u64,
    pub feeds: Vec<FeedCfg>,
}

impl Default for VenueLatCfg {
    fn default() -> (r: VenueLatCfg)
        ensures
            !r.enabled,
            r.socks_proxy is Some && r.socks_proxy->0@ == "127.0.0.1:1081"@,
            r.out_path@ == "data/venue_latency.csv"@,
            r.queue == 16384,
            r.stale_timeout_s == 60,
            r.reconnect_base_ms == 500,
            r.reconnect_max_ms == 30_000,
            r.feeds@.len() == 0,
    {
        VenueLatCfg {
            enabled: false,
            socks_proxy: Some("127.0.0.1:1081".to_string()),
            out_path: "data/venue_latency.csv".to_string(),
            queue: 16384,
            stale_timeout_s: 60,
            reconnect_base_ms: 500,
            reconnect_max_ms: 30_000,
            feeds: Vec::new(),
        }
    }
}

/// Whether there is anything to probe.
pub fn wanted(cfg: &VenueLatCfg) -> (r: bool)
    ensures
        r == (cfg.enabled && cfg.feeds@.len() > 0),
{
    cfg.enabled && cfg.feeds.len() > 0
}

/// One update of a top of book.
#[derive(Debug)]
pub struct Sample {
    pub recv_ts_ns: i64,
    /// The exchange's time, where the venue gives it.
    pub exch_ts_ns: Option<i64>,
    pub venue: String,
    pub market: String,
    pub symbol: String,
    pub bid: i64,
    pub ask: i64,
}

/// The price that a text field spells.
pub open spec fn text_price(v: JsonV, k: Seq<char>) -> Option<i64> {
    match v.field(k) {
        Some(JsonV::Str(t)) => json::fit64(numeral::micros(t)),
        _ => None,
    }
}

/// The price of the first level of a ladder whose prices are texts.
pub open spec fn first_price(v: JsonV, k: Seq<char>) -> Option<i64> {
    match v.field(k) {
        Some(l) => match l.elem(0) {
            Some(x) => match x.elem(0) {
                Some(JsonV::Str(t)) => json::fit64(numeral::micros(t)),
                _ => None,
            },
            None => None,
        },
        None => None,
    }
}

/// The first of two fields that is there.
pub open spec fn first_field(v: JsonV, a: Seq<char>, b: Seq<char>) -> Option<JsonV> {
    match v.field(a) {
        Some(x) => Some(x),
        None => v.field(b),
    }
}

/// Milliseconds as nanoseconds, where the value is a number.
pub open spec fn stamp(v: Option<JsonV>) -> Option<i64> {
    match v {
        Some(x) => x.number(),
        None => None,
    }
}

/// The exchange's time, the bid and the ask that a frame of a venue gives: the time of the
/// matching engine before that of the publisher.
pub open spec fn frame_of(venue: Seq<char>, v: JsonV) -> Option<(Option<i64>, i64, i64)> {
    if venue == "binance"@ {
        let d = match v.field("data"@) {
            Some(x) => x,
            None => v,
        };
        match (text_price(d, "b"@), text_price(d, "a"@)) {
            (Some(b), Some(a)) => Some((stamp(first_field(d, "T"@, "E"@)), b, a)),
            _ => None,
        }
    } else if venue == "bybit"@ {
        match v.field("data"@) {
            Some(d) => match (first_price(d, "b"@), first_price(d, "a"@)) {
                (Some(b), Some(a)) => Some((stamp(first_field(v, "cts"@, "ts"@)), b, a)),
                _ => None,
            },
            None => None,
        }
    } else if venue == "okx"@ {
        match json::at(Some(v), "data"@) {
            Some(l) => match l.elem(0) {
                Some(d) => match (first_price(d, "bids"@), first_price(d, "asks"@)) {
                    (Some(b), Some(a)) => Some((text_price(d, "ts"@), b, a)),
                    _ => None,
                },
                None => None,
            },
            None => None,
        }
    } else {
        None
    }
}

fn sf(v: &Json, k: &str) -> (r: Option<i64>)
    ensures
        r == text_price(v@, k@),
{
    match v.get(k) {
        Some(Json::Str(t)) => parse_micros(t.as_str()),
        _ => None,
    }
}

fn lvl0(v: &Json, k: &str) -> (r: Option<i64>)
    ensures
        r == first_price(v@, k@),
{
    match v.get(k) {
        Some(l) => match l.idx(0) {
            Some(x) => match x.idx(0) {
                Some(Json::Str(t)) => parse_micros(t.as_str()),
                _ => None,
            },
            None => None,
        },
        None => None,
    }
}

fn stamp_in(v: &Json, a: &str, b: &str) -> (r: Option<i64>)
    ensures
        r == stamp(first_field(v@, a@, b@)),
{
    let x = match v.get(a) {
        Some(x) => Some(x),
        None => v.get(b),
    };
    match x {
        Some(y) => y.as_micros(),
        None => None,
    }
}

/// Reads a frame that is JSON already.
pub fn read_frame(venue: &str, v: &Json) -> (r: Option<(Option<i64>, i64, i64)>)
    ensures
        r == frame_of(venue@, v@),
{
    if same(venue, "binance") {
        let d = match v.get("data") {
            Some(x) => x,
            None => v,
        };
        match (sf(d, "b"), sf(d, "a")) {
            (Some(b), Some(a)) => Some((stamp_in(d, "T", "E"), b, a)),
            _ => None,
        }
    } else if same(venue, "bybit") {
        match v.get("data") {
            Some(d) => match (lvl0(d, "b"), lvl0(d, "a")) {
                (Some(b), Some(a)) => Some((stamp_in(v, "cts", "ts"), b, a)),
                _ => None,
            },
            None => None,
        }
    } else if same(venue, "okx") {
        match v.get("data") {
            Some(l) => match l.idx(0) {
                Some(d) => match (lvl0(d, "bids"), lvl0(d, "asks")) {
                    (Some(b), Some(a)) => Some((sf(d, "ts"), b, a)),
                    _ => None,
                },
                None => None,
            },
            None => None,
        }
    } else {
        None
    }
}

/// The sample that a frame gives; control frames give none.
pub fn parse(venue: &str, symbol: &str, market: &str, txt: &str, recv_ts_ns: i64) -> (r: Option<
    Sample,
>)
    ensures
        ({
            let f = match json::json_text(txt@) {
                Some(v) => frame_of(venue@, v),
                None => None,
            };
            match r {
                Some(s) => {
                    &&& f == Some((s.exch_ts_ns, s.bid, s.ask))
                    &&& s.recv_ts_ns == recv_ts_ns
                    &&& s.venue@ == venue@
                    &&& s.market@ == market@
                    &&& s.symbol@ == symbol@
                },
                None => f is None,
            }
        }),
{
    let v = match json::parse(txt) {
        Some(v) => v,
        None => {
            return None;
        },
    };
    match read_frame(venue, &v) {
        Some((exch_ts_ns, bid, ask)) => Some(
            Sample {
                recv_ts_ns,
                exch_ts_ns,
                venue: venue.to_string(),
                market: market.to_string(),
                symbol: symbol.to_string(),
                bid,
                ask,
            },
        ),
        None => None,
    }
}

/// The frame that subscribes to a feed, for the venues that need one.
pub fn sub_frame(venue: &str, symbol: &str) -> (r: Option<String>)
    ensures
        match r {
            Some(f) => {
                ||| venue@ == "bybit"@ && f@ == "{\"op\":\"subscribe\",\"args\":[\"orderbook.1."@
                    + symbol@ + "\"]}"@
                ||| venue@ == "okx"@ && venue@ != "bybit"@ && f@
                    == "{\"op\":\"subscribe\",\"args\":[{\"channel\":\"bbo-tbt\",\"instId\":\""@
                    + symbol@ + "\"}]}"@
            },
            None => venue@ != "bybit"@ && venue@ != "okx"@,
        },
{
    if same(venue, "bybit") {
        let a = joined("{\"op\":\"subscribe\",\"args\":[\"orderbook.1.", symbol);
        Some(joined(a.as_str(), "\"]}"))
    } else if same(venue, "okx") {
        let a = joined(
            "{\"op\":\"subscribe\",\"args\":[{\"channel\":\"bbo-tbt\",\"instId\":\"",
            symbol,
        );
        Some(joined(a.as_str(), "\"}]}"))
    } else {
        None
    }
}

/// Whether a venue is one that can be probed.
pub fn known_venue(venue: &str) -> (r: bool)
    ensures
        r == (venue@ == "binance"@ || venue@ == "bybit"@ || venue@ == "okx"@),
{
    same(venue, "binance") || same(venue, "bybit") || same(venue, "okx")
}

/// The columns of the log.
pub open spec fn csv_row(s: Sample) -> Seq<char> {
    numeral::int_text(s.recv_ts_ns as int) + ","@ + (match s.exch_ts_ns {
        Some(t) => numeral::int_text(t as int),
        None => Seq::empty(),
    }) + ","@ + s.venue@ + ","@ + s.market@ + ","@ + s.symbol@ + ","@ + numeral::micros_text(
        s.bid as int,
    ) + ","@ + numeral::micros_text(s.ask as int)
}

/// One row of the log.
pub fn csv_line(s: &Sample) -> (r: String)
    ensures
        r@ == csv_row(*s),
{
    let mut r = i64_text(s.recv_ts_ns);
    r.append(",");
    if let Some(t) = s.exch_ts_ns {
        r.append(i64_text(t).as_str());
    }
    r.append(",");
    r.append(s.venue.as_str());
    r.append(",");
    r.append(s.market.as_str());
    r.append(",");
    r.append(s.symbol.as_str());
    r.append(",");
    r.append(micros_to_text(s.bid).as_str());
    r.append(",");
    r.append(micros_to_text(s.ask).as_str());
    assert(r@ =~= csv_row(*s));
    r
}

/// What a frame of each venue gives: the bid, then the ask, with the time of the matching
/// engine before that of the publisher.
pub proof fn law_frames_by_venue(v: JsonV, d: JsonV, l: JsonV, b: i64, a: i64)
    ensures
        v.field("data"@) == Some(d) && text_price(d, "b"@) == Some(b) && text_price(d, "a"@)
            == Some(a) ==> (frame_of("binance"@, v) matches Some(x) && x.1 == b && x.2 == a && (
        d.field("T"@) is Some ==> x.0 == stamp(d.field("T"@)))),
        v.field("data"@) == Some(d) && first_price(d, "b"@) == Some(b) && first_price(d, "a"@)
            == Some(a) ==> (frame_of("bybit"@, v) matches Some(x) && x.1 == b && x.2 == a && (
        v.field("cts"@) is Some ==> x.0 == stamp(v.field("cts"@)))),
        json::at(Some(v), "data"@) == Some(l) && l.elem(0) == Some(d) && first_price(d, "bids"@)
            == Some(b) && first_price(d, "asks"@) == Some(a) ==> (frame_of(
            "okx"@,
            v,
        ) matches Some(x) && x.1 == b && x.2 == a && x.0 == text_price(d, "ts"@)),
{
    reveal_strlit("binance");
    reveal_strlit("bybit");
    reveal_strlit("okx");
    assert("binance"@.len() == 7 && "bybit"@.len() == 5 && "okx"@.len() == 3);
}

} // verus!
