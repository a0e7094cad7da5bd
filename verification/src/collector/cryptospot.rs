//! Tops of book of the spot venues.
use vstd::prelude::*;
use crate::event::{Event, Payload};
use crate::fixed;
use crate::fixed::sat;
use crate::json;
use crate::json::{amount_field, size_field, str_field, Json};
use crate::json::JsonV;
use crate::model::BookUpdate;
use crate::numeral;
use crate::numeral::parse_i64;
use crate::text;
use crate::text::{chars_of, find_char, joined, same, string_of_range};

verus! {

/// The collectors' settings.
#[derive(Debug)]
pub struct CryptoSpotCfg {
    pub enabled: bool,
    pub coinbase: bool,
    pub binanceus: bool,
    pub kraken: bool,
    pub bitstamp: bool,
    pub gemini: bool,
    /// Quoted in USDT: its prices carry a basis that those of the other venues do not.
    pub okx: bool,
    pub coinbase_product: String,
    pub binanceus_symbol: String,
    pub kraken_symbol: String,
    pub bitstamp_symbol: String,
    pub gemini_symbol: String,
    pub okx_symbol: String,
    pub reconnect_base_ms: u64,
    pub reconnect_max_ms: u64,
    pub stale_timeout_s: u64,
}

impl Default for CryptoSpotCfg {
    fn default() -> (r: CryptoSpotCfg)
        ensures
            !r.enabled,
            r.coinbase && r.binanceus && r.kraken && r.bitstamp && r.gemini && r.okx,
            r.coinbase_product@ == "BTC-USD"@,
            r.binanceus_symbol@ == "btcusd"@,
            r.kraken_symbol@ == "BTC/USD"@,
            r.bitstamp_symbol@ == "btcusd"@,
            r.gemini_symbol@ == "btcusd"@,
            r.okx_symbol@ == "BTC-USDT"@,
            r.reconnect_base_ms == 1000,
            r.reconnect_max_ms == 30000,
            r.stale_timeout_s == 30,
    {
        CryptoSpotCfg {
            enabled: false,
            coinbase: true,
            binanceus: true,
            kraken: true,
            bitstamp: true,
            gemini: true,
            okx: true,
            coinbase_product: "BTC-USD".to_string(),
            binanceus_symbol: "btcusd".to_string(),
            kraken_symbol: "BTC/USD".to_string(),
            bitstamp_symbol: "btcusd".to_string(),
            gemini_symbol: "btcusd".to_string(),
            okx_symbol: "BTC-USDT".to_string(),
            reconnect_base_ms: 1000,
            reconnect_max_ms: 30000,
            stale_timeout_s: 30,
        }
    }
}

/// The top of a book.
#[derive(Clone, Copy, Debug, PartialEq, Eq, Structural)]
pub struct Top {
    pub bid: i64,
    pub bid_sz: i64,
    pub ask: i64,
    pub ask_sz: i64,
    /// The exchange's time, where it gives one.
    pub exch_ns: Option<i64>,
}

/// What a frame comes to.
#[derive(Clone, Copy, Debug)]
pub enum Frame {
    /// Nothing to publish.
    Skip,
    /// A top of book.
    Quote(Top),
    /// The session is over.
    Reconnect,
}

/// A size that is zero where it is missing.
pub open spec fn size_or_zero(v: Option<JsonV>) -> i64 {
    match json::size_at(v) {
        Some(x) => x,
        None => 0,
    }
}

/// The top that four fields give: both prices have to be there.
pub open spec fn quote(d: JsonV, b: Seq<char>, bq: Seq<char>, a: Seq<char>, aq: Seq<char>) -> Option<
    Top,
> {
    match (json::amount_at(d.field(b)), json::amount_at(d.field(a))) {
        (Some(bid), Some(ask)) => Some(
            Top {
                bid,
                bid_sz: size_or_zero(d.field(bq)),
                ask,
                ask_sz: size_or_zero(d.field(aq)),
                exch_ns: None,
            },
        ),
        _ => None,
    }
}

fn read_size(d: &Json, k: &str) -> (r: i64)
    ensures
        r == size_or_zero(d@.field(k@)),
{
    match size_field(d, k) {
        Some(x) => x,
        None => 0,
    }
}

fn read_quote(d: &Json, b: &str, bq: &str, a: &str, aq: &str) -> (r: Option<Top>)
    ensures
        r == quote(d@, b@, bq@, a@, aq@),
{
    match (amount_field(d, b), amount_field(d, a)) {
        (Some(bid), Some(ask)) => Some(
            Top { bid, bid_sz: read_size(d, bq), ask, ask_sz: read_size(d, aq), exch_ns: None },
        ),
        _ => None,
    }
}

/// Reads a frame of Coinbase: a `ticker`.
pub fn coinbase_top(v: &Json) -> (r: Option<Top>)
    ensures
        r == (if json::text_at(v@.field("type"@)) == Some("ticker"@) {
            quote(v@, "best_bid"@, "best_bid_size"@, "best_ask"@, "best_ask_size"@)
        } else {
            None
        }),
{
    match str_field(v, "type") {
        Some(t) => if same(t, "ticker") {
            read_quote(v, "best_bid", "best_bid_size", "best_ask", "best_ask_size")
        } else {
            None
        },
        None => None,
    }
}

/// Reads a frame of Binance.US.
pub fn binanceus_top(v: &Json) -> (r: Option<Top>)
    ensures
        r == quote(v@, "b"@, "B"@, "a"@, "A"@),
{
    read_quote(v, "b", "B", "a", "A")
}

/// Reads a frame of Kraken: a `ticker`, whose first entry counts.
pub fn kraken_top(v: &Json) -> (r: Option<Top>)
    ensures
        r == (if json::text_at(v@.field("channel"@)) == Some("ticker"@) {
            match v@.field("data"@) {
                Some(l) => match l.elem(0) {
                    Some(d) => quote(d, "bid"@, "bid_qty"@, "ask"@, "ask_qty"@),
                    None => None,
                },
                None => None,
            }
        } else {
            None
        }),
{
    match str_field(v, "channel") {
        Some(t) => if same(t, "ticker") {
            match v.get("data") {
                Some(l) => match l.idx(0) {
                    Some(d) => read_quote(d, "bid", "bid_qty", "ask", "ask_qty"),
                    None => None,
                },
                None => None,
            }
        } else {
            None
        },
        None => None,
    }
}

/// The first level of a ladder: its price has to be there.
pub open spec fn first_level(d: JsonV, side: Seq<char>) -> Option<(i64, i64)> {
    match d.field(side) {
        Some(l) => match l.elem(0) {
            Some(x) => match json::amount_at(x.elem(0)) {
                Some(p) => Some((p, size_or_zero(x.elem(1)))),
                None => None,
            },
            None => None,
        },
        None => None,
    }
}

/// A count of time in a text, in nanoseconds.
pub open spec fn stamp(v: Option<JsonV>, unit_ns: int) -> Option<i64> {
    match json::text_at(v) {
        Some(t) => match json::fit64(numeral::signed_value(t)) {
            Some(x) => Some(fixed::clamp64(x * unit_ns) as i64),
            None => None,
        },
        None => None,
    }
}

/// The top of two ladders, with the time in a field.
pub open spec fn ladder_top(d: JsonV, clock: Seq<char>, unit_ns: int) -> Option<Top> {
    match (first_level(d, "bids"@), first_level(d, "asks"@)) {
        (Some(b), Some(a)) => Some(
            Top {
                bid: b.0,
                bid_sz: b.1,
                ask: a.0,
                ask_sz: a.1,
                exch_ns: stamp(d.field(clock), unit_ns),
            },
        ),
        _ => None,
    }
}

fn read_level(d: &Json, side: &str) -> (r: Option<(i64, i64)>)
    ensures
        r == first_level(d@, side@),
{
    match d.get(side) {
        Some(l) => match l.idx(0) {
            Some(x) => match x.idx(0) {
                Some(p) => match p.amount() {
                    Some(px) => {
                        let sz: i64 = match x.idx(1) {
                            Some(q) => match q.size() {
                                Some(s) => s,
                                None => 0,
                            },
                            None => 0,
                        };
                        Some((px, sz))
                    },
                    None => None,
                },
                None => None,
            },
            None => None,
        },
        None => None,
    }
}

fn read_ladders(d: &Json, clock: &str, unit_ns: i64) -> (r: Option<Top>)
    requires
        0 < unit_ns <= 1_000_000,
    ensures
        r == ladder_top(d@, clock@, unit_ns as int),
{
    match (read_level(d, "bids"), read_level(d, "asks")) {
        (Some(b), Some(a)) => {
            let exch_ns: Option<i64> = match str_field(d, clock) {
                Some(t) => match parse_i64(t) {
                    Some(x) => {
                        let y: i128 = fixed::product(x, unit_ns);
                        Some(sat(y))
                    },
                    None => None,
                },
                None => None,
            };
            Some(Top { bid: b.0, bid_sz: b.1, ask: a.0, ask_sz: a.1, exch_ns })
        },
        _ => None,
    }
}

/// What a frame of Bitstamp comes to: its books carry the server's time in microseconds.
pub open spec fn bitstamp_frame_of(v: JsonV) -> Frame {
    let e = json::text_at(v.field("event"@));
    if e == Some("bts:request_reconnect"@) {
        Frame::Reconnect
    } else if e == Some("data"@) {
        match v.field("data"@) {
            Some(d) => match ladder_top(d, "microtimestamp"@, 1_000) {
                Some(t) => Frame::Quote(t),
                None => Frame::Skip,
            },
            None => Frame::Skip,
        }
    } else {
        Frame::Skip
    }
}

/// Reads a frame of Bitstamp.
pub fn bitstamp_frame(v: &Json) -> (r: Frame)
    ensures
        r == bitstamp_frame_of(v@),
{
    let e = match str_field(v, "event") {
        Some(e) => e,
        None => {
            return Frame::Skip;
        },
    };
    if same(e, "bts:request_reconnect") {
        return Frame::Reconnect;
    }
    if !same(e, "data") {
        return Frame::Skip;
    }
    match v.get("data") {
        Some(d) => match read_ladders(d, "microtimestamp", 1_000) {
            Some(t) => Frame::Quote(t),
            None => Frame::Skip,
        },
        None => Frame::Skip,
    }
}

/// What a frame of OKX comes to: its books carry the server's time in milliseconds.
pub open spec fn okx_frame_of(v: JsonV) -> Frame {
    match json::text_at(v.field("event"@)) {
        Some(e) => if e == "error"@ {
            Frame::Reconnect
        } else {
            Frame::Skip
        },
        None => match v.field("data"@) {
            Some(l) => match l.elem(0) {
                Some(d) => match ladder_top(d, "ts"@, 1_000_000) {
                    Some(t) => Frame::Quote(t),
                    None => Frame::Skip,
                },
                None => Frame::Skip,
            },
            None => Frame::Skip,
        },
    }
}

/// Reads a frame of OKX.
pub fn okx_frame(v: &Json) -> (r: Frame)
    ensures
        r == okx_frame_of(v@),
{
    if let Some(e) = str_field(v, "event") {
        return if same(e, "error") {
            Frame::Reconnect
        } else {
            Frame::Skip
        };
    }
    match v.get("data") {
        Some(l) => match l.idx(0) {
            Some(d) => match read_ladders(d, "ts", 1_000_000) {
                Some(t) => Frame::Quote(t),
                None => Frame::Skip,
            },
            None => Frame::Skip,
        },
        None => Frame::Skip,
    }
}

/// The best quotes of Gemini, whose frames only tell what changed.
#[derive(Clone, Copy, Debug, PartialEq, Eq, Structural)]
pub struct Bbo {
    pub bid: i64,
    pub bid_sz: i64,
    pub ask: i64,
    pub ask_sz: i64,
}

/// One side of the quotes that an event replaces: which, at what price and size.
pub open spec fn gemini_change(e: JsonV) -> Option<(bool, i64, i64)> {
    let side = json::text_at(e.field("side"@));
    match (json::amount_at(e.field("price"@)), json::size_at(e.field("remaining"@))) {
        (Some(p), Some(q)) => if json::text_at(e.field("type"@)) != Some("change"@) {
            None
        } else if side == Some("bid"@) {
            Some((true, p, q))
        } else if side == Some("ask"@) {
            Some((false, p, q))
        } else {
            None
        },
        _ => None,
    }
}

/// The quotes after some events, and whether any of them changed one.
pub open spec fn after_events(b: Bbo, es: Seq<JsonV>) -> (Bbo, bool)
    decreases es.len(),
{
    if es.len() == 0 {
        (b, false)
    } else {
        let (x, changed) = after_events(b, es.drop_last());
        match gemini_change(es.last()) {
            Some((true, p, q)) => (Bbo { bid: p, bid_sz: q, ..x }, true),
            Some((false, p, q)) => (Bbo { ask: p, ask_sz: q, ..x }, true),
            None => (x, changed),
        }
    }
}

/// The events of a frame.
pub open spec fn gemini_events(v: JsonV) -> Seq<JsonV> {
    if json::text_at(v.field("type"@)) == Some("update"@) {
        match v.field("events"@) {
            Some(JsonV::Arr(a)) => a,
            _ => Seq::empty(),
        }
    } else {
        Seq::empty()
    }
}

fn read_change(e: &Json) -> (r: Option<(bool, i64, i64)>)
    ensures
        r == gemini_change(e@),
{
    proof {
        reveal_strlit("bid");
        reveal_strlit("ask");
        assert("bid"@[0] != "ask"@[0]);
    }
    match str_field(e, "type") {
        Some(t) => if !same(t, "change") {
            return None;
        },
        None => {
            return None;
        },
    }
    match (amount_field(e, "price"), size_field(e, "remaining")) {
        (Some(p), Some(q)) => match str_field(e, "side") {
            Some(s) => if same(s, "bid") {
                Some((true, p, q))
            } else if same(s, "ask") {
                Some((false, p, q))
            } else {
                None
            },
            None => None,
        },
        _ => None,
    }
}

impl Bbo {
    /// No quotes yet.
    pub fn new() -> (r: Bbo)
        ensures
            r == (Bbo { bid: 0, bid_sz: 0, ask: 0, ask_sz: 0 }),
    {
        Bbo { bid: 0, bid_sz: 0, ask: 0, ask_sz: 0 }
    }

    /// Takes a frame in; gives the quotes where they changed and both sides are known.
    pub fn take_frame(&mut self, v: &Json) -> (r: Option<Top>)
        ensures
            ({
                let (b, changed) = after_events(*old(self), gemini_events(v@));
                &&& *final(self) == b
                &&& r == (if changed && b.bid > 0 && b.ask > 0 {
                    Some(
                        Top {
                            bid: b.bid,
                            bid_sz: b.bid_sz,
                            ask: b.ask,
                            ask_sz: b.ask_sz,
                            exch_ns: None,
                        },
                    )
                } else {
                    None
                })
            }),
    {
        match str_field(v, "type") {
            Some(t) => if !same(t, "update") {
                return None;
            },
            None => {
                return None;
            },
        }
        let l = match v.get("events") {
            Some(l) => l,
            None => {
                return None;
            },
        };
        let a = match l.as_array() {
            Some(a) => a,
            None => {
                return None;
            },
        };
        let ghost es = l@.items()->0;
        let ghost b0 = *self;
        let mut changed: bool = false;
        let mut i: usize = 0;
        assert(es.take(0) =~= Seq::<JsonV>::empty());
        while i < a.len()
            invariant
                es.len() == a@.len(),
                forall|j: int| 0 <= j < a@.len() ==> #[trigger] es[j] == a@[j]@,
                i <= a@.len(),
                (*self, changed) == after_events(b0, es.take(i as int)),
            decreases a@.len() - i,
        {
            assert(es.take(i + 1).drop_last() =~= es.take(i as int));
            assert(es.take(i + 1).last() == es[i as int]);
            if let Some((is_bid, p, q)) = read_change(&a[i]) {
                changed = true;
                if is_bid {
                    self.bid = p;
                    self.bid_sz = q;
                } else {
                    self.ask = p;
                    self.ask_sz = q;
                }
            }
            i = i + 1;
        }
        assert(es.take(es.len() as int) =~= es);
        if changed && self.bid > 0 && self.ask > 0 {
            Some(
                Top {
                    bid: self.bid,
                    bid_sz: self.bid_sz,
                    ask: self.ask,
                    ask_sz: self.ask_sz,
                    exch_ns: None,
                },
            )
        } else {
            None
        }
    }
}

/// A top of book as an event: `seq` counts from one, and a venue that gives no time is
/// taken at its word when it is heard.
pub fn book_event(venue: &'static str, symbol: &str, top: &Top, recv: i64, seq: &mut u64) -> (r:
    Event)
    ensures
        *final(seq) == (if *old(seq) < u64::MAX {
            (*old(seq) + 1) as u64
        } else {
            u64::MAX
        }),
        r.topic@ == "market."@ + venue@ + "."@ + symbol@ + ".book"@,
        r.source == venue,
        r.ts_ns == recv,
        r.seq == *final(seq),
        match r.payload {
            Payload::Book(b) => {
                &&& b.instrument@ == venue@ + "."@ + symbol@
                &&& b.bids@ == seq![(top.bid, top.bid_sz)]
                &&& b.asks@ == seq![(top.ask, top.ask_sz)]
                &&& b.update_id is None
                &&& b.exch_ts_ns == (match top.exch_ns {
                    Some(t) => t,
                    None => recv,
                })
                &&& b.recv_ts_ns == recv
            },
            _ => false,
        },
{
    *seq = seq.saturating_add(1);
    let vs = joined(joined(venue, ".").as_str(), symbol);
    let a = joined(joined("market.", venue).as_str(), ".");
    let b = joined(joined(a.as_str(), symbol).as_str(), ".book");
    let mut bids: Vec<(i64, i64)> = Vec::new();
    bids.push((top.bid, top.bid_sz));
    let mut asks: Vec<(i64, i64)> = Vec::new();
    asks.push((top.ask, top.ask_sz));
    Event {
        topic: b,
        source: venue,
        ts_ns: recv,
        seq: *seq,
        payload: Payload::Book(
            BookUpdate {
                instrument: vs,
                bids,
                asks,
                update_id: None,
                exch_ts_ns: match top.exch_ns {
                    Some(t) => t,
                    None => recv,
                },
                recv_ts_ns: recv,
            },
        ),
    }
}

/// The base of a product: what stands before its first dash.
pub fn base_of(product: &str) -> (r: String)
    ensures
        r@ == product@.take(text::first_at(product@, '-')),
{
    let v = chars_of(product);
    let i = find_char(&v, 0, '-');
    assert(product@.skip(0) =~= product@);
    let r = string_of_range(&v, 0, i);
    assert(r@ =~= product@.take(text::first_at(product@, '-')));
    r
}

/// Where the top of a symbol of Binance.US is streamed.
pub fn binanceus_url(symbol: &str) -> (r: String)
    ensures
        r@ == "wss://stream.binance.us:9443/ws/"@ + symbol@ + "@bookTicker"@,
{
    let a = joined("wss://stream.binance.us:9443/ws/", symbol);
    joined(a.as_str(), "@bookTicker")
}

/// Where the top of a symbol of Gemini is streamed.
pub fn gemini_url(symbol: &str) -> (r: String)
    ensures
        r@ == "wss://api.gemini.com/v1/marketdata/"@ + symbol@ + "?top_of_book=true"@,
{
    let a = joined("wss://api.gemini.com/v1/marketdata/", symbol);
    joined(a.as_str(), "?top_of_book=true")
}

fn one_text(s: &str) -> (r: Json)
    ensures
        r@ == JsonV::Arr(seq![JsonV::Str(s@)]),
{
    let mut v: Vec<Json> = Vec::new();
    v.push(json::string(s));
    assert(json::value_views(v@) =~= seq![JsonV::Str(s@)]);
    json::array(v)
}

/// The request that subscribes to a product of Coinbase.
pub fn coinbase_request(product: &str) -> (r: Json)
    ensures
        r@ == JsonV::Obj(
            seq![
                ("type"@, JsonV::Str("subscribe"@)),
                ("product_ids"@, JsonV::Arr(seq![JsonV::Str(product@)])),
                ("channels"@, JsonV::Arr(seq![JsonV::Str("ticker"@)])),
            ],
        ),
{
    let mut f: Vec<(String, Json)> = Vec::new();
    f.push(json::text_pair("type", "subscribe"));
    f.push(json::pair("product_ids", one_text(product)));
    f.push(json::pair("channels", one_text("ticker")));
    assert(json::field_views(f@) =~= seq![
        ("type"@, JsonV::Str("subscribe"@)),
        ("product_ids"@, JsonV::Arr(seq![JsonV::Str(product@)])),
        ("channels"@, JsonV::Arr(seq![JsonV::Str("ticker"@)])),
    ]);
    json::object(f)
}

/// The request that subscribes to a symbol of Kraken.
pub fn kraken_request(symbol: &str) -> (r: Json)
    ensures
        r@ == JsonV::Obj(
            seq![
                ("method"@, JsonV::Str("subscribe"@)),
                (
                    "params"@,
                    JsonV::Obj(
                        seq![
                            ("channel"@, JsonV::Str("ticker"@)),
                            ("symbol"@, JsonV::Arr(seq![JsonV::Str(symbol@)])),
                        ],
                    ),
                ),
            ],
        ),
{
    let mut p: Vec<(String, Json)> = Vec::new();
    p.push(json::text_pair("channel", "ticker"));
    p.push(json::pair("symbol", one_text(symbol)));
    assert(json::field_views(p@) =~= seq![
        ("channel"@, JsonV::Str("ticker"@)),
        ("symbol"@, JsonV::Arr(seq![JsonV::Str(symbol@)])),
    ]);
    let params = json::object(p);
    let ghost pv = params@;
    let mut f: Vec<(String, Json)> = Vec::new();
    f.push(json::text_pair("method", "subscribe"));
    f.push(json::pair("params", params));
    assert(json::field_views(f@) =~= seq![
        ("method"@, JsonV::Str("subscribe"@)),
        ("params"@, pv),
    ]);
    json::object(f)
}

/// The request that subscribes to the book of a symbol of Bitstamp.
pub fn bitstamp_request(symbol: &str) -> (r: Json)
    ensures
        r@ == JsonV::Obj(
            seq![
                ("event"@, JsonV::Str("bts:subscribe"@)),
                (
                    "data"@,
                    JsonV::Obj(seq![("channel"@, JsonV::Str("order_book_"@ + symbol@))]),
                ),
            ],
        ),
{
    let mut p: Vec<(String, Json)> = Vec::new();
    p.push(json::text_pair("channel", joined("order_book_", symbol).as_str()));
    assert(json::field_views(p@) =~= seq![
        ("channel"@, JsonV::Str("order_book_"@ + symbol@)),
    ]);
    let data = json::object(p);
    let ghost dv = data@;
    let mut f: Vec<(String, Json)> = Vec::new();
    f.push(json::text_pair("event", "bts:subscribe"));
    f.push(json::pair("data", data));
    assert(json::field_views(f@) =~= seq![("event"@, JsonV::Str("bts:subscribe"@)), ("data"@, dv)]);
    json::object(f)
}

/// The request that subscribes to the top of a symbol of OKX, tick by tick.
pub fn okx_request(symbol: &str) -> (r: Json)
    ensures
        r@ == JsonV::Obj(
            seq![
                ("op"@, JsonV::Str("subscribe"@)),
                (
                    "args"@,
                    JsonV::Arr(
                        seq![
                            JsonV::Obj(
                                seq![
                                    ("channel"@, JsonV::Str("bbo-tbt"@)),
                                    ("instId"@, JsonV::Str(symbol@)),
                                ],
                            ),
                        ],
                    ),
                ),
            ],
        ),
{
    let mut p: Vec<(String, Json)> = Vec::new();
    p.push(json::text_pair("channel", "bbo-tbt"));
    p.push(json::text_pair("instId", symbol));
    assert(json::field_views(p@) =~= seq![
        ("channel"@, JsonV::Str("bbo-tbt"@)),
        ("instId"@, JsonV::Str(symbol@)),
    ]);
    let mut args: Vec<Json> = Vec::new();
    let one = json::object(p);
    let ghost ov = one@;
    args.push(one);
    assert(json::value_views(args@) =~= seq![ov]);
    let list = json::array(args);
    let ghost lv = list@;
    let mut f: Vec<(String, Json)> = Vec::new();
    f.push(json::text_pair("op", "subscribe"));
    f.push(json::pair("args", list));
    assert(json::field_views(f@) =~= seq![("op"@, JsonV::Str("subscribe"@)), ("args"@, lv)]);
    json::object(f)
}


/// A side of the quotes is what its last change made it: what follows the last change of
/// the bid leaves the bid alone, whatever the ask does.
pub proof fn law_last_change_counts(b: Bbo, es: Seq<JsonV>, i: int)
    requires
        0 <= i < es.len(),
        gemini_change(es[i]) matches Some((true, _, _)),
        forall|j: int| i < j < es.len() ==> !(gemini_change(#[trigger] es[j]) matches Some((true, _, _))),
    ensures
        gemini_change(es[i]) == Some(
            (true, after_events(b, es).0.bid, after_events(b, es).0.bid_sz),
        ),
        after_events(b, es).1,
    decreases es.len(),
{
    if i < es.len() - 1 {
        let d = es.drop_last();
        assert(d[i] == es[i]);
        assert forall|j: int| i < j < d.len() implies !(gemini_change(#[trigger] d[j]) matches Some((true, _, _))) by {
            assert(d[j] == es[j]);
        }
        law_last_change_counts(b, d, i);
        assert(es.last() == es[es.len() - 1]);
    }
}

/// The quotes of the venues: bids come from the bids and asks from the asks, and the venue's
/// time counts in its own unit, microseconds or milliseconds.
pub proof fn law_quotes_by_venue(v: JsonV, d: JsonV, l: JsonV)
    ensures
        json::text_at(v.field("event"@)) == Some("data"@) && v.field("data"@) == Some(d)
            ==> bitstamp_frame_of(v) == (match ladder_top(d, "microtimestamp"@, 1_000) {
            Some(t) => Frame::Quote(t),
            None => Frame::Skip,
        }),
        json::text_at(v.field("event"@)) == Some("bts:request_reconnect"@) ==> bitstamp_frame_of(v)
            == Frame::Reconnect,
        json::text_at(v.field("event"@)) is None && v.field("data"@) == Some(l) && l.elem(0)
            == Some(d) ==> okx_frame_of(v) == (match ladder_top(d, "ts"@, 1_000_000) {
            Some(t) => Frame::Quote(t),
            None => Frame::Skip,
        }),
        json::text_at(v.field("event"@)) == Some("error"@) ==> okx_frame_of(v) == Frame::Reconnect,
        ladder_top(d, "ts"@, 1_000_000) matches Some(t) ==> first_level(d, "bids"@) == Some(
            (t.bid, t.bid_sz),
        ) && first_level(d, "asks"@) == Some((t.ask, t.ask_sz)),
        ladder_top(d, "microtimestamp"@, 1_000) matches Some(t) ==> first_level(d, "bids"@) == Some(
            (t.bid, t.bid_sz),
        ) && first_level(d, "asks"@) == Some((t.ask, t.ask_sz)),
        quote(d, "b"@, "B"@, "a"@, "A"@) matches Some(t) ==> json::amount_at(d.field("b"@)) == Some(
            t.bid,
        ) && json::amount_at(d.field("a"@)) == Some(t.ask) && (json::size_at(
            d.field("B"@),
        ) matches Some(x) ==> t.bid_sz == x) && (json::size_at(d.field("A"@)) matches Some(x)
            ==> t.ask_sz == x),
{
    reveal_strlit("data");
    reveal_strlit("bts:request_reconnect");
    assert("data"@.len() != "bts:request_reconnect"@.len());
}

/// A change replaces the side that it names, and leaves the other.
pub proof fn law_changes_replace_their_side(b: Bbo, es: Seq<JsonV>, e: JsonV, p: i64, q: i64)
    ensures
        ({
            let x = after_events(b, es).0;
            let n = after_events(b, es.push(e)).0;
            &&& gemini_change(e) == Some((true, p, q)) ==> n.bid == p && n.bid_sz == q && n.ask
                == x.ask && n.ask_sz == x.ask_sz
            &&& gemini_change(e) == Some((false, p, q)) ==> n.ask == p && n.ask_sz == q && n.bid
                == x.bid && n.bid_sz == x.bid_sz
            &&& gemini_change(e) is None ==> after_events(b, es.push(e)) == after_events(b, es)
        }),
        json::text_at(e.field("type"@)) == Some("change"@) && json::amount_at(e.field("price"@))
            == Some(p) && json::size_at(e.field("remaining"@)) == Some(q) ==> {
            &&& json::text_at(e.field("side"@)) == Some("bid"@) ==> gemini_change(e) == Some(
                (true, p, q),
            )
            &&& json::text_at(e.field("side"@)) == Some("ask"@) ==> gemini_change(e) == Some(
                (false, p, q),
            )
        },
{
    reveal_strlit("bid");
    reveal_strlit("ask");
    assert("bid"@[0] != "ask"@[0]);
    assert(es.push(e).drop_last() =~= es);
}

} // verus!
