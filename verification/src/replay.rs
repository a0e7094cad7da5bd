//! Recorded samples as events: what each row of a recording makes known.
use vstd::prelude::*;
use crate::collector::net;
use crate::collector::net::nxt;
use crate::event::{Event, Payload};
use crate::fixed;
use crate::fixed::sat;
use crate::json;
use crate::json::Json;
use crate::json::JsonV;
use crate::model::{BookUpdate, MarketMeta, MarketStatus};
use crate::numeral;
use crate::numeral::{parse_i64, parse_micros};
use crate::strmap::StrMap;
use crate::text;
use crate::text::{joined, same, split};

verus! {

/// Where the columns of a recording stand.
#[derive(Clone, Copy, Debug, PartialEq, Eq, Structural)]
pub struct Columns {
    pub ts: usize,
    pub ticker: usize,
    pub tte: usize,
    pub ybid: usize,
    pub yask: usize,
    pub cb_bid: usize,
    pub cb_ask: usize,
    pub cb_age: usize,
    pub perp_bid: usize,
    pub perp_ask: usize,
    pub perp_bid_sz: usize,
    pub perp_ask_sz: usize,
}

/// The last place of a name; a later column of one name counts.
pub open spec fn last_place(names: Seq<Seq<char>>, n: Seq<char>) -> Option<int>
    decreases names.len(),
{
    if names.len() == 0 {
        None
    } else if names.last() == n {
        Some(names.len() - 1)
    } else {
        last_place(names.drop_last(), n)
    }
}

/// Whether the columns stand where the names of a header say.
pub open spec fn are_columns(c: Columns, h: Seq<Seq<char>>) -> bool {
    &&& last_place(h, "ts_ms"@) == Some(c.ts as int)
    &&& last_place(h, "ticker"@) == Some(c.ticker as int)
    &&& last_place(h, "tte_ms"@) == Some(c.tte as int)
    &&& last_place(h, "ybid"@) == Some(c.ybid as int)
    &&& last_place(h, "yask"@) == Some(c.yask as int)
    &&& last_place(h, "cb_bid"@) == Some(c.cb_bid as int)
    &&& last_place(h, "cb_ask"@) == Some(c.cb_ask as int)
    &&& last_place(h, "cb_age_ms"@) == Some(c.cb_age as int)
    &&& last_place(h, "perp_bid"@) == Some(c.perp_bid as int)
    &&& last_place(h, "perp_ask"@) == Some(c.perp_ask as int)
    &&& last_place(h, "perp_bid_sz"@) == Some(c.perp_bid_sz as int)
    &&& last_place(h, "perp_ask_sz"@) == Some(c.perp_ask_sz as int)
}

/// Whether every column is there.
pub open spec fn has_columns(h: Seq<Seq<char>>) -> bool {
    &&& last_place(h, "ts_ms"@) is Some
    &&& last_place(h, "ticker"@) is Some
    &&& last_place(h, "tte_ms"@) is Some
    &&& last_place(h, "ybid"@) is Some
    &&& last_place(h, "yask"@) is Some
    &&& last_place(h, "cb_bid"@) is Some
    &&& last_place(h, "cb_ask"@) is Some
    &&& last_place(h, "cb_age_ms"@) is Some
    &&& last_place(h, "perp_bid"@) is Some
    &&& last_place(h, "perp_ask"@) is Some
    &&& last_place(h, "perp_bid_sz"@) is Some
    &&& last_place(h, "perp_ask_sz"@) is Some
}

fn place(h: &Vec<String>, n: &str) -> (r: Option<usize>)
    ensures
        match r {
            Some(i) => last_place(text::views(h@), n@) == Some(i as int),
            None => last_place(text::views(h@), n@) is None,
        },
{
    let ghost hv = text::views(h@);
    let mut i: usize = h.len();
    assert(hv.take(i as int) =~= hv);
    while i > 0
        invariant
            hv == text::views(h@),
            i <= h@.len(),
            last_place(hv, n@) == last_place(hv.take(i as int), n@),
        decreases i,
    {
        let ghost t = hv.take(i as int);
        assert(t.last() == h@[i - 1]@);
        assert(t.drop_last() =~= hv.take(i - 1));
        if same(h[i - 1].as_str(), n) {
            return Some(i - 1);
        }
        i = i - 1;
    }
    None
}

/// Reads the header of a recording.
pub fn read_header(line: &str) -> (r: Option<Columns>)
    ensures
        match r {
            Some(c) => are_columns(c, text::split_on(line@, ',')),
            None => !has_columns(text::split_on(line@, ',')),
        },
{
    let h = split(line, ',');
    match (
        place(&h, "ts_ms"),
        place(&h, "ticker"),
        place(&h, "tte_ms"),
        place(&h, "ybid"),
        place(&h, "yask"),
        place(&h, "cb_bid"),
    ) {
        (Some(ts), Some(ticker), Some(tte), Some(ybid), Some(yask), Some(cb_bid)) => match (
            place(&h, "cb_ask"),
            place(&h, "cb_age_ms"),
            place(&h, "perp_bid"),
            place(&h, "perp_ask"),
            place(&h, "perp_bid_sz"),
            place(&h, "perp_ask_sz"),
        ) {
            (
                Some(cb_ask),
                Some(cb_age),
                Some(perp_bid),
                Some(perp_ask),
                Some(perp_bid_sz),
                Some(perp_ask_sz),
            ) => Some(
                Columns {
                    ts,
                    ticker,
                    tte,
                    ybid,
                    yask,
                    cb_bid,
                    cb_ask,
                    cb_age,
                    perp_bid,
                    perp_ask,
                    perp_bid_sz,
                    perp_ask_sz,
                },
            ),
            _ => None,
        },
        _ => None,
    }
}

/// One row of a recording.
#[derive(Debug)]
pub struct Row {
    pub ts_ms: i64,
    pub ticker: String,
    pub tte_ms: i64,
    pub perp: (i64, i64),
    pub perp_sz: (i64, i64),
    pub cb: (i64, i64),
    /// The age of the quote; negative where it is not known.
    pub cb_age_ms: i64,
    pub yes: (i64, i64),
}

/// A row, as the contracts see it.
pub struct RowV {
    pub ts_ms: i64,
    pub ticker: Seq<char>,
    pub tte_ms: i64,
    pub perp: (i64, i64),
    pub perp_sz: (i64, i64),
    pub cb: (i64, i64),
    pub cb_age_ms: i64,
    pub yes: (i64, i64),
}

impl View for Row {
    type V = RowV;

    open spec fn view(&self) -> RowV {
        RowV {
            ts_ms: self.ts_ms,
            ticker: self.ticker@,
            tte_ms: self.tte_ms,
            perp: self.perp,
            perp_sz: self.perp_sz,
            cb: self.cb,
            cb_age_ms: self.cb_age_ms,
            yes: self.yes,
        }
    }
}

/// The amount in a field, or zero.
pub open spec fn amount_or_zero(f: Seq<Seq<char>>, i: usize) -> i64 {
    match json::fit64(numeral::micros(f[i as int])) {
        Some(x) => x,
        None => 0,
    }
}

/// Whether a row has all its fields.
pub open spec fn has_fields(f: Seq<Seq<char>>, c: Columns) -> bool {
    &&& c.ts < f.len() && c.ticker < f.len() && c.tte < f.len()
    &&& c.ybid < f.len() && c.yask < f.len()
    &&& c.cb_bid < f.len() && c.cb_ask < f.len() && c.cb_age < f.len()
    &&& c.perp_bid < f.len() && c.perp_ask < f.len()
    &&& c.perp_bid_sz < f.len() && c.perp_ask_sz < f.len()
}

/// Whether a row has what says whose it is and how long it has left.
pub open spec fn has_head(f: Seq<Seq<char>>, c: Columns) -> bool {
    c.ts < f.len() && c.ticker < f.len() && c.tte < f.len()
}

/// The row of some fields: its instant and its time left have to be there, and an amount that
/// cannot be read is zero. A row with no time left is over: nothing more of it is read, and
/// it may be short.
pub open spec fn row_of(f: Seq<Seq<char>>, c: Columns) -> Option<RowV> {
    match (
        json::fit64(numeral::signed_value(f[c.ts as int])),
        json::fit64(numeral::signed_value(f[c.tte as int])),
    ) {
        (Some(ts_ms), Some(tte_ms)) => if !has_head(f, c) {
            None
        } else if tte_ms <= 0 {
            Some(
                RowV {
                    ts_ms,
                    ticker: f[c.ticker as int],
                    tte_ms,
                    perp: (0, 0),
                    perp_sz: (0, 0),
                    cb: (0, 0),
                    cb_age_ms: -1i64,
                    yes: (0, 0),
                },
            )
        } else if has_fields(f, c) {
            Some(
                RowV {
                    ts_ms,
                    ticker: f[c.ticker as int],
                    tte_ms,
                    perp: (amount_or_zero(f, c.perp_bid), amount_or_zero(f, c.perp_ask)),
                    perp_sz: (amount_or_zero(f, c.perp_bid_sz), amount_or_zero(f, c.perp_ask_sz)),
                    cb: (amount_or_zero(f, c.cb_bid), amount_or_zero(f, c.cb_ask)),
                    cb_age_ms: match json::fit64(numeral::signed_value(f[c.cb_age as int])) {
                        Some(x) => x,
                        None => -1i64,
                    },
                    yes: (amount_or_zero(f, c.ybid), amount_or_zero(f, c.yask)),
                },
            )
        } else {
            None
        },
        _ => None,
    }
}

fn amount_at(f: &Vec<String>, i: usize) -> (r: i64)
    requires
        i < f@.len(),
    ensures
        r == amount_or_zero(text::views(f@), i),
{
    assert(text::views(f@)[i as int] == f@[i as int]@);
    match parse_micros(f[i].as_str()) {
        Some(x) => x,
        None => 0,
    }
}

/// Reads a row of a recording.
pub fn read_row(line: &str, c: &Columns) -> (r: Option<Row>)
    ensures
        match r {
            Some(x) => row_of(text::split_on(line@, ','), *c) == Some(x@),
            None => row_of(text::split_on(line@, ','), *c) is None,
        },
{
    let f = split(line, ',');
    let ghost fv = text::split_on(line@, ',');
    let n: usize = f.len();
    assert(fv == text::views(f@));
    if c.ts >= n || c.ticker >= n || c.tte >= n {
        return None;
    }
    assert(fv[c.ts as int] == f@[c.ts as int]@);
    assert(fv[c.tte as int] == f@[c.tte as int]@);
    assert(fv[c.ticker as int] == f@[c.ticker as int]@);
    let (ts_ms, tte_ms): (i64, i64) = match (
        parse_i64(f[c.ts].as_str()),
        parse_i64(f[c.tte].as_str()),
    ) {
        (Some(ts), Some(tte)) => (ts, tte),
        _ => {
            return None;
        },
    };
    let ticker = f[c.ticker].clone();
    if tte_ms <= 0 {
        return Some(
            Row {
                ts_ms,
                ticker,
                tte_ms,
                perp: (0, 0),
                perp_sz: (0, 0),
                cb: (0, 0),
                cb_age_ms: -1,
                yes: (0, 0),
            },
        );
    }
    if c.ybid >= n || c.yask >= n || c.cb_bid >= n || c.cb_ask >= n || c.cb_age >= n || c.perp_bid
        >= n || c.perp_ask >= n || c.perp_bid_sz >= n || c.perp_ask_sz >= n {
        return None;
    }
    assert(fv[c.cb_age as int] == f@[c.cb_age as int]@);
    Some(
        Row {
            ts_ms,
            ticker,
            tte_ms,
            perp: (amount_at(&f, c.perp_bid), amount_at(&f, c.perp_ask)),
            perp_sz: (amount_at(&f, c.perp_bid_sz), amount_at(&f, c.perp_ask_sz)),
            cb: (amount_at(&f, c.cb_bid), amount_at(&f, c.cb_ask)),
            cb_age_ms: match parse_i64(f[c.cb_age].as_str()) {
                Some(x) => x,
                None => -1,
            },
            yes: (amount_at(&f, c.ybid), amount_at(&f, c.yask)),
        },
    )
}

/// One thing that a row makes known.
pub enum Known {
    /// A market, with its strike and its end.
    Market(Seq<char>, i64, i64),
    /// A top of book: instrument, bid, its size, ask, its size.
    Top(Seq<char>, i64, i64, i64, i64),
}

/// What the rows so far have made known.
pub struct Feeder {
    perp_priced: bool,
    seq: u64,
    known: StrMap<(i64, i64)>,
    cb_recv_ns: Option<i128>,
    perp: Option<((i64, i64), i64)>,
    fair_ms: StrMap<i64>,
}

/// What the rows so far have made known, as the contracts see it.
#[verifier::ext_equal]
pub struct FeederV {
    /// Whether the surface is priced off the perpetual.
    pub perp_priced: bool,
    /// The markets, with strike and end.
    pub known: Map<Seq<char>, (i64, i64)>,
    /// When the last quote of the basis reference was heard.
    pub cb_recv_ns: Option<int>,
    /// The last quotes of the perpetual that were fed, and when.
    pub perp: Option<((i64, i64), i64)>,
    /// When the fair price of a market was last noted.
    pub fair_ms: Map<Seq<char>, i64>,
}

impl View for Feeder {
    type V = FeederV;

    closed spec fn view(&self) -> FeederV {
        FeederV {
            perp_priced: self.perp_priced,
            known: self.known@,
            cb_recv_ns: match self.cb_recv_ns {
                Some(x) => Some(x as int),
                None => None,
            },
            perp: self.perp,
            fair_ms: self.fair_ms@,
        }
    }
}

/// The instrument of a market's yes side.
pub open spec fn yes_of(ticker: Seq<char>) -> Seq<char> {
    "kalshi."@ + ticker + ".YES"@
}

/// The strike of a market in a catalog.
pub open spec fn strike_in(catalog: JsonV, ticker: Seq<char>) -> Option<i64> {
    match json::at(catalog.field(ticker), "strike"@) {
        Some(x) => x.number(),
        None => None,
    }
}

/// The end of a row's market.
pub open spec fn end_of(r: RowV) -> i64 {
    fixed::clamp64(r.ts_ms * 1_000_000 + r.tte_ms * 1_000_000) as i64
}

/// Whether the quotes of the perpetual are fed: when they have changed, and every quarter of a
/// second.
pub open spec fn feeds_perp(v: FeederV, r: RowV) -> bool {
    v.perp_priced && r.perp.0 > 0 && r.perp.1 > 0 && match v.perp {
        Some((q, t)) => q != r.perp || r.ts_ms - t >= 250,
        None => true,
    }
}

/// When the quote of the basis reference in a row was heard.
pub open spec fn heard_ns(r: RowV) -> int {
    (r.ts_ms - r.cb_age_ms) * 1_000_000
}

/// Whether the quotes of the basis reference are fed: when they are fresh, and new.
pub open spec fn feeds_cb(v: FeederV, r: RowV) -> bool {
    r.cb.0 > 0 && r.cb.1 > 0 && 0 <= r.cb_age_ms <= 5000 && match v.cb_recv_ns {
        Some(t) => heard_ns(r) > t,
        None => true,
    }
}

/// Whether a row counts: its market is not over, and its strike is known.
pub open spec fn counts(v: FeederV, r: RowV, strike: Option<i64>) -> bool {
    r.tte_ms > 0 && (v.known.contains_key(r.ticker) || strike is Some)
}

/// The state after a row.
pub open spec fn fed(v: FeederV, r: RowV, strike: Option<i64>) -> FeederV {
    if !counts(v, r, strike) {
        v
    } else {
        FeederV {
            known: if v.known.contains_key(r.ticker) {
                v.known
            } else {
                v.known.insert(r.ticker, (strike->0, end_of(r)))
            },
            perp: if feeds_perp(v, r) {
                Some((r.perp, r.ts_ms))
            } else {
                v.perp
            },
            cb_recv_ns: if feeds_cb(v, r) {
                Some(heard_ns(r))
            } else {
                v.cb_recv_ns
            },
            ..v
        }
    }
}

/// What a row makes known, in this order: a market that is new, the perpetual, the basis
/// reference, and the market's own book.
pub open spec fn makes_known(v: FeederV, r: RowV, strike: Option<i64>) -> Seq<Known> {
    if !counts(v, r, strike) {
        Seq::empty()
    } else {
        (if v.known.contains_key(r.ticker) {
            Seq::empty()
        } else {
            seq![Known::Market(r.ticker, strike->0, end_of(r))]
        }) + (if feeds_perp(v, r) {
            seq![
                Known::Top(
                    "binance.usdt_perp.BTCUSDT"@,
                    r.perp.0,
                    r.perp_sz.0,
                    r.perp.1,
                    r.perp_sz.1,
                ),
            ]
        } else {
            Seq::empty()
        }) + (if feeds_cb(v, r) {
            seq![Known::Top("coinbase.BTC"@, r.cb.0, 0, r.cb.1, 0)]
        } else {
            Seq::empty()
        }) + (if r.yes.0 > 0 && r.yes.1 > 0 {
            seq![Known::Top(yes_of(r.ticker), r.yes.0, 0, r.yes.1, 0)]
        } else {
            Seq::empty()
        })
    }
}

/// Whether an event says that.
pub open spec fn says(e: Event, k: Known, ts_ns: i64) -> bool {
    &&& e.source@ == "replay"@
    &&& e.ts_ns == ts_ns
    &&& match k {
        Known::Market(ticker, strike, end) => {
            &&& e.topic@ == "market.kalshi.catalog"@
            &&& match e.payload {
                Payload::Meta(m) => {
                    &&& m.instrument@ == yes_of(ticker)
                    &&& m.kind@ == "15m_updown"@
                    &&& m.status == MarketStatus::Live
                    &&& m.start_ts_ns == Some(fixed::clamp64(end - 900_000_000_000) as i64)
                    &&& m.expiry_ts_ns == Some(end)
                    &&& m.strike == Some(strike)
                    &&& m.winner is None && m.min_order_size is None
                    &&& m.tick_size is None && m.fee_rate is None
                },
                _ => false,
            }
        },
        Known::Top(inst, bid, bsz, ask, asz) => {
            &&& e.topic@ == "market."@ + inst + ".book"@
            &&& match e.payload {
                Payload::Book(b) => {
                    &&& b.instrument@ == inst
                    &&& b.bids@ == seq![(bid, bsz)]
                    &&& b.asks@ == seq![(ask, asz)]
                    &&& b.update_id is None
                    &&& b.exch_ts_ns == ts_ns && b.recv_ts_ns == ts_ns
                },
                _ => false,
            }
        },
    }
}

/// Whether a run of events says these things, in their order.
pub open spec fn say_all(es: Seq<Event>, ks: Seq<Known>, ts_ns: i64) -> bool {
    &&& es.len() == ks.len()
    &&& forall|i: int| 0 <= i < es.len() ==> says(#[trigger] es[i], ks[i], ts_ns)
}

fn book_event(inst: &str, ts_ns: i64, seq: u64, bid: i64, bsz: i64, ask: i64, asz: i64) -> (r:
    Event)
    ensures
        says(r, Known::Top(inst@, bid, bsz, ask, asz), ts_ns),
        r.seq == seq,
{
    let mut bids: Vec<(i64, i64)> = Vec::new();
    bids.push((bid, bsz));
    let mut asks: Vec<(i64, i64)> = Vec::new();
    asks.push((ask, asz));
    let a = joined("market.", inst);
    Event {
        topic: joined(a.as_str(), ".book"),
        source: "replay",
        ts_ns,
        seq,
        payload: Payload::Book(
            BookUpdate {
                instrument: inst.to_string(),
                bids,
                asks,
                update_id: None,
                exch_ts_ns: ts_ns,
                recv_ts_ns: ts_ns,
            },
        ),
    }
}

fn push_event(
    out: &mut Vec<Event>,
    e: Event,
    Ghost(ks): Ghost<Seq<Known>>,
    Ghost(k): Ghost<Known>,
    ts_ns: i64,
    Ghost(s0): Ghost<u64>,
)
    requires
        net::counted_up(old(out)@, s0, e.seq),
        say_all(old(out)@, ks, ts_ns),
        says(e, k, ts_ns),
    ensures
        say_all(final(out)@, ks.push(k), ts_ns),
        net::counted_up(final(out)@, s0, net::counted(e.seq, 1)),
{
    let ghost o0 = out@;
    out.push(e);
    assert forall|i: int| 0 <= i < out@.len() implies says(
        #[trigger] out@[i],
        ks.push(k)[i],
        ts_ns,
    ) by {
        if i < o0.len() {
            assert(out@[i] == o0[i]);
        }
    }
}

/// The strike of a market in a catalog.
pub fn strike_of(catalog: &Json, ticker: &str) -> (r: Option<i64>)
    ensures
        r == strike_in(catalog@, ticker@),
{
    match catalog.get(ticker) {
        Some(m) => match m.get("strike") {
            Some(x) => x.as_micros(),
            None => None,
        },
        None => None,
    }
}

/// The instrument of a market's yes side.
pub fn yes_instrument(ticker: &str) -> (r: String)
    ensures
        r@ == yes_of(ticker@),
{
    let a = joined("kalshi.", ticker);
    joined(a.as_str(), ".YES")
}

impl Feeder {
    /// The number of the next event.
    pub closed spec fn next_no(&self) -> u64 {
        self.seq
    }

    /// No rows yet.
    pub fn new(perp_priced: bool) -> (r: Feeder)
        ensures
            r@ == (FeederV {
                perp_priced,
                known: Map::empty(),
                cb_recv_ns: None,
                perp: None,
                fair_ms: Map::empty(),
            }),
            r.next_no() == 1,
    {
        Feeder {
            perp_priced,
            seq: 1,
            known: StrMap::new(),
            cb_recv_ns: None,
            perp: None,
            fair_ms: StrMap::new(),
        }
    }

    /// The strike and the end of a market.
    pub fn market(&self, ticker: &str) -> (r: Option<(i64, i64)>)
        ensures
            r == (if self@.known.contains_key(ticker@) {
                Some(self@.known[ticker@])
            } else {
                None
            }),
    {
        match self.known.get(ticker) {
            Some(x) => Some(*x),
            None => None,
        }
    }

    /// Takes a row in; gives what it makes known.
    pub fn feed(&mut self, row: &Row, strike: Option<i64>) -> (out: Vec<Event>)
        ensures
            final(self)@ == fed(old(self)@, row@, strike),
            say_all(
                out@,
                makes_known(old(self)@, row@, strike),
                fixed::clamp64(row.ts_ms * 1_000_000) as i64,
            ),
            net::counted_up(out@, old(self).next_no(), final(self).next_no()),
    {
        let ghost v = self@;
        let ghost r = row@;
        let ghost s0 = self.seq;
        let mut out: Vec<Event> = Vec::new();
        let ts_ns = sat(row.ts_ms as i128 * 1_000_000);
        let ghost mut ks: Seq<Known> = Seq::empty();
        if row.tte_ms <= 0 {
            return out;
        }
        if !self.known.contains(row.ticker.as_str()) {
            let k: i64 = match strike {
                Some(k) => k,
                None => {
                    return out;
                },
            };
            let end = sat(row.ts_ms as i128 * 1_000_000 + row.tte_ms as i128 * 1_000_000);
            self.known.insert(row.ticker.clone(), (k, end));
            let e = Event {
                topic: "market.kalshi.catalog".to_string(),
                source: "replay",
                ts_ns,
                seq: nxt(&mut self.seq),
                payload: Payload::Meta(
                    MarketMeta {
                        instrument: yes_instrument(row.ticker.as_str()),
                        kind: "15m_updown".to_string(),
                        status: MarketStatus::Live,
                        start_ts_ns: Some(sat(end as i128 - 900_000_000_000)),
                        expiry_ts_ns: Some(end),
                        winner: None,
                        min_order_size: None,
                        tick_size: None,
                        fee_rate: None,
                        strike: Some(k),
                    },
                ),
            };
            push_event(
                &mut out,
                e,
                Ghost(ks),
                Ghost(Known::Market(row.ticker@, k, end)),
                ts_ns,
                Ghost(s0),
            );
            proof {
                ks = ks.push(Known::Market(row.ticker@, k, end));
            }
        }
        if self.perp_priced && row.perp.0 > 0 && row.perp.1 > 0 {
            let due: bool = match self.perp {
                Some((q, t)) => q.0 != row.perp.0 || q.1 != row.perp.1 || row.ts_ms as i128
                    - t as i128 >= 250,
                None => true,
            };
            if due {
                self.perp = Some((row.perp, row.ts_ms));
                let e = book_event(
                    "binance.usdt_perp.BTCUSDT",
                    ts_ns,
                    nxt(&mut self.seq),
                    row.perp.0,
                    row.perp_sz.0,
                    row.perp.1,
                    row.perp_sz.1,
                );
                let ghost k = Known::Top(
                    "binance.usdt_perp.BTCUSDT"@,
                    row.perp.0,
                    row.perp_sz.0,
                    row.perp.1,
                    row.perp_sz.1,
                );
                push_event(&mut out, e, Ghost(ks), Ghost(k), ts_ns, Ghost(s0));
                proof {
                    ks = ks.push(k);
                }
            }
        }
        if row.cb.0 > 0 && row.cb.1 > 0 && 0 <= row.cb_age_ms && row.cb_age_ms <= 5000 {
            let at: i128 = (row.ts_ms as i128 - row.cb_age_ms as i128) * 1_000_000;
            let new: bool = match self.cb_recv_ns {
                Some(t) => at > t,
                None => true,
            };
            if new {
                self.cb_recv_ns = Some(at);
                let e = book_event(
                    "coinbase.BTC",
                    ts_ns,
                    nxt(&mut self.seq),
                    row.cb.0,
                    0,
                    row.cb.1,
                    0,
                );
                let ghost k = Known::Top("coinbase.BTC"@, row.cb.0, 0, row.cb.1, 0);
                push_event(&mut out, e, Ghost(ks), Ghost(k), ts_ns, Ghost(s0));
                proof {
                    ks = ks.push(k);
                }
            }
        }
        if row.yes.0 > 0 && row.yes.1 > 0 {
            let inst = yes_instrument(row.ticker.as_str());
            let e = book_event(
                inst.as_str(),
                ts_ns,
                nxt(&mut self.seq),
                row.yes.0,
                0,
                row.yes.1,
                0,
            );
            let ghost k = Known::Top(yes_of(row.ticker@), row.yes.0, 0, row.yes.1, 0);
            push_event(&mut out, e, Ghost(ks), Ghost(k), ts_ns, Ghost(s0));
            proof {
                ks = ks.push(k);
            }
        }
        assert(ks =~= makes_known(v, r, strike));
        assert(self@ =~= fed(v, r, strike));
        out
    }

    /// Whether the fair price of a market is to be noted: once a second.
    pub fn fair_due(&mut self, inst: &str, ts_ms: i64) -> (r: bool)
        ensures
            r == (ts_ms - (if old(self)@.fair_ms.contains_key(inst@) {
                old(self)@.fair_ms[inst@]
            } else {
                0
            }) >= 1000),
            final(self)@ == (FeederV {
                fair_ms: if r {
                    old(self)@.fair_ms.insert(inst@, ts_ms)
                } else {
                    old(self)@.fair_ms
                },
                ..old(self)@
            }),
            final(self).next_no() == old(self).next_no(),
    {
        let last: i64 = match self.fair_ms.get(inst) {
            Some(t) => *t,
            None => 0,
        };
        if ts_ms as i128 - last as i128 >= 1000 {
            self.fair_ms.insert(inst.to_string(), ts_ms);
            true
        } else {
            false
        }
    }
}

/// A market is made known once: the rows after the first say nothing more of its strike.
pub proof fn law_markets_are_known_once(v: FeederV, r: RowV, strike: Option<i64>)
    requires
        v.known.contains_key(r.ticker),
    ensures
        fed(v, r, strike).known == v.known,
        forall|i: int|
            0 <= i < makes_known(v, r, strike).len() ==> !(#[trigger] makes_known(
                v,
                r,
                strike,
            )[i] is Market),
{
}

/// What a row makes known: nothing where its market is over or its strike is not known; the
/// perpetual where it is priced and has changed, or a quarter of a second has passed; the
/// basis reference where it is fresh and was heard later than the last; the market's end is
/// the row's instant and the time left.
pub proof fn law_what_a_row_makes_known(v: FeederV, r: RowV, strike: Option<i64>)
    ensures
        counts(v, r, strike) <==> r.tte_ms > 0 && (v.known.contains_key(r.ticker) || strike is Some),
        !counts(v, r, strike) ==> makes_known(v, r, strike).len() == 0 && fed(v, r, strike) == v,
        feeds_perp(v, r) <==> v.perp_priced && r.perp.0 > 0 && r.perp.1 > 0 && (v.perp is None || (
        v.perp->0).0 != r.perp || r.ts_ms - (v.perp->0).1 >= 250),
        feeds_cb(v, r) <==> r.cb.0 > 0 && r.cb.1 > 0 && 0 <= r.cb_age_ms && r.cb_age_ms <= 5000 && (
        v.cb_recv_ns is None || (r.ts_ms - r.cb_age_ms) * 1_000_000 > v.cb_recv_ns->0),
        counts(v, r, strike) && feeds_perp(v, r) ==> fed(v, r, strike).perp == Some(
            (r.perp, r.ts_ms),
        ),
        counts(v, r, strike) && feeds_cb(v, r) ==> fed(v, r, strike).cb_recv_ns == Some(
            (r.ts_ms - r.cb_age_ms) * 1_000_000,
        ),
        counts(v, r, strike) && !v.known.contains_key(r.ticker) ==> makes_known(v, r, strike)[0]
            == Known::Market(r.ticker, strike->0, end_of(r)),
        counts(v, r, strike) && r.yes.0 > 0 && r.yes.1 > 0 ==> makes_known(v, r, strike).last()
            == Known::Top("kalshi."@ + r.ticker + ".YES"@, r.yes.0, 0, r.yes.1, 0),
        i64::MIN <= (r.ts_ms + r.tte_ms) * 1_000_000 <= i64::MAX ==> end_of(r) == (r.ts_ms
            + r.tte_ms) * 1_000_000,
{
    let ks = makes_known(v, r, strike);
    let y = seq![Known::Top(yes_of(r.ticker), r.yes.0, 0, r.yes.1, 0)];
    if counts(v, r, strike) && r.yes.0 > 0 && r.yes.1 > 0 {
        let a = ks.take(ks.len() - 1);
        assert(ks =~= a + y);
    }
}

/// A row takes each amount from its own column; a row with no time left has none.
pub proof fn law_rows_are_read_by_column(f: Seq<Seq<char>>, c: Columns)
    ensures
        row_of(f, c) matches Some(r) ==> {
            &&& json::fit64(numeral::signed_value(f[c.ts as int])) == Some(r.ts_ms)
            &&& json::fit64(numeral::signed_value(f[c.tte as int])) == Some(r.tte_ms)
            &&& r.ticker == f[c.ticker as int]
            &&& r.tte_ms > 0 ==> {
                &&& json::fit64(numeral::micros(f[c.perp_bid as int])) matches Some(x) ==> r.perp.0
                    == x
                &&& json::fit64(numeral::micros(f[c.perp_ask as int])) matches Some(x) ==> r.perp.1
                    == x
                &&& json::fit64(numeral::micros(f[c.perp_bid_sz as int])) matches Some(x)
                    ==> r.perp_sz.0 == x
                &&& json::fit64(numeral::micros(f[c.perp_ask_sz as int])) matches Some(x)
                    ==> r.perp_sz.1 == x
                &&& json::fit64(numeral::micros(f[c.cb_bid as int])) matches Some(x) ==> r.cb.0 == x
                &&& json::fit64(numeral::micros(f[c.cb_ask as int])) matches Some(x) ==> r.cb.1 == x
                &&& json::fit64(numeral::micros(f[c.ybid as int])) matches Some(x) ==> r.yes.0 == x
                &&& json::fit64(numeral::micros(f[c.yask as int])) matches Some(x) ==> r.yes.1 == x
                &&& json::fit64(numeral::signed_value(f[c.cb_age as int])) matches Some(x)
                    ==> r.cb_age_ms == x
            }
            &&& r.tte_ms <= 0 ==> r.yes == (0i64, 0i64) && r.perp == (0i64, 0i64)
        },
{
}

/// A row with time left needs all its columns; one that is over only those of its head.
pub proof fn law_rows_need_their_columns(f: Seq<Seq<char>>, c: Columns)
    ensures
        row_of(f, c) matches Some(r) ==> (r.tte_ms > 0 ==> c.ybid < f.len() && c.yask < f.len()
            && c.cb_bid < f.len() && c.cb_ask < f.len() && c.cb_age < f.len() && c.perp_bid
            < f.len() && c.perp_ask < f.len() && c.perp_bid_sz < f.len() && c.perp_ask_sz
            < f.len()) && c.ts < f.len() && c.ticker < f.len() && c.tte < f.len(),
        c.ts < f.len() && c.ticker < f.len() && c.tte < f.len() && c.ybid < f.len() && c.yask
            < f.len() && c.cb_bid < f.len() && c.cb_ask < f.len() && c.cb_age < f.len()
            && c.perp_bid < f.len() && c.perp_ask < f.len() && c.perp_bid_sz < f.len()
            && c.perp_ask_sz < f.len() && json::fit64(numeral::signed_value(f[c.ts as int])) is Some
            && json::fit64(numeral::signed_value(f[c.tte as int])) is Some ==> row_of(f, c) is Some,
{
}

/// A column is found by the last place of its name.
pub proof fn law_columns_are_found_by_their_last_name(h: Seq<Seq<char>>, n: Seq<char>, i: int)
    requires
        0 <= i < h.len(),
        h[i] == n,
        forall|j: int| i < j < h.len() ==> #[trigger] h[j] != n,
    ensures
        last_place(h, n) == Some(i),
    decreases h.len(),
{
    if i < h.len() - 1 {
        assert(h[h.len() - 1] != n);
        assert forall|j: int| i < j < h.drop_last().len() implies #[trigger] h.drop_last()[j] != n by {
            assert(h[j] != n);
        }
        law_columns_are_found_by_their_last_name(h.drop_last(), n, i);
    }
}

/// What an event says: of a market its strike and its end, a quarter of an hour after its
/// start; of a top its bid and its ask.
pub proof fn law_what_an_event_says(
    e: Event,
    f: Event,
    ticker: Seq<char>,
    strike: i64,
    end: i64,
    inst: Seq<char>,
    bid: i64,
    bsz: i64,
    ask: i64,
    asz: i64,
    ts_ns: i64,
)
    requires
        says(e, Known::Market(ticker, strike, end), ts_ns),
        says(f, Known::Top(inst, bid, bsz, ask, asz), ts_ns),
        end - 900_000_000_000 >= i64::MIN,
    ensures
        e.payload matches Payload::Meta(m) && m.strike == Some(strike) && m.expiry_ts_ns == Some(end)
            && m.start_ts_ns == Some((end - 900_000_000_000) as i64) && m.status
            == MarketStatus::Live && m.instrument@ == "kalshi."@ + ticker + ".YES"@,
        f.payload matches Payload::Book(b) && b.instrument@ == inst && b.bids@ == seq![(bid, bsz)]
            && b.asks@ == seq![(ask, asz)] && b.recv_ts_ns == ts_ns,
        e.ts_ns == ts_ns && f.ts_ns == ts_ns,
{
}

} // verus!
