//! Prediction markets with bids on two sides. A bid on the no side at a price is an offer
//! on the yes side at one less that price; one book gives the ladders of both outcomes.
use vstd::prelude::*;
use crate::collector::net;
use crate::collector::net::nxt;
use crate::datetime;
use crate::datetime::iso_ns;
use crate::event::{Event, Payload};
use crate::fixed;
use crate::fixed::{div_floor, max64, sat};
use crate::json;
use crate::json::{amount_field, i64_field, size_field, str_field, Json};
use crate::json::JsonV;
use crate::ladder;
use crate::ladder::{fill_side, Ladder};
use crate::model::{BookUpdate, MarketMeta, MarketStatus, Side, TradeTick};
use crate::numeral;
use crate::numeral::{i64_text, parse_micros};
use crate::strmap::StrMap;
use crate::text;
use crate::text::{chars_of, comes_before, joined, lower_ascii, rfind_text, same, string_of_range};

verus! {

/// The collector's settings.
#[derive(Debug)]
pub struct KalshiCfg {
    pub series_tickers: Vec<String>,
    pub kind: String,
    pub discovery_interval_s: u64,
    pub n_windows: usize,
    pub min_tte_s: i64,
    pub max_tte_s: i64,
    pub unsub_grace_s: i64,
    pub top_n: usize,
    pub rest_base: String,
    pub ws_url: String,
    /// Empty means that books are polled only.
    pub key_id: String,
    pub private_key_path: String,
    pub user_agent: String,
    pub trades_enabled: bool,
    pub ob_poll_s: u64,
    pub trades_poll_s: u64,
    /// For a series with a ladder of strikes, the instrument whose mid is at the money.
    pub atm_references: Vec<(String, String)>,
}

impl Default for KalshiCfg {
    fn default() -> (r: KalshiCfg)
        ensures
            r.series_tickers@.len() == 1 && r.series_tickers@[0]@ == "KXBTC15M"@,
            r.kind@ == "15m_updown"@,
            r.discovery_interval_s == 30,
            r.n_windows == 3,
            r.min_tte_s == 10,
            r.max_tte_s == 3600,
            r.unsub_grace_s == 60,
            r.top_n == 10,
            r.rest_base@ == "https://external-api.kalshi.com/trade-api/v2"@,
            r.ws_url@ == "wss://external-api-ws.kalshi.com/trade-api/ws/v2"@,
            r.key_id@.len() == 0,
            r.private_key_path@.len() == 0,
            r.user_agent@ == "Mozilla/5.0"@,
            r.trades_enabled,
            r.ob_poll_s == 2,
            r.trades_poll_s == 3,
            r.atm_references@.len() == 0,
    {
        let mut series_tickers: Vec<String> = Vec::new();
        series_tickers.push("KXBTC15M".to_string());
        KalshiCfg {
            series_tickers,
            kind: "15m_updown".to_string(),
            discovery_interval_s: 30,
            n_windows: 3,
            min_tte_s: 10,
            max_tte_s: 3600,
            unsub_grace_s: 60,
            top_n: 10,
            rest_base: "https://external-api.kalshi.com/trade-api/v2".to_string(),
            ws_url: "wss://external-api-ws.kalshi.com/trade-api/ws/v2".to_string(),
            key_id: String::new(),
            private_key_path: String::new(),
            user_agent: "Mozilla/5.0".to_string(),
            trades_enabled: true,
            ob_poll_s: 2,
            trades_poll_s: 3,
            atm_references: Vec::new(),
        }
    }
}

/// A side of a market.
#[derive(Clone, Copy, Debug, PartialEq, Eq, Structural)]
pub enum KSide {
    Yes,
    No,
}

/// A price, from dollars or from cents.
pub open spec fn dollars(p: i64, cents: bool) -> i64 {
    if cents {
        (p as int / 100) as i64
    } else {
        p
    }
}

/// The price and the size of one level, as a pair or as an object.
pub open spec fn raw_level(v: JsonV) -> Option<(i64, i64)> {
    let (p, s) = match v {
        JsonV::Obj(_) => (json::amount_at(v.field("price"@)), json::size_at(v.field("size"@))),
        _ => (json::amount_at(v.elem(0)), json::size_at(v.elem(1))),
    };
    if p is Some && s is Some {
        Some((p->0, s->0))
    } else {
        None
    }
}

/// The levels of a list that can be read and have a size, in their order.
pub open spec fn levels_in(items: Seq<JsonV>, cents: bool) -> Seq<(i64, i64)>
    decreases items.len(),
{
    if items.len() == 0 {
        Seq::empty()
    } else {
        let before = levels_in(items.drop_last(), cents);
        match raw_level(items.last()) {
            Some((p, s)) => if s > 0 {
                before.push((dollars(p, cents), s))
            } else {
                before
            },
            None => before,
        }
    }
}

/// The levels of a value.
pub open spec fn levels_of(v: JsonV, cents: bool) -> Seq<(i64, i64)> {
    match v {
        JsonV::Arr(a) => levels_in(a, cents),
        _ => Seq::empty(),
    }
}

/// The levels of an object: in dollars where it has them, else in cents.
pub open spec fn levels_at(m: JsonV, dollar_key: Seq<char>, cent_key: Seq<char>) -> Seq<(i64, i64)> {
    match m.field(dollar_key) {
        Some(a) => levels_of(a, false),
        None => match m.field(cent_key) {
            Some(a) => levels_of(a, true),
            None => Seq::empty(),
        },
    }
}

fn level(v: &Json) -> (r: Option<(i64, i64)>)
    ensures
        r == raw_level(v@),
{
    let (p, s): (Option<i64>, Option<i64>) = match v {
        Json::Obj(_) => (amount_field(v, "price"), size_field(v, "size")),
        _ => (
            match v.idx(0) {
                Some(x) => x.amount(),
                None => None,
            },
            match v.idx(1) {
                Some(x) => x.size(),
                None => None,
            },
        ),
    };
    match (p, s) {
        (Some(p), Some(s)) => Some((p, s)),
        _ => None,
    }
}

/// A price, from dollars or from cents.
fn in_dollars(p: i64, cents: bool) -> (r: i64)
    ensures
        r == dollars(p, cents),
{
    if cents {
        div_floor(p as i128, 100) as i64
    } else {
        p
    }
}

/// Reads a list of levels; `cents` says that its prices are in cents.
pub fn parse_levels(v: &Json, cents: bool) -> (r: Vec<(i64, i64)>)
    ensures
        r@ == levels_of(v@, cents),
{
    let mut r: Vec<(i64, i64)> = Vec::new();
    if let Some(a) = v.as_array() {
        let ghost items = v@.items()->0;
        let mut i: usize = 0;
        assert(items.take(0) =~= Seq::<JsonV>::empty());
        while i < a.len()
            invariant
                items == v@.items()->0,
                items.len() == a@.len(),
                forall|j: int| 0 <= j < a@.len() ==> #[trigger] items[j] == a@[j]@,
                i <= a@.len(),
                r@ == levels_in(items.take(i as int), cents),
            decreases a@.len() - i,
        {
            assert(items.take(i + 1).drop_last() =~= items.take(i as int));
            assert(items.take(i + 1).last() == items[i as int]);
            if let Some((p, s)) = level(&a[i]) {
                if s > 0 {
                    r.push((in_dollars(p, cents), s));
                }
            }
            i = i + 1;
        }
        assert(items.take(items.len() as int) =~= items);
    }
    r
}

fn levels_from(m: &Json, dollar_key: &str, cent_key: &str) -> (r: Vec<(i64, i64)>)
    ensures
        r@ == levels_at(m@, dollar_key@, cent_key@),
{
    if let Some(a) = m.get(dollar_key) {
        parse_levels(a, false)
    } else if let Some(a) = m.get(cent_key) {
        parse_levels(a, true)
    } else {
        Vec::new()
    }
}

/// The book of a poll.
pub open spec fn rest_book(ob: JsonV) -> JsonV {
    match ob.field("orderbook_fp"@) {
        Some(b) => b,
        None => match ob.field("orderbook"@) {
            Some(b) => b,
            None => JsonV::Null,
        },
    }
}

/// Reads a polled book: the bids on the yes side and on the no side.
pub fn parse_rest_orderbook(ob: &Json) -> (r: (Vec<(i64, i64)>, Vec<(i64, i64)>))
    ensures
        r.0@ == levels_at(rest_book(ob@), "yes_dollars"@, "yes"@),
        r.1@ == levels_at(rest_book(ob@), "no_dollars"@, "no"@),
{
    let null = Json::Null;
    let book = match ob.get("orderbook_fp") {
        Some(b) => b,
        None => match ob.get("orderbook") {
            Some(b) => b,
            None => &null,
        },
    };
    (levels_from(book, "yes_dollars", "yes"), levels_from(book, "no_dollars", "no"))
}

/// The message of a frame.
pub open spec fn msg_of(f: JsonV) -> JsonV {
    match f.field("msg"@) {
        Some(m) => m,
        None => JsonV::Null,
    }
}

/// Reads a snapshot frame: the bids of each side, and its number.
pub fn parse_ws_snapshot(msg: &Json) -> (r: (Vec<(i64, i64)>, Vec<(i64, i64)>, Option<i64>))
    ensures
        r.0@ == levels_at(msg_of(msg@), "yes_dollars_fp"@, "yes"@),
        r.1@ == levels_at(msg_of(msg@), "no_dollars_fp"@, "no"@),
        r.2 == json::integer_at(msg@.field("seq"@)),
{
    let null = Json::Null;
    let m = match msg.get("msg") {
        Some(m) => m,
        None => &null,
    };
    (
        levels_from(m, "yes_dollars_fp", "yes"),
        levels_from(m, "no_dollars_fp", "no"),
        i64_field(msg, "seq"),
    )
}

/// The side that a text names.
pub open spec fn side_named(t: Option<Seq<char>>) -> Option<KSide> {
    match t {
        Some(s) => if text::lowered(s) == "yes"@ {
            Some(KSide::Yes)
        } else if text::lowered(s) == "no"@ {
            Some(KSide::No)
        } else {
            None
        },
        None => None,
    }
}

/// The price of a change, in dollars or else from cents.
pub open spec fn delta_price(m: JsonV) -> Option<i64> {
    match json::amount_at(m.field("price_dollars"@)) {
        Some(p) => Some(p),
        None => match json::amount_at(m.field("price"@)) {
            Some(c) => Some(dollars(c, true)),
            None => None,
        },
    }
}

/// The first of two amounts.
pub open spec fn either_amount(m: JsonV, a: Seq<char>, b: Seq<char>) -> Option<i64> {
    match json::amount_at(m.field(a)) {
        Some(x) => Some(x),
        None => json::amount_at(m.field(b)),
    }
}

/// The change that a frame holds: side, price, change of the size, and number.
pub open spec fn delta_of(f: JsonV) -> Option<(KSide, i64, i64, Option<i64>)> {
    match f.field("msg"@) {
        None => None,
        Some(m) => match (
            side_named(json::text_at(m.field("side"@))),
            delta_price(m),
            either_amount(m, "delta_fp"@, "delta"@),
        ) {
            (Some(s), Some(p), Some(d)) => Some((s, p, d, json::integer_at(f.field("seq"@)))),
            _ => None,
        },
    }
}

fn amount2(m: &Json, a: &str, b: &str) -> (r: Option<i64>)
    ensures
        r == either_amount(m@, a@, b@),
{
    match amount_field(m, a) {
        Some(x) => Some(x),
        None => amount_field(m, b),
    }
}

/// Reads a change frame.
pub fn parse_ws_delta(msg: &Json) -> (r: Option<(KSide, i64, i64, Option<i64>)>)
    ensures
        r == delta_of(msg@),
{
    let m = match msg.get("msg") {
        Some(m) => m,
        None => {
            return None;
        },
    };
    proof {
        reveal_strlit("yes");
        reveal_strlit("no");
        assert("yes"@.len() == 3 && "no"@.len() == 2);
    }
    let side = match str_field(m, "side") {
        Some(t) => {
            let l = lower_ascii(t);
            if same(l.as_str(), "yes") {
                KSide::Yes
            } else if same(l.as_str(), "no") {
                KSide::No
            } else {
                return None;
            }
        },
        None => {
            return None;
        },
    };
    let price: i64 = match amount_field(m, "price_dollars") {
        Some(p) => p,
        None => match amount_field(m, "price") {
            Some(c) => in_dollars(c, true),
            None => {
                return None;
            },
        },
    };
    match amount2(m, "delta_fp", "delta") {
        Some(d) => Some((side, price, d, i64_field(msg, "seq"))),
        None => None,
    }
}

/// The book of one market: the resting bids of both sides.
pub struct KalshiBook {
    yes: Ladder,
    no: Ladder,
    seq: Option<i64>,
    initialized: bool,
}

/// A book, as the contracts see it.
#[verifier::ext_equal]
pub struct KBookV {
    pub yes: Map<i64, i64>,
    pub no: Map<i64, i64>,
    pub seq: Option<i64>,
    pub initialized: bool,
}

/// Whether every level of a side has a size.
pub open spec fn all_sized(m: Map<i64, i64>) -> bool {
    forall|p: i64| #[trigger] m.contains_key(p) ==> m[p] > 0
}

/// Whether every level of a book has a size.
pub open spec fn is_sized(v: KBookV) -> bool {
    all_sized(v.yes) && all_sized(v.no)
}

/// A book without a snapshot.
pub open spec fn no_book() -> KBookV {
    KBookV { yes: Map::empty(), no: Map::empty(), seq: None, initialized: false }
}

/// The book of a snapshot.
pub open spec fn snapshot_book(
    yes: Seq<(i64, i64)>,
    no: Seq<(i64, i64)>,
    seq: Option<i64>,
) -> KBookV {
    KBookV {
        yes: ladder::filled_side(Map::empty(), yes),
        no: ladder::filled_side(Map::empty(), no),
        seq,
        initialized: true,
    }
}

/// Whether a number does not follow the one before it.
pub open spec fn is_gap(prev: Option<i64>, cur: Option<i64>) -> bool {
    match (prev, cur) {
        (Some(p), Some(c)) => c != p + 1,
        _ => false,
    }
}

/// A side with the size at a price changed by `d`; a level without size goes.
pub open spec fn shifted(m: Map<i64, i64>, price: i64, d: i64) -> Map<i64, i64> {
    let cur = if m.contains_key(price) {
        m[price] as int
    } else {
        0
    };
    let new = fixed::clamp64(cur + d);
    if new <= 0 {
        m.remove(price)
    } else {
        m.insert(price, new as i64)
    }
}

/// The book after a change. Before the first snapshot a change does nothing.
pub open spec fn delta_book(
    v: KBookV,
    side: KSide,
    price: i64,
    d: i64,
    seq: Option<i64>,
) -> KBookV {
    if !v.initialized {
        v
    } else {
        match side {
            KSide::Yes => KBookV { yes: shifted(v.yes, price, d), seq, ..v },
            KSide::No => KBookV { no: shifted(v.no, price, d), seq, ..v },
        }
    }
}

/// Bids of one outcome as offers of the other.
pub open spec fn mirrored(s: Seq<(i64, i64)>) -> Seq<(i64, i64)> {
    Seq::new(s.len(), |i: int| (fixed::clamp64(1_000_000 - s[i].0) as i64, s[i].1))
}

/// Whether `s` is the best `n` levels of a side, the highest first.
pub open spec fn are_best(m: Map<i64, i64>, n: int, s: Seq<(i64, i64)>) -> bool {
    exists|l: Seq<(i64, i64)>| #[trigger] ladder::lists(l, m) && s == ladder::best_down(l, n)
}

/// Whether `s` is the best `n` offers that the bids of the other outcome make, the lowest
/// first.
pub open spec fn are_offers(m: Map<i64, i64>, n: int, s: Seq<(i64, i64)>) -> bool {
    exists|l: Seq<(i64, i64)>| #[trigger]
        ladder::lists(l, m) && s == mirrored(ladder::best_down(l, n))
}

fn mirror_levels(v: Vec<(i64, i64)>) -> (r: Vec<(i64, i64)>)
    ensures
        r@ == mirrored(v@),
{
    let mut r: Vec<(i64, i64)> = Vec::new();
    let mut i: usize = 0;
    while i < v.len()
        invariant
            i <= v@.len(),
            r@ == mirrored(v@).take(i as int),
        decreases v@.len() - i,
    {
        let (p, s): (i64, i64) = v[i];
        r.push((sat(1_000_000 - p as i128), s));
        assert(mirrored(v@).take(i + 1) =~= mirrored(v@).take(i as int).push(
            mirrored(v@)[i as int],
        ));
        i = i + 1;
    }
    assert(mirrored(v@).take(v@.len() as int) =~= mirrored(v@));
    r
}

fn shift(side: &mut Ladder, price: i64, d: i64)
    ensures
        final(side)@ == shifted(old(side)@, price, d),
{
    let cur: i64 = match side.get(price) {
        Some(x) => x,
        None => 0,
    };
    let new = sat(cur as i128 + d as i128);
    if new <= 0 {
        side.remove(price);
    } else {
        side.set(price, new);
    }
}

impl View for KalshiBook {
    type V = KBookV;

    closed spec fn view(&self) -> KBookV {
        KBookV {
            yes: self.yes@,
            no: self.no@,
            seq: self.seq,
            initialized: self.initialized,
        }
    }
}

impl Default for KalshiBook {
    fn default() -> (r: KalshiBook)
        ensures
            r@ == no_book(),
    {
        KalshiBook { yes: Ladder::new(), no: Ladder::new(), seq: None, initialized: false }
    }
}

impl KalshiBook {
    /// A level without size is not held.
    #[verifier::type_invariant]
    spec fn every_level_has_a_size(self) -> bool {
        all_sized(self.yes@) && all_sized(self.no@)
    }

    /// Starts over from a snapshot.
    pub fn apply_snapshot(
        &mut self,
        yes: &Vec<(i64, i64)>,
        no: &Vec<(i64, i64)>,
        seq: Option<i64>,
    )
        ensures
            final(self)@ == snapshot_book(yes@, no@, seq),
    {
        let mut y = Ladder::new();
        let mut n = Ladder::new();
        fill_side(&mut y, yes);
        fill_side(&mut n, no);
        proof {
            lemma_filled_is_sized(Map::empty(), yes@);
            lemma_filled_is_sized(Map::empty(), no@);
        }
        *self = KalshiBook { yes: y, no: n, seq, initialized: true };
    }

    /// Takes a change in; `true` where its number leaves a gap.
    pub fn apply_delta(&mut self, side: KSide, price: i64, size_delta: i64, seq: Option<i64>) -> (r: bool)
        ensures
            final(self)@ == delta_book(old(self)@, side, price, size_delta, seq),
            r == (old(self)@.initialized && is_gap(old(self)@.seq, seq)),
    {
        if !self.initialized {
            return false;
        }
        let gap: bool = match (self.seq, seq) {
            (Some(prev), Some(cur)) => cur as i128 != prev as i128 + 1,
            _ => false,
        };
        proof {
            use_type_invariant(&*self);
        }
        self.seq = seq;
        let mut l = Ladder::new();
        match side {
            KSide::Yes => {
                std::mem::swap(&mut l, &mut self.yes);
                shift(&mut l, price, size_delta);
                self.yes = l;
            },
            KSide::No => {
                std::mem::swap(&mut l, &mut self.no);
                shift(&mut l, price, size_delta);
                self.no = l;
            },
        }
        gap
    }

    /// Whether there was a snapshot.
    pub fn initialized(&self) -> (r: bool)
        ensures
            r == self@.initialized,
    {
        self.initialized
    }

    /// The yes ladder: its own bids, and the offers that the no bids make.
    pub fn top_n(&self, n: usize) -> (r: (Vec<(i64, i64)>, Vec<(i64, i64)>))
        ensures
            are_best(self@.yes, n as int, r.0@),
            are_offers(self@.no, n as int, r.1@),
            is_sized(self@),
    {
        proof {
            use_type_invariant(self);
        }
        let bids = self.yes.highest(n);
        let offers = mirror_levels(self.no.highest(n));
        assert(self@.yes == self.yes@ && self@.no == self.no@);
        (bids, offers)
    }

    /// The no ladder: its own bids, and the offers that the yes bids make.
    pub fn top_n_no(&self, n: usize) -> (r: (Vec<(i64, i64)>, Vec<(i64, i64)>))
        ensures
            are_best(self@.no, n as int, r.0@),
            are_offers(self@.yes, n as int, r.1@),
            is_sized(self@),
    {
        proof {
            use_type_invariant(self);
        }
        let bids = self.no.highest(n);
        let offers = mirror_levels(self.yes.highest(n));
        assert(self@.yes == self.yes@ && self@.no == self.no@);
        (bids, offers)
    }
}

/// Whether an event publishes one outcome of a market from a book.
pub open spec fn is_book_event(
    e: Event,
    ticker: Seq<char>,
    label: Seq<char>,
    own: Map<i64, i64>,
    other: Map<i64, i64>,
    recv: i64,
    n: int,
) -> bool {
    &&& e.topic@ == "market.kalshi."@ + ticker + ".book"@
    &&& e.source@ == "kalshi"@
    &&& e.ts_ns == recv
    &&& match e.payload {
        Payload::Book(b) => {
            &&& b.instrument@ == "kalshi."@ + ticker + "."@ + label
            &&& are_best(own, n, b.bids@)
            &&& are_offers(other, n, b.asks@)
            &&& b.update_id is None
            &&& b.exch_ts_ns == recv
            &&& b.recv_ts_ns == recv
        },
        _ => false,
    }
}

/// Whether a run of events publishes both outcomes of a market.
pub open spec fn publishes(evs: Seq<Event>, ticker: Seq<char>, v: KBookV, recv: i64, n: int) -> bool {
    &&& evs.len() == 2
    &&& is_book_event(evs[0], ticker, "YES"@, v.yes, v.no, recv, n)
    &&& is_book_event(evs[1], ticker, "NO"@, v.no, v.yes, recv, n)
}

fn book_event(
    ticker: &str,
    label: &str,
    bids: Vec<(i64, i64)>,
    asks: Vec<(i64, i64)>,
    recv: i64,
    seq: &mut u64,
) -> (r: Event)
    ensures
        r.topic@ == "market.kalshi."@ + ticker@ + ".book"@,
        r.source@ == "kalshi"@,
        r.ts_ns == recv,
        r.seq == *old(seq),
        *final(seq) == net::counted(*old(seq), 1),
        match r.payload {
            Payload::Book(b) => {
                &&& b.instrument@ == "kalshi."@ + ticker@ + "."@ + label@
                &&& b.bids@ == bids@
                &&& b.asks@ == asks@
                &&& b.update_id is None
                &&& b.exch_ts_ns == recv
                &&& b.recv_ts_ns == recv
            },
            _ => false,
        },
{
    let t = joined("market.kalshi.", ticker);
    let a = joined("kalshi.", ticker);
    let b = joined(a.as_str(), ".");
    Event {
        topic: joined(t.as_str(), ".book"),
        source: "kalshi",
        ts_ns: recv,
        seq: nxt(seq),
        payload: Payload::Book(
            BookUpdate {
                instrument: joined(b.as_str(), label),
                bids,
                asks,
                update_id: None,
                exch_ts_ns: recv,
                recv_ts_ns: recv,
            },
        ),
    }
}

/// The events that publish both outcomes of a market.
pub fn book_events(ticker: &str, book: &KalshiBook, recv: i64, top_n: usize, seq: &mut u64) -> (r: Vec<
    Event,
>)
    ensures
        publishes(r@, ticker@, book@, recv, top_n as int),
        net::counted_up(r@, *old(seq), *final(seq)),
{
    let (yb, ya) = book.top_n(top_n);
    let (nb, na) = book.top_n_no(top_n);
    let mut r: Vec<Event> = Vec::new();
    let e0 = book_event(ticker, "YES", yb, ya, recv, seq);
    let e1 = book_event(ticker, "NO", nb, na, recv, seq);
    r.push(e0);
    r.push(e1);
    r
}

/// The books of all markets of a session.
pub struct Books {
    m: StrMap<KalshiBook>,
}

/// The views of the books.
pub open spec fn book_views(m: Map<Seq<char>, KalshiBook>) -> Map<Seq<char>, KBookV> {
    m.map_values(|b: KalshiBook| b@)
}

/// The book of a market, or an empty one.
pub open spec fn book_in(m: Map<Seq<char>, KBookV>, ticker: Seq<char>) -> KBookV {
    if m.contains_key(ticker) {
        m[ticker]
    } else {
        no_book()
    }
}

/// The market of a frame.
pub open spec fn frame_ticker(f: JsonV) -> Seq<char> {
    match json::text_at(json::at(f.field("msg"@), "market_ticker"@)) {
        Some(t) => t,
        None => Seq::empty(),
    }
}

/// Whether a market is wanted.
pub open spec fn is_tracked(wanted: Seq<(String, String)>, ticker: Seq<char>) -> bool {
    exists|i: int| 0 <= i < wanted.len() && (#[trigger] wanted[i]).0@ == ticker
}

/// The book of its market after a frame; `None` where the frame changes none.
pub open spec fn frame_book(m: Map<Seq<char>, KBookV>, f: JsonV) -> Option<KBookV> {
    let kind = json::text_at(f.field("type"@));
    let b = book_in(m, frame_ticker(f));
    if kind == Some("orderbook_snapshot"@) {
        Some(
            snapshot_book(
                levels_at(msg_of(f), "yes_dollars_fp"@, "yes"@),
                levels_at(msg_of(f), "no_dollars_fp"@, "no"@),
                json::integer_at(f.field("seq"@)),
            ),
        )
    } else if kind == Some("orderbook_delta"@) {
        match delta_of(f) {
            Some((side, p, d, s)) => Some(delta_book(b, side, p, d, s)),
            None => None,
        }
    } else {
        None
    }
}

/// Whether a frame leaves a gap in the numbers of its market.
pub open spec fn frame_gap(m: Map<Seq<char>, KBookV>, f: JsonV) -> bool {
    let b = book_in(m, frame_ticker(f));
    json::text_at(f.field("type"@)) == Some("orderbook_delta"@) && match delta_of(f) {
        Some((_, _, _, s)) => b.initialized && is_gap(b.seq, s),
        None => false,
    }
}

impl View for Books {
    type V = Map<Seq<char>, KBookV>;

    closed spec fn view(&self) -> Map<Seq<char>, KBookV> {
        book_views(self.m@)
    }
}

fn tracks(wanted: &Vec<(String, String)>, ticker: &str) -> (r: bool)
    ensures
        r == is_tracked(wanted@, ticker@),
{
    let mut i: usize = 0;
    while i < wanted.len()
        invariant
            i <= wanted@.len(),
            forall|j: int| 0 <= j < i ==> (#[trigger] wanted@[j]).0@ != ticker@,
        decreases wanted@.len() - i,
    {
        if same(wanted[i].0.as_str(), ticker) {
            assert(wanted@[i as int].0@ == ticker@);
            return true;
        }
        i = i + 1;
    }
    false
}

impl Books {
    /// No books.
    pub fn new() -> (r: Books)
        ensures
            r@ == Map::<Seq<char>, KBookV>::empty(),
    {
        let r = Books { m: StrMap::new() };
        assert(r@ =~= Map::<Seq<char>, KBookV>::empty());
        r
    }

    fn take(&mut self, ticker: &str) -> (b: KalshiBook)
        ensures
            b@ == book_in(old(self)@, ticker@),
            final(self)@ == old(self)@.remove(ticker@),
    {
        let b = match self.m.remove(ticker) {
            Some(b) => b,
            None => KalshiBook::default(),
        };
        assert(self@ =~= old(self)@.remove(ticker@));
        b
    }

    fn put(&mut self, ticker: &str, b: KalshiBook)
        ensures
            final(self)@ == old(self)@.insert(ticker@, b@),
    {
        self.m.insert(ticker.to_string(), b);
        assert(self@ =~= old(self)@.insert(ticker@, b@));
    }

    /// Takes a frame in: the book of a wanted market follows it and is published; `true`
    /// where a gap asks for a new connection.
    pub fn route_ws(
        &mut self,
        frame: &Json,
        wanted: &Vec<(String, String)>,
        recv: i64,
        top_n: usize,
        seq: &mut u64,
    ) -> (r: (bool, Vec<Event>))
        ensures
            ({
                let t = frame_ticker(frame@);
                let next = frame_book(old(self)@, frame@);
                if !is_tracked(wanted@, t) || next is None {
                    !r.0 && r.1@.len() == 0 && final(self)@ == old(self)@
                } else {
                    &&& r.0 == frame_gap(old(self)@, frame@)
                    &&& final(self)@ == old(self)@.insert(t, next->0)
                    &&& publishes(r.1@, t, next->0, recv, top_n as int)
                }
            }),
            net::counted_up(r.1@, *old(seq), *final(seq)),
    {
        let ticker: String = match frame.get("msg") {
            Some(m) => match str_field(m, "market_ticker") {
                Some(t) => t.to_string(),
                None => String::new(),
            },
            None => String::new(),
        };
        assert(ticker@ =~= frame_ticker(frame@));
        if !tracks(wanted, ticker.as_str()) {
            return (false, Vec::new());
        }
        proof {
            reveal_strlit("orderbook_snapshot");
            reveal_strlit("orderbook_delta");
            assert("orderbook_snapshot"@.len() == 18 && "orderbook_delta"@.len() == 15);
        }
        let kind = match str_field(frame, "type") {
            Some(t) => t,
            None => {
                return (false, Vec::new());
            },
        };
        if same(kind, "orderbook_snapshot") {
            let (yes, no, s) = parse_ws_snapshot(frame);
            let mut b = self.take(ticker.as_str());
            b.apply_snapshot(&yes, &no, s);
            let evs = book_events(ticker.as_str(), &b, recv, top_n, seq);
            self.put(ticker.as_str(), b);
            assert(self@ =~= old(self)@.insert(ticker@, b@));
            (false, evs)
        } else if same(kind, "orderbook_delta") {
            match parse_ws_delta(frame) {
                Some((side, p, d, s)) => {
                    let mut b = self.take(ticker.as_str());
                    let gap = b.apply_delta(side, p, d, s);
                    let evs = book_events(ticker.as_str(), &b, recv, top_n, seq);
                    self.put(ticker.as_str(), b);
                    assert(self@ =~= old(self)@.insert(ticker@, b@));
                    (gap, evs)
                },
                None => (false, Vec::new()),
            }
        } else {
            (false, Vec::new())
        }
    }

    /// Takes a polled book in and publishes it.
    pub fn on_rest_book(&mut self, ticker: &str, ob: &Json, recv: i64, top_n: usize, seq: &mut u64) -> (r: Vec<
        Event,
    >)
        ensures
            ({
                let b = snapshot_book(
                    levels_at(rest_book(ob@), "yes_dollars"@, "yes"@),
                    levels_at(rest_book(ob@), "no_dollars"@, "no"@),
                    None,
                );
                &&& final(self)@ == old(self)@.insert(ticker@, b)
                &&& publishes(r@, ticker@, b, recv, top_n as int)
            }),
            net::counted_up(r@, *old(seq), *final(seq)),
    {
        let (yes, no) = parse_rest_orderbook(ob);
        let mut b = self.take(ticker);
        b.apply_snapshot(&yes, &no, None);
        let evs = book_events(ticker, &b, recv, top_n, seq);
        self.put(ticker, b);
        assert(self@ =~= old(self)@.insert(ticker@, b@));
        evs
    }
}

proof fn lemma_filled_is_sized(m: Map<i64, i64>, levels: Seq<(i64, i64)>)
    requires
        all_sized(m),
    ensures
        all_sized(ladder::filled_side(m, levels)),
    decreases levels.len(),
{
    if levels.len() > 0 {
        lemma_filled_is_sized(m, levels.drop_last());
    }
}

/// No book ever holds a level without size: not the empty one, not one after a snapshot,
/// whatever levels it has, and not one after a change.
pub proof fn law_every_level_has_a_size(
    v: KBookV,
    yes: Seq<(i64, i64)>,
    no: Seq<(i64, i64)>,
    side: KSide,
    price: i64,
    d: i64,
    seq: Option<i64>,
)
    requires
        is_sized(v),
    ensures
        is_sized(no_book()),
        is_sized(snapshot_book(yes, no, seq)),
        is_sized(delta_book(v, side, price, d, seq)),
{
    lemma_filled_is_sized(Map::empty(), yes);
    lemma_filled_is_sized(Map::empty(), no);
}

/// Whether the prices of a side are such that their complements can be told apart: only
/// prices at the far end of the range are not.
pub open spec fn can_mirror(m: Map<i64, i64>) -> bool {
    forall|p: i64| #[trigger] m.contains_key(p) ==> p >= 1_000_000 - i64::MAX
}

/// Whether the prices of some levels fall strictly.
pub open spec fn falls(s: Seq<(i64, i64)>) -> bool {
    forall|i: int, j: int| 0 <= i < j < s.len() ==> (#[trigger] s[i]).0 > (#[trigger] s[j]).0
}

/// The bids of one side and the offers that they make on the other: as many, each offer at
/// the complement of its bid and of its size, the bids falling and the offers rising, and
/// none without size.
pub open spec fn is_mirror(bids: Seq<(i64, i64)>, offers: Seq<(i64, i64)>, n: int) -> bool {
    &&& offers.len() == bids.len() <= n
    &&& forall|i: int|
        0 <= i < bids.len() ==> (#[trigger] offers[i]).0 == 1_000_000 - bids[i].0 && offers[i].1
            == bids[i].1 && bids[i].1 > 0
    &&& falls(bids)
    &&& ladder::ascending(offers)
}

proof fn lemma_is_mirror(m: Map<i64, i64>, n: int, bids: Seq<(i64, i64)>, offers: Seq<(i64, i64)>)
    requires
        n >= 0,
        all_sized(m),
        can_mirror(m),
        are_best(m, n, bids),
        are_offers(m, n, offers),
    ensures
        is_mirror(bids, offers, n),
{
    let a = choose|l: Seq<(i64, i64)>| #[trigger]
        ladder::lists(l, m) && bids == ladder::best_down(l, n);
    let b = choose|l: Seq<(i64, i64)>| #[trigger]
        ladder::lists(l, m) && offers == mirrored(ladder::best_down(l, n));
    ladder::law_listing_is_unique(a, b, m);
    assert forall|i: int| 0 <= i < bids.len() implies #[trigger] bids[i] == a[a.len() - 1 - i] by {}
    assert forall|i: int| 0 <= i < bids.len() implies (#[trigger] offers[i]).0 == 1_000_000
        - bids[i].0 && offers[i].1 == bids[i].1 && bids[i].1 > 0 by {
        assert(bids[i] == a[a.len() - 1 - i]);
        assert(m.contains_key(a[a.len() - 1 - i].0));
    }
    assert forall|i: int, j: int| 0 <= i < j < bids.len() implies (#[trigger] bids[i]).0 > (
    #[trigger] bids[j]).0 by {
        assert(a[a.len() - 1 - j].0 < a[a.len() - 1 - i].0);
    }
    assert forall|i: int, j: int| 0 <= i < j < offers.len() implies (#[trigger] offers[i]).0 < (
    #[trigger] offers[j]).0 by {
        assert(bids[i].0 > bids[j].0);
    }
}

/// The two ladders of one book: the offers of each are the bids of the other at the
/// complement of their prices, level by level.
pub proof fn law_ladders_mirror_each_other(
    v: KBookV,
    n: int,
    yb: Seq<(i64, i64)>,
    ya: Seq<(i64, i64)>,
    nb: Seq<(i64, i64)>,
    na: Seq<(i64, i64)>,
)
    requires
        n >= 0,
        is_sized(v),
        can_mirror(v.yes),
        can_mirror(v.no),
        are_best(v.yes, n, yb),
        are_offers(v.no, n, ya),
        are_best(v.no, n, nb),
        are_offers(v.yes, n, na),
    ensures
        is_mirror(yb, na, n),
        is_mirror(nb, ya, n),
{
    lemma_is_mirror(v.yes, n, yb, na);
    lemma_is_mirror(v.no, n, nb, ya);
}

/// Mirroring twice gives the bids back.
pub proof fn law_mirror_is_an_involution(s: Seq<(i64, i64)>)
    requires
        forall|i: int| 0 <= i < s.len() ==> 0 <= (#[trigger] s[i]).0 <= 1_000_000,
    ensures
        mirrored(mirrored(s)) == s,
{
    assert(mirrored(mirrored(s)) =~= s);
}

/// A change and its reverse leave a level as it was, where it had a size.
pub proof fn law_changes_undo(m: Map<i64, i64>, price: i64, d: i64)
    requires
        m.contains_key(price),
        m[price] > 0,
        0 < m[price] + d <= i64::MAX,
        d > i64::MIN,
    ensures
        shifted(shifted(m, price, d), price, (-d) as i64) == m,
{
    assert(shifted(shifted(m, price, d), price, (-d) as i64) =~= m);
}

/// A change of a side adds to the size at its price, and a level that comes to nothing goes;
/// the other side and all other prices stay. Before a snapshot nothing changes.
pub proof fn law_changes_add_to_their_side(
    v: KBookV,
    price: i64,
    other: i64,
    d: i64,
    seq: Option<i64>,
)
    requires
        other != price,
    ensures
        !v.initialized ==> delta_book(v, KSide::Yes, price, d, seq) == v && delta_book(
            v,
            KSide::No,
            price,
            d,
            seq,
        ) == v,
        v.initialized ==> {
            let y = delta_book(v, KSide::Yes, price, d, seq);
            let n = delta_book(v, KSide::No, price, d, seq);
            &&& y.no == v.no && n.yes == v.yes && y.seq == seq && n.seq == seq
            &&& y.yes == shifted(v.yes, price, d) && n.no == shifted(v.no, price, d)
            &&& y.initialized && n.initialized
        },
        ({
            let m = v.yes;
            let s = shifted(m, price, d);
            &&& m.contains_key(price) && 0 < m[price] + d <= i64::MAX ==> s.contains_key(price)
                && s[price] == m[price] + d
            &&& m.contains_key(price) && m[price] + d <= 0 ==> !s.contains_key(price)
            &&& !m.contains_key(price) && d > 0 ==> s.contains_key(price) && s[price] == d
            &&& !m.contains_key(price) && d <= 0 ==> !s.contains_key(price)
            &&& s.contains_key(other) <==> m.contains_key(other)
            &&& m.contains_key(other) ==> s[other] == m[other]
        }),
{
}

/// A number follows the one before it where it is one more; without numbers there is no gap.
pub proof fn law_numbers_follow_each_other(p: i64, c: i64)
    ensures
        is_gap(Some(p), Some(c)) <==> c != p + 1,
        !is_gap(None, Some(c)),
        !is_gap(Some(p), None),
{
}

/// The sides by their names, and prices in cents as hundredths.
pub proof fn law_sides_and_cents(p: i64)
    ensures
        dollars(p, false) == p,
        p >= 0 ==> dollars(p, true) * 100 <= p < dollars(p, true) * 100 + 100,
        forall|t: Seq<char>|
            #[trigger] text::lowered(t) == "yes"@ ==> side_named(Some(t)) == Some(KSide::Yes),
        forall|t: Seq<char>|
            #[trigger] text::lowered(t) == "no"@ ==> side_named(Some(t)) == Some(KSide::No),
        side_named(None) is None,
{
    reveal_strlit("yes");
    reveal_strlit("no");
    assert("yes"@.len() != "no"@.len());
}

/// What a frame does: a snapshot sets both sides, each from its own field; a change is of the
/// side, at the price and by the size that it tells; nothing else changes a book.
pub proof fn law_frames_set_their_sides(m: Map<Seq<char>, KBookV>, f: JsonV)
    ensures
        json::text_at(f.field("type"@)) == Some("orderbook_snapshot"@) ==> (frame_book(
            m,
            f,
        ) matches Some(b) && b.initialized && b.seq == json::integer_at(f.field("seq"@)) && b.yes
            == ladder::filled_side(
            Map::empty(),
            levels_at(msg_of(f), "yes_dollars_fp"@, "yes"@),
        ) && b.no == ladder::filled_side(
            Map::empty(),
            levels_at(msg_of(f), "no_dollars_fp"@, "no"@),
        )),
        json::text_at(f.field("type"@)) == Some("orderbook_delta"@) ==> (delta_of(f) matches Some(d)
            ==> frame_book(m, f) == Some(
            delta_book(book_in(m, frame_ticker(f)), d.0, d.1, d.2, d.3),
        )),
        json::text_at(f.field("type"@)) == Some("orderbook_delta"@) && delta_of(f) is None
            ==> frame_book(m, f) is None,
        json::text_at(f.field("type"@)) != Some("orderbook_snapshot"@) && json::text_at(
            f.field("type"@),
        ) != Some("orderbook_delta"@) ==> frame_book(m, f) is None,
        frame_gap(m, f) ==> m.contains_key(frame_ticker(f)) && m[frame_ticker(f)].initialized,
{
    reveal_strlit("orderbook_snapshot");
    reveal_strlit("orderbook_delta");
    assert("orderbook_snapshot"@.len() != "orderbook_delta"@.len());
}

/// An offer is at one less the price of the bid that makes it, and of its size.
pub proof fn law_offers_are_at_the_complement(s: Seq<(i64, i64)>, i: int)
    requires
        0 <= i < s.len(),
        0 <= s[i].0 <= 1_000_000,
    ensures
        mirrored(s).len() == s.len(),
        mirrored(s)[i].0 == 1_000_000 - s[i].0,
        mirrored(s)[i].1 == s[i].1,
{
}

/// What is published of a book: first the yes side with its own bids, and as asks what the no
/// bids offer; then the no side the other way round.
pub proof fn law_both_outcomes_are_published(
    evs: Seq<Event>,
    ticker: Seq<char>,
    v: KBookV,
    recv: i64,
    n: int,
)
    requires
        publishes(evs, ticker, v, recv, n),
    ensures
        evs.len() == 2,
        evs[0].payload matches Payload::Book(b) && b.instrument@ == "kalshi."@ + ticker + "."@
            + "YES"@ && are_best(v.yes, n, b.bids@) && are_offers(v.no, n, b.asks@) && b.recv_ts_ns
            == recv && b.exch_ts_ns == recv,
        evs[1].payload matches Payload::Book(b) && b.instrument@ == "kalshi."@ + ticker + "."@
            + "NO"@ && are_best(v.no, n, b.bids@) && are_offers(v.yes, n, b.asks@) && b.recv_ts_ns
            == recv && b.exch_ts_ns == recv,
        evs[0].topic@ == "market.kalshi."@ + ticker + ".book"@,
        evs[1].topic@ == "market.kalshi."@ + ticker + ".book"@,
        evs[0].ts_ns == recv && evs[1].ts_ns == recv,
        evs[0].source@ == "kalshi"@ && evs[1].source@ == "kalshi"@,
{
}

} // verus!
