//! Perpetual-futures depth: an order book that is kept in step with a numbered stream of
//! changes, starting from a snapshot.
use vstd::prelude::*;
use crate::collector::net;
use crate::collector::net::nxt;
use crate::event::{Event, Payload};
use crate::fixed;
use crate::fixed::{div_toward_zero, sat};
use crate::json;
use crate::json::{i64_field, Json};
use crate::json::JsonV;
use crate::ladder;
use crate::ladder::{change_side, fill_side, Ladder};
use crate::model::BookUpdate;
use crate::numeral;
use crate::text;
use crate::text::{contains_text, joined, same};

verus! {

/// The collector's settings.
#[derive(Debug)]
pub struct BinanceCfg {
    pub symbol: String,
    pub instrument: String,
    pub ws_base: String,
    pub rest_base: String,
    /// A top-of-book stream, or a stream of depth changes.
    pub stream: String,
    pub snapshot_limit: u32,
    pub socks_proxy: Option<String>,
    pub top_n: usize,
    pub stale_timeout_s: u64,
    pub reconnect_base_ms: u64,
    pub reconnect_max_ms: u64,
}

impl Default for BinanceCfg {
    fn default() -> (r: BinanceCfg)
        ensures
            r.symbol@ == "BTCUSDT"@,
            r.instrument@ == "binance.usdt_perp.BTCUSDT"@,
            r.ws_base@ == "wss://fstream.binance.com/public"@,
            r.rest_base@ == "https://fapi.binance.com"@,
            r.stream@ == "btcusdt@bookTicker"@,
            r.snapshot_limit == 1000,
            r.socks_proxy is Some && r.socks_proxy->0@ == "127.0.0.1:1080"@,
            r.top_n == 10,
            r.stale_timeout_s == 5,
            r.reconnect_base_ms == 500,
            r.reconnect_max_ms == 30_000,
    {
        BinanceCfg {
            symbol: "BTCUSDT".to_string(),
            instrument: "binance.usdt_perp.BTCUSDT".to_string(),
            ws_base: "wss://fstream.binance.com/public".to_string(),
            rest_base: "https://fapi.binance.com".to_string(),
            stream: "btcusdt@bookTicker".to_string(),
            snapshot_limit: 1000,
            socks_proxy: Some("127.0.0.1:1080".to_string()),
            top_n: 10,
            stale_timeout_s: 5,
            reconnect_base_ms: 500,
            reconnect_max_ms: 30_000,
        }
    }
}

/// A book: sizes by price, on each side.
pub struct L2Book {
    bids: Ladder,
    asks: Ladder,
}

/// A book, as the contracts see it.
#[verifier::ext_equal]
pub struct BookV {
    pub bids: Map<i64, i64>,
    pub asks: Map<i64, i64>,
}

/// The book that a snapshot gives.
pub open spec fn rebuilt(bids: Seq<(i64, i64)>, asks: Seq<(i64, i64)>) -> BookV {
    BookV { bids: ladder::filled_side(Map::empty(), bids), asks: ladder::filled_side(Map::empty(), asks) }
}

/// The book after a run of changes on each side.
pub open spec fn updated(v: BookV, bids: Seq<(i64, i64)>, asks: Seq<(i64, i64)>) -> BookV {
    BookV { bids: ladder::changed_side(v.bids, bids), asks: ladder::changed_side(v.asks, asks) }
}

/// Whether some bid is at or above some ask.
pub open spec fn is_crossed(v: BookV) -> bool {
    exists|b: i64, a: i64| #[trigger]
        v.bids.contains_key(b) && #[trigger] v.asks.contains_key(a) && b >= a
}

/// Whether `s` is the best `n` bids of a book, the highest first.
pub open spec fn are_best_bids(v: BookV, n: int, s: Seq<(i64, i64)>) -> bool {
    exists|l: Seq<(i64, i64)>| #[trigger]
        ladder::lists(l, v.bids) && s == ladder::best_down(l, n)
}

/// Whether `s` is the best `n` asks of a book, the lowest first.
pub open spec fn are_best_asks(v: BookV, n: int, s: Seq<(i64, i64)>) -> bool {
    exists|l: Seq<(i64, i64)>| #[trigger] ladder::lists(l, v.asks) && s == ladder::best_up(l, n)
}

impl View for L2Book {
    type V = BookV;

    closed spec fn view(&self) -> BookV {
        BookV { bids: self.bids@, asks: self.asks@ }
    }
}

impl L2Book {
    /// An empty book.
    pub fn new() -> (r: L2Book)
        ensures
            r@ == rebuilt(Seq::empty(), Seq::empty()),
    {
        L2Book { bids: Ladder::new(), asks: Ladder::new() }
    }

    /// Starts over from a snapshot.
    pub fn rebuild(&mut self, bids: &Vec<(i64, i64)>, asks: &Vec<(i64, i64)>)
        ensures
            final(self)@ == rebuilt(bids@, asks@),
    {
        self.bids = Ladder::new();
        self.asks = Ladder::new();
        fill_side(&mut self.bids, bids);
        fill_side(&mut self.asks, asks);
    }

    /// Takes changes in.
    pub fn update(&mut self, bids: &Vec<(i64, i64)>, asks: &Vec<(i64, i64)>)
        ensures
            final(self)@ == updated(old(self)@, bids@, asks@),
    {
        change_side(&mut self.bids, bids);
        change_side(&mut self.asks, asks);
    }

    /// Whether the best bid is at or above the best ask.
    pub fn crossed(&self) -> (r: bool)
        ensures
            r == is_crossed(self@),
    {
        match (self.bids.highest_key(), self.asks.lowest_key()) {
            (Some(b), Some(a)) => {
                proof {
                    if b >= a {
                        assert(self@.bids.contains_key(b) && self@.asks.contains_key(a));
                    }
                }
                b >= a
            },
            _ => false,
        }
    }

    /// The best `n` levels of each side, best first.
    pub fn top_n(&self, n: usize) -> (r: (Vec<(i64, i64)>, Vec<(i64, i64)>))
        ensures
            are_best_bids(self@, n as int, r.0@),
            are_best_asks(self@, n as int, r.1@),
    {
        let bids = self.bids.highest(n);
        let asks = self.asks.lowest(n);
        assert(self@.bids == self.bids@ && self@.asks == self.asks@);
        (bids, asks)
    }
}

/// One numbered change.
#[derive(Debug)]
pub struct Delta {
    /// The first number that it covers.
    pub big_u: i64,
    /// The last number that it covers.
    pub u: i64,
    /// The last number of the change before it.
    pub pu: i64,
    pub bids: Vec<(i64, i64)>,
    pub asks: Vec<(i64, i64)>,
    pub exch_ns: i64,
    pub recv_ns: i64,
}

/// A snapshot.
#[derive(Debug)]
pub struct Snapshot {
    pub last_update_id: i64,
    pub bids: Vec<(i64, i64)>,
    pub asks: Vec<(i64, i64)>,
}

/// A change, as the contracts see it.
pub struct DeltaV {
    pub big_u: i64,
    pub u: i64,
    pub pu: i64,
    pub bids: Seq<(i64, i64)>,
    pub asks: Seq<(i64, i64)>,
    pub exch_ns: i64,
    pub recv_ns: i64,
}

impl View for Delta {
    type V = DeltaV;

    open spec fn view(&self) -> DeltaV {
        DeltaV {
            big_u: self.big_u,
            u: self.u,
            pu: self.pu,
            bids: self.bids@,
            asks: self.asks@,
            exch_ns: self.exch_ns,
            recv_ns: self.recv_ns,
        }
    }
}

/// The price and the size of one level, where both can be read.
pub open spec fn level_of(v: JsonV) -> Option<(i64, i64)> {
    match (json::amount_at(v.elem(0)), json::size_at(v.elem(1))) {
        (Some(p), Some(q)) => Some((p, q)),
        _ => None,
    }
}

/// The levels of a list that can be read, in their order.
pub open spec fn levels_in(items: Seq<JsonV>) -> Seq<(i64, i64)>
    decreases items.len(),
{
    if items.len() == 0 {
        Seq::empty()
    } else {
        match level_of(items.last()) {
            Some(l) => levels_in(items.drop_last()).push(l),
            None => levels_in(items.drop_last()),
        }
    }
}

/// The levels of a field.
pub open spec fn levels_at(v: Option<JsonV>) -> Seq<(i64, i64)> {
    match v {
        Some(JsonV::Arr(a)) => levels_in(a),
        _ => Seq::empty(),
    }
}

/// Reads the levels of a field.
pub fn levels(v: Option<&Json>) -> (r: Vec<(i64, i64)>)
    ensures
        r@ == levels_at(json::seen(v)),
{
    let mut r: Vec<(i64, i64)> = Vec::new();
    if let Some(x) = v {
        if let Some(a) = x.as_array() {
            let ghost items = x@.items()->0;
            let mut i: usize = 0;
            assert(items.take(0) =~= Seq::<JsonV>::empty());
            while i < a.len()
                invariant
                    items == x@.items()->0,
                    items.len() == a@.len(),
                    forall|j: int| 0 <= j < a@.len() ==> #[trigger] items[j] == a@[j]@,
                    i <= a@.len(),
                    r@ == levels_in(items.take(i as int)),
                decreases a@.len() - i,
            {
                assert(items.take(i + 1).drop_last() =~= items.take(i as int));
                assert(items.take(i + 1).last() == items[i as int]);
                let p = match a[i].idx(0) {
                    Some(y) => y.amount(),
                    None => None,
                };
                let q = match a[i].idx(1) {
                    Some(y) => y.size(),
                    None => None,
                };
                if let (Some(p), Some(q)) = (p, q) {
                    r.push((p, q));
                }
                i = i + 1;
            }
            assert(items.take(items.len() as int) =~= items);
        }
    }
    r
}

/// The part of a frame that holds its data.
pub open spec fn data_of(v: JsonV) -> JsonV {
    match v.field("data"@) {
        Some(d) => d,
        None => v,
    }
}

/// The exchange's time of a frame: of the matching engine, else of the push, else ours.
pub open spec fn exch_ns_of(d: JsonV, recv_ns: i64) -> i64 {
    let ms = match json::integer_at(d.field("T"@)) {
        Some(t) => t as int,
        None => match json::integer_at(d.field("E"@)) {
            Some(t) => t as int,
            None => fixed::toward_zero(recv_ns as int, 1_000_000),
        },
    };
    fixed::clamp64(ms * 1_000_000) as i64
}

/// The change that a frame holds.
pub open spec fn delta_of(v: JsonV, recv_ns: i64) -> Option<DeltaV> {
    let d = data_of(v);
    let first = json::integer_at(d.field("U"@));
    let last = json::integer_at(d.field("u"@));
    if json::text_at(d.field("e"@)) != Some("depthUpdate"@) || first is None || last is None {
        None
    } else {
        Some(
            DeltaV {
                big_u: first->0,
                u: last->0,
                pu: match json::integer_at(d.field("pu"@)) {
                    Some(x) => x,
                    None => -1i64,
                },
                bids: levels_at(d.field("b"@)),
                asks: levels_at(d.field("a"@)),
                exch_ns: exch_ns_of(d, recv_ns),
                recv_ns,
            },
        )
    }
}

fn exch_ns(d: &Json, recv_ns: i64) -> (r: i64)
    ensures
        r == exch_ns_of(d@, recv_ns),
{
    let ms: i64 = match i64_field(d, "T") {
        Some(t) => t,
        None => match i64_field(d, "E") {
            Some(t) => t,
            None => div_toward_zero(recv_ns, 1_000_000),
        },
    };
    sat(ms as i128 * 1_000_000)
}

/// The change in a frame that is JSON already.
pub fn delta_in(v: &Json, recv_ns: i64) -> (r: Option<Delta>)
    ensures
        match r {
            Some(d) => delta_of(v@, recv_ns) == Some(d@),
            None => delta_of(v@, recv_ns) is None,
        },
{
    let d = match v.get("data") {
        Some(x) => x,
        None => v,
    };
    match json::str_field(d, "e") {
        Some(e) => {
            if !same(e, "depthUpdate") {
                return None;
            }
        },
        None => {
            return None;
        },
    }
    match (i64_field(d, "U"), i64_field(d, "u")) {
        (Some(big_u), Some(u)) => Some(
            Delta {
                big_u,
                u,
                pu: match i64_field(d, "pu") {
                    Some(x) => x,
                    None => -1,
                },
                bids: levels(d.get("b")),
                asks: levels(d.get("a")),
                exch_ns: exch_ns(d, recv_ns),
                recv_ns,
            },
        ),
        _ => None,
    }
}

/// Reads a frame of a depth stream.
pub fn parse_delta(txt: &str, recv_ns: i64) -> (r: Option<Delta>)
    ensures
        ({
            let d = match json::json_text(txt@) {
                Some(v) => delta_of(v, recv_ns),
                None => None,
            };
            match r {
                Some(x) => d == Some(x@),
                None => d is None,
            }
        }),
{
    match json::parse(txt) {
        Some(v) => delta_in(&v, recv_ns),
        None => None,
    }
}

/// Reads a snapshot.
pub fn parse_snapshot(v: &Json) -> (r: Option<Snapshot>)
    ensures
        match r {
            Some(s) => json::integer_at(v@.field("lastUpdateId"@)) == Some(s.last_update_id)
                && s.bids@ == levels_at(v@.field("bids"@)) && s.asks@ == levels_at(
                v@.field("asks"@),
            ),
            None => json::integer_at(v@.field("lastUpdateId"@)) is None,
        },
{
    match i64_field(v, "lastUpdateId") {
        Some(last_update_id) => Some(
            Snapshot {
                last_update_id,
                bids: levels(v.get("bids")),
                asks: levels(v.get("asks")),
            },
        ),
        None => None,
    }
}

/// A top of book.
#[derive(Clone, Copy, Debug, PartialEq, Eq, Structural)]
pub struct Ticker {
    pub bid: i64,
    pub bid_sz: i64,
    pub ask: i64,
    pub ask_sz: i64,
    pub u: i64,
    pub exch_ns: i64,
    pub recv_ns: i64,
}

/// `x`, or zero.
pub open spec fn or_zero(x: Option<i64>) -> i64 {
    match x {
        Some(v) => v,
        None => 0,
    }
}

/// The top of book that a frame holds; a frame of another kind holds none.
pub open spec fn ticker_of(v: JsonV, recv_ns: i64) -> Option<Ticker> {
    let d = data_of(v);
    let kind = json::text_at(d.field("e"@));
    let bid = json::amount_at(d.field("b"@));
    let ask = json::amount_at(d.field("a"@));
    if (kind is Some && kind != Some("bookTicker"@)) || bid is None || ask is None {
        None
    } else {
        Some(
            Ticker {
                bid: bid->0,
                bid_sz: or_zero(json::size_at(d.field("B"@))),
                ask: ask->0,
                ask_sz: or_zero(json::size_at(d.field("A"@))),
                u: or_zero(json::integer_at(d.field("u"@))),
                exch_ns: exch_ns_of(d, recv_ns),
                recv_ns,
            },
        )
    }
}

fn zero_or(x: Option<i64>) -> (r: i64)
    ensures
        r == or_zero(x),
{
    match x {
        Some(v) => v,
        None => 0,
    }
}

/// The top of book in a frame that is JSON already.
pub fn ticker_in(v: &Json, recv_ns: i64) -> (r: Option<Ticker>)
    ensures
        r == ticker_of(v@, recv_ns),
{
    let d = match v.get("data") {
        Some(x) => x,
        None => v,
    };
    if let Some(e) = json::str_field(d, "e") {
        if !same(e, "bookTicker") {
            return None;
        }
    }
    match (json::amount_field(d, "b"), json::amount_field(d, "a")) {
        (Some(bid), Some(ask)) => Some(
            Ticker {
                bid,
                bid_sz: zero_or(json::size_field(d, "B")),
                ask,
                ask_sz: zero_or(json::size_field(d, "A")),
                u: zero_or(i64_field(d, "u")),
                exch_ns: exch_ns(d, recv_ns),
                recv_ns,
            },
        ),
        _ => None,
    }
}

/// Reads a frame of a top-of-book stream.
pub fn parse_book_ticker(txt: &str, recv_ns: i64) -> (r: Option<Ticker>)
    ensures
        r == match json::json_text(txt@) {
            Some(v) => ticker_of(v, recv_ns),
            None => None,
        },
{
    match json::parse(txt) {
        Some(v) => ticker_in(&v, recv_ns),
        None => None,
    }
}

/// A book in step with a stream: changes that come before the snapshot are kept for it.
pub struct SeqBook {
    book: L2Book,
    last_u: i64,
    initialized: bool,
    /// Whether a change was taken in since the snapshot.
    first_applied: bool,
    buffer: Vec<Delta>,
}

/// A book in step with a stream, as the contracts see it.
#[verifier::ext_equal]
pub struct SeqBookV {
    pub book: BookV,
    pub last_u: i64,
    pub initialized: bool,
    /// Whether a change was taken in since the snapshot.
    pub first_applied: bool,
    pub buffer: Seq<DeltaV>,
}

/// The views of a run of changes.
pub open spec fn delta_views(s: Seq<Delta>) -> Seq<DeltaV> {
    Seq::new(s.len(), |i: int| s[i]@)
}

/// The changes that a snapshot does not cover.
pub open spec fn kept(s: Seq<DeltaV>, id: i64) -> Seq<DeltaV>
    decreases s.len(),
{
    if s.len() == 0 {
        Seq::empty()
    } else if s.last().u >= id {
        kept(s.drop_last(), id).push(s.last())
    } else {
        kept(s.drop_last(), id)
    }
}

/// The book and the last number after a run of changes, up to the first that crosses the
/// book; whether none did.
pub open spec fn replayed(b: BookV, last_u: i64, s: Seq<DeltaV>) -> (BookV, i64, bool)
    decreases s.len(),
{
    if s.len() == 0 {
        (b, last_u, true)
    } else {
        let (c, n, ok) = replayed(b, last_u, s.drop_last());
        if !ok {
            (c, n, false)
        } else {
            let d = s.last();
            let next = updated(c, d.bids, d.asks);
            (next, d.u, !is_crossed(next))
        }
    }
}

/// Whether a change begins no later than a number and ends no earlier.
pub open spec fn reaches_over(d: DeltaV, id: i64) -> bool {
    d.big_u <= id <= d.u
}

/// Whether a change goes on where a book stands: it follows the last one; or, where none was
/// taken in since the snapshot, it reaches over the snapshot's number.
pub open spec fn goes_on(v: SeqBookV, d: DeltaV) -> bool {
    d.pu == v.last_u || (!v.first_applied && reaches_over(d, v.last_u))
}

/// A book after a snapshot: the changes that it does not cover are replayed; the first of
/// them must reach over the snapshot's own number.
pub open spec fn snapshot_applied(v: SeqBookV, s: Snapshot) -> (SeqBookV, bool) {
    let id = s.last_update_id;
    let start = rebuilt(s.bids@, s.asks@);
    let rest = kept(v.buffer, id);
    let base = SeqBookV {
        book: start,
        last_u: id,
        initialized: false,
        first_applied: false,
        buffer: Seq::empty(),
    };
    if rest.len() == 0 {
        (SeqBookV { initialized: true, ..base }, true)
    } else if !reaches_over(rest[0], id) {
        (base, false)
    } else {
        let (book, last_u, ok) = replayed(start, id, rest);
        (
            SeqBookV {
                book,
                last_u,
                initialized: ok,
                first_applied: ok,
                buffer: Seq::empty(),
            },
            ok,
        )
    }
}

/// A book after a change: kept where there is no snapshot yet (`Some(false)`); taken in
/// where it goes on where the book stands (`Some(true)`); a gap or a crossed book gives
/// `None`.
pub open spec fn delta_applied(v: SeqBookV, d: DeltaV) -> (SeqBookV, Option<bool>) {
    if !v.initialized {
        (SeqBookV { buffer: v.buffer.push(d), ..v }, Some(false))
    } else if !goes_on(v, d) {
        (v, None)
    } else {
        let book = updated(v.book, d.bids, d.asks);
        let w = SeqBookV { book, last_u: d.u, ..v };
        if is_crossed(book) {
            (w, None)
        } else {
            (SeqBookV { first_applied: true, ..w }, Some(true))
        }
    }
}

impl View for SeqBook {
    type V = SeqBookV;

    closed spec fn view(&self) -> SeqBookV {
        SeqBookV {
            book: self.book@,
            last_u: self.last_u,
            initialized: self.initialized,
            first_applied: self.first_applied,
            buffer: delta_views(self.buffer@),
        }
    }
}

impl SeqBook {
    /// A book before its first snapshot.
    pub fn new() -> (r: SeqBook)
        ensures
            r@ == (SeqBookV {
                book: rebuilt(Seq::empty(), Seq::empty()),
                last_u: 0,
                initialized: false,
                first_applied: false,
                buffer: Seq::empty(),
            }),
    {
        let r = SeqBook {
            book: L2Book::new(),
            last_u: 0,
            initialized: false,
            first_applied: false,
            buffer: Vec::new(),
        };
        assert(r@.buffer =~= Seq::<DeltaV>::empty());
        r
    }

    /// The book.
    pub fn book(&self) -> (r: &L2Book)
        ensures
            r@ == self@.book,
    {
        &self.book
    }

    /// The last number taken in.
    pub fn last_u(&self) -> (r: i64)
        ensures
            r == self@.last_u,
    {
        self.last_u
    }

    /// Whether there was a snapshot.
    pub fn initialized(&self) -> (r: bool)
        ensures
            r == self@.initialized,
    {
        self.initialized
    }

    /// Waits for another snapshot.
    pub fn reset_for_resync(&mut self)
        ensures
            final(self)@ == (SeqBookV {
                initialized: false,
                first_applied: false,
                buffer: Seq::empty(),
                ..old(self)@
            }),
    {
        self.initialized = false;
        self.first_applied = false;
        self.buffer = Vec::new();
        assert(self@.buffer =~= Seq::<DeltaV>::empty());
    }

    /// Starts over from a snapshot and replays what was kept; `false` where that does not
    /// fit together, and another snapshot is needed. Spot and futures go by the same rule.
    pub fn apply_snapshot(&mut self, snap: &Snapshot, _is_futures: bool) -> (r: bool)
        ensures
            (final(self)@, r) == snapshot_applied(old(self)@, *snap),
    {
        let ghost v0 = self@;
        self.book.rebuild(&snap.bids, &snap.asks);
        let id: i64 = snap.last_update_id;
        self.last_u = id;
        self.initialized = false;
        self.first_applied = false;
        let mut buf: Vec<Delta> = Vec::new();
        std::mem::swap(&mut buf, &mut self.buffer);
        assert(delta_views(self.buffer@) =~= Seq::<DeltaV>::empty());
        let ghost all = delta_views(buf@);
        let mut keep: Vec<usize> = Vec::new();
        let mut i: usize = 0;
        assert(all.take(0) =~= Seq::<DeltaV>::empty());
        assert(picked(all, keep@) =~= Seq::<DeltaV>::empty());
        while i < buf.len()
            invariant
                all == delta_views(buf@),
                i <= buf@.len(),
                forall|j: int| 0 <= j < keep@.len() ==> (#[trigger] keep@[j]) < i,
                picked(all, keep@) == kept(all.take(i as int), id),
            decreases buf@.len() - i,
        {
            assert(all.take(i + 1).drop_last() =~= all.take(i as int));
            assert(all.take(i + 1).last() == all[i as int]);
            if buf[i].u >= id {
                let ghost k0 = keep@;
                keep.push(i);
                assert(picked(all, keep@) =~= picked(all, k0).push(all[i as int]));
            }
            i = i + 1;
        }
        assert(all.take(all.len() as int) =~= all);
        let ghost rest = kept(all, id);
        assert(rest.len() == keep@.len());
        if keep.len() == 0 {
            self.initialized = true;
            return true;
        }
        assert(rest[0] == all[keep@[0] as int]);
        let f = &buf[keep[0]];
        if !(f.big_u <= id && id <= f.u) {
            return false;
        }
        let ghost start = self.book@;
        let mut j: usize = 0;
        assert(rest.take(0) =~= Seq::<DeltaV>::empty());
        while j < keep.len()
            invariant
                all == delta_views(buf@),
                rest == picked(all, keep@),
                forall|a: int| 0 <= a < keep@.len() ==> (#[trigger] keep@[a]) < buf@.len(),
                j <= keep@.len(),
                start == rebuilt(snap.bids@, snap.asks@),
                rest == kept(v0.buffer, id),
                rest.len() > 0,
                reaches_over(rest[0], id),
                v0 == old(self)@,
                id == snap.last_update_id,
                replayed(start, id, rest.take(j as int)) == (self.book@, self.last_u, true),
                !self.initialized,
                !self.first_applied,
                delta_views(self.buffer@) == Seq::<DeltaV>::empty(),
            decreases keep@.len() - j,
        {
            let d = &buf[keep[j]];
            assert(rest[j as int] == d@);
            assert(rest.take(j + 1).drop_last() =~= rest.take(j as int));
            assert(rest.take(j + 1).last() == d@);
            self.book.update(&d.bids, &d.asks);
            self.last_u = d.u;
            if self.book.crossed() {
                proof {
                    lemma_replay_stops(start, id, rest, j + 1);
                }
                return false;
            }
            j = j + 1;
        }
        assert(rest.take(rest.len() as int) =~= rest);
        self.initialized = true;
        self.first_applied = true;
        true
    }

    /// Takes a change in, or keeps it for the snapshot; `None` asks for another snapshot.
    pub fn on_delta(&mut self, d: Delta) -> (r: Option<bool>)
        ensures
            (final(self)@, r) == delta_applied(old(self)@, d@),
    {
        if !self.initialized {
            self.buffer.push(d);
            assert(delta_views(self.buffer@) =~= old(self)@.buffer.push(d@));
            return Some(false);
        }
        let over: bool = d.big_u <= self.last_u && self.last_u <= d.u;
        if d.pu != self.last_u && (self.first_applied || !over) {
            return None;
        }
        self.book.update(&d.bids, &d.asks);
        self.last_u = d.u;
        if self.book.crossed() {
            return None;
        }
        self.first_applied = true;
        Some(true)
    }
}

/// The changes at these positions.
spec fn picked(s: Seq<DeltaV>, at: Seq<usize>) -> Seq<DeltaV> {
    Seq::new(at.len(), |i: int| s[at[i] as int])
}

/// A change that crosses the book ends a replay.
proof fn lemma_replay_stops(b: BookV, last_u: i64, s: Seq<DeltaV>, n: int)
    requires
        0 <= n <= s.len(),
        !replayed(b, last_u, s.take(n)).2,
    ensures
        replayed(b, last_u, s) == replayed(b, last_u, s.take(n)),
    decreases s.len() - n,
{
    if n == s.len() {
        assert(s.take(n) =~= s);
    } else {
        assert(s.take(n + 1).drop_last() =~= s.take(n));
        lemma_replay_stops(b, last_u, s, n + 1);
    }
}

/// What a session does next.
#[derive(Clone, Copy, Debug, PartialEq, Eq, Structural)]
pub enum SessionStep {
    /// Nothing.
    Idle,
    /// The book is published with these times.
    Publish { exch_ns: i64, recv_ns: i64 },
    /// A snapshot is fetched after a pause.
    Fetch { delay_ms: u64 },
}

/// What a session does with a snapshot: publish, or fetch another one; a failed fetch is
/// tried again.
pub fn on_snapshot(sb: &mut SeqBook, snap: Option<&Snapshot>, now_ns: i64) -> (r: SessionStep)
    ensures
        match snap {
            None => final(sb)@ == old(sb)@ && r == (SessionStep::Fetch { delay_ms: 500 }),
            Some(s) => {
                let (v, ok) = snapshot_applied(old(sb)@, *s);
                if ok {
                    final(sb)@ == v && r == (SessionStep::Publish {
                        exch_ns: now_ns,
                        recv_ns: now_ns,
                    })
                } else {
                    final(sb)@ == (SeqBookV {
                        initialized: false,
                        first_applied: false,
                        buffer: Seq::empty(),
                        ..v
                    }) && r == (SessionStep::Fetch { delay_ms: 200 })
                }
            },
        },
{
    match snap {
        None => SessionStep::Fetch { delay_ms: 500 },
        Some(s) => {
            if sb.apply_snapshot(s, true) {
                SessionStep::Publish { exch_ns: now_ns, recv_ns: now_ns }
            } else {
                sb.reset_for_resync();
                SessionStep::Fetch { delay_ms: 200 }
            }
        },
    }
}

/// What a session does with a change: publish, keep it, or start over.
pub fn on_change(sb: &mut SeqBook, d: Delta) -> (r: SessionStep)
    ensures
        ({
            let (v, ok) = delta_applied(old(sb)@, d@);
            match ok {
                Some(true) => final(sb)@ == v && r == (SessionStep::Publish {
                    exch_ns: d.exch_ns,
                    recv_ns: d.recv_ns,
                }),
                Some(false) => final(sb)@ == v && r == SessionStep::Idle,
                None => final(sb)@ == (SeqBookV {
                    initialized: false,
                    first_applied: false,
                    buffer: Seq::empty(),
                    ..v
                }) && r == (SessionStep::Fetch { delay_ms: 0 }),
            }
        }),
{
    let exch_ns: i64 = d.exch_ns;
    let recv_ns: i64 = d.recv_ns;
    match sb.on_delta(d) {
        Some(true) => SessionStep::Publish { exch_ns, recv_ns },
        Some(false) => SessionStep::Idle,
        None => {
            sb.reset_for_resync();
            SessionStep::Fetch { delay_ms: 0 }
        },
    }
}

/// Whether a stream is one of tops of book.
pub fn is_book_ticker(cfg: &BinanceCfg) -> (r: bool)
    ensures
        r == text::contains(cfg.stream@, "bookTicker"@),
{
    contains_text(cfg.stream.as_str(), "bookTicker")
}

/// The topic that a symbol's book is published under.
pub fn book_topic(cfg: &BinanceCfg) -> (r: String)
    ensures
        r@ == "market.binance.usdt_perp."@ + cfg.symbol@ + ".book"@,
{
    let a = joined("market.binance.usdt_perp.", cfg.symbol.as_str());
    joined(a.as_str(), ".book")
}

/// The event that publishes a book.
pub fn book_event(
    cfg: &BinanceCfg,
    book: &L2Book,
    exch_ns: i64,
    recv_ns: i64,
    u: i64,
    seq: &mut u64,
) -> (r: Event)
    ensures
        r.topic@ == "market.binance.usdt_perp."@ + cfg.symbol@ + ".book"@,
        r.source@ == "binance"@,
        r.ts_ns == recv_ns,
        r.seq == *old(seq),
        *final(seq) == net::counted(*old(seq), 1),
        match r.payload {
            Payload::Book(b) => {
                &&& b.instrument@ == cfg.instrument@
                &&& are_best_bids(book@, cfg.top_n as int, b.bids@)
                &&& are_best_asks(book@, cfg.top_n as int, b.asks@)
                &&& b.update_id == Some(u as u64)
                &&& b.exch_ts_ns == exch_ns
                &&& b.recv_ts_ns == recv_ns
            },
            _ => false,
        },
{
    let (bids, asks) = book.top_n(cfg.top_n);
    Event {
        topic: book_topic(cfg),
        source: "binance",
        ts_ns: recv_ns,
        seq: nxt(seq),
        payload: Payload::Book(
            BookUpdate {
                instrument: cfg.instrument.clone(),
                bids,
                asks,
                update_id: Some(u as u64),
                exch_ts_ns: exch_ns,
                recv_ts_ns: recv_ns,
            },
        ),
    }
}

/// The event that publishes a top of book.
pub fn ticker_event(cfg: &BinanceCfg, tk: &Ticker, seq: &mut u64) -> (r: Event)
    ensures
        r.topic@ == "market.binance.usdt_perp."@ + cfg.symbol@ + ".book"@,
        r.source@ == "binance"@,
        r.ts_ns == tk.recv_ns,
        r.seq == *old(seq),
        *final(seq) == net::counted(*old(seq), 1),
        match r.payload {
            Payload::Book(b) => {
                &&& b.instrument@ == cfg.instrument@
                &&& b.bids@ == seq![(tk.bid, tk.bid_sz)]
                &&& b.asks@ == seq![(tk.ask, tk.ask_sz)]
                &&& b.update_id == Some(tk.u as u64)
                &&& b.exch_ts_ns == tk.exch_ns
                &&& b.recv_ts_ns == tk.recv_ns
            },
            _ => false,
        },
{
    let mut bids: Vec<(i64, i64)> = Vec::new();
    bids.push((tk.bid, tk.bid_sz));
    let mut asks: Vec<(i64, i64)> = Vec::new();
    asks.push((tk.ask, tk.ask_sz));
    Event {
        topic: book_topic(cfg),
        source: "binance",
        ts_ns: tk.recv_ns,
        seq: nxt(seq),
        payload: Payload::Book(
            BookUpdate {
                instrument: cfg.instrument.clone(),
                bids,
                asks,
                update_id: Some(tk.u as u64),
                exch_ts_ns: tk.exch_ns,
                recv_ts_ns: tk.recv_ns,
            },
        ),
    }
}

/// No book that is published is crossed, and no published change leaves a gap: a change
/// that was taken in follows the one before it, or is the first since the snapshot and
/// reaches over its number.
pub proof fn law_published_books_are_in_step(v: SeqBookV, d: DeltaV)
    requires
        delta_applied(v, d).1 == Some(true),
    ensures
        !is_crossed(delta_applied(v, d).0.book),
        v.initialized,
        d.pu == v.last_u || (!v.first_applied && d.big_u <= v.last_u <= d.u),
        delta_applied(v, d).0.first_applied,
        delta_applied(v, d).0.last_u == d.u,
{
}

/// A change that was refused for a gap leaves the book as it was.
pub proof fn law_gaps_change_nothing(v: SeqBookV, d: DeltaV)
    requires
        v.initialized,
        !goes_on(v, d),
    ensures
        delta_applied(v, d) == (v, None::<bool>),
{
}

/// What a depth frame holds: the bids are its `b` and the asks its `a`, a level is a price
/// and a size, and its numbers are those of its first and its last change.
pub proof fn law_depth_frames_are_read(v: JsonV, recv_ns: i64, l: JsonV)
    ensures
        delta_of(v, recv_ns) matches Some(d) ==> {
            let f = data_of(v);
            &&& json::integer_at(f.field("U"@)) == Some(d.big_u)
            &&& json::integer_at(f.field("u"@)) == Some(d.u)
            &&& json::integer_at(f.field("pu"@)) matches Some(x) ==> d.pu == x
            &&& d.bids == levels_at(f.field("b"@))
            &&& d.asks == levels_at(f.field("a"@))
            &&& d.recv_ns == recv_ns
            &&& json::integer_at(f.field("T"@)) matches Some(t) ==> (i64::MIN <= t * 1_000_000
                <= i64::MAX ==> d.exch_ns == t * 1_000_000)
        },
        level_of(l) matches Some(x) ==> json::amount_at(l.elem(0)) == Some(x.0) && json::size_at(
            l.elem(1),
        ) == Some(x.1),
        ticker_of(v, recv_ns) matches Some(t) ==> {
            let f = data_of(v);
            &&& json::amount_at(f.field("b"@)) == Some(t.bid)
            &&& json::amount_at(f.field("a"@)) == Some(t.ask)
            &&& json::size_at(f.field("B"@)) matches Some(x) ==> t.bid_sz == x
            &&& json::size_at(f.field("A"@)) matches Some(x) ==> t.ask_sz == x
            &&& t.recv_ns == recv_ns
        },
{
}

/// A book is crossed exactly where some bid is at or above some ask; a snapshot and a change
/// go to their own sides.
pub proof fn law_bids_and_asks_are_kept_apart(
    v: BookV,
    bids: Seq<(i64, i64)>,
    asks: Seq<(i64, i64)>,
    b: i64,
    a: i64,
)
    ensures
        v.bids.contains_key(b) && v.asks.contains_key(a) && b >= a ==> is_crossed(v),
        (forall|x: i64, y: i64|
            #[trigger] v.bids.contains_key(x) && #[trigger] v.asks.contains_key(y) ==> x < y)
            ==> !is_crossed(v),
        updated(v, bids, Seq::empty()).asks == v.asks,
        updated(v, Seq::empty(), asks).bids == v.bids,
        updated(v, bids, asks).bids == ladder::changed_side(v.bids, bids),
        updated(v, bids, asks).asks == ladder::changed_side(v.asks, asks),
        rebuilt(bids, asks).bids == ladder::filled_side(Map::empty(), bids),
        rebuilt(bids, asks).asks == ladder::filled_side(Map::empty(), asks),
{
}

/// After a snapshot, the changes that end before its number are dropped, and the first of the
/// others has to begin at or before it; where there is none the snapshot stands alone.
pub proof fn law_snapshots_take_up_the_changes(v: SeqBookV, s: Snapshot)
    ensures
        ({
            let (w, ok) = snapshot_applied(v, s);
            let rest = kept(v.buffer, s.last_update_id);
            &&& w.buffer.len() == 0
            &&& w.initialized == ok
            &&& rest.len() == 0 ==> ok && w.last_u == s.last_update_id && w.book == rebuilt(
                s.bids@,
                s.asks@,
            ) && !w.first_applied
            &&& rest.len() > 0 && rest[0].big_u > s.last_update_id ==> !ok
            &&& ok && rest.len() > 0 ==> rest[0].big_u <= s.last_update_id && w.first_applied
                && w.last_u == rest.last().u && !is_crossed(w.book)
        }),
        forall|i: int|
            0 <= i < kept(v.buffer, s.last_update_id).len() ==> (#[trigger] kept(
                v.buffer,
                s.last_update_id,
            )[i]).u >= s.last_update_id,
        forall|i: int|
            0 <= i < v.buffer.len() && (#[trigger] v.buffer[i]).u >= s.last_update_id ==> kept(
                v.buffer,
                s.last_update_id,
            ).contains(v.buffer[i]),
{
    lemma_kept(v.buffer, s.last_update_id);
}

/// What is kept is what ends no earlier.
proof fn lemma_kept(s: Seq<DeltaV>, id: i64)
    ensures
        forall|i: int| 0 <= i < kept(s, id).len() ==> (#[trigger] kept(s, id)[i]).u >= id,
        forall|i: int|
            0 <= i < s.len() && (#[trigger] s[i]).u >= id ==> kept(s, id).contains(s[i]),
    decreases s.len(),
{
    if s.len() > 0 {
        let r = s.drop_last();
        lemma_kept(r, id);
        let k = kept(r, id);
        assert forall|i: int| 0 <= i < s.len() && (#[trigger] s[i]).u >= id implies kept(
            s,
            id,
        ).contains(s[i]) by {
            if i < r.len() {
                assert(r[i] == s[i]);
                let j = choose|j: int| 0 <= j < k.len() && k[j] == s[i];
                assert(kept(s, id)[j] == s[i]);
            } else {
                assert(kept(s, id)[k.len() as int] == s[i]);
            }
        }
    }
}

/// A change goes on where it names the last one as the one before it; and right after a
/// snapshot also where it begins no later than the snapshot's number and ends no earlier.
pub proof fn law_which_change_goes_on(v: SeqBookV, d: DeltaV)
    ensures
        goes_on(v, d) <==> d.pu == v.last_u || (!v.first_applied && d.big_u <= v.last_u && v.last_u
            <= d.u),
{
}

} // verus!
