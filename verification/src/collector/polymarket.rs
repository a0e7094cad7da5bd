//! Short up-or-down markets: their slugs, their books and their trades.
use vstd::prelude::*;
use crate::collector::binance;
use crate::collector::binance::BookV;
use crate::collector::kalshi;
use crate::collector::net;
use crate::collector::net::nxt;
use crate::event::{Event, Payload};
use crate::fixed;
use crate::fixed::sat;
use crate::json;
use crate::json::{amount_field, size_field, str_field, Json};
use crate::json::JsonV;
use crate::ladder::{fill_side, Ladder};
use crate::model::{BookUpdate, Side, TradeTick};
use crate::numeral;
use crate::numeral::i64_text;
use crate::strmap::StrMap;
use crate::text;
use crate::text::{joined, same, upper_ascii};

verus! {

/// The collector's settings.
#[derive(Debug)]
pub struct PolyCfg {
    pub prefix: String,
    pub window_sec: i64,
    pub n_windows: usize,
    pub kind: String,
    pub discovery_interval_s: u64,
    pub unsub_grace_s: i64,
    pub top_n: usize,
    pub user_agent: String,
}

impl Default for PolyCfg {
    fn default() -> (r: PolyCfg)
        ensures
            r.prefix@ == "btc-updown-5m"@,
            r.window_sec == 300,
            r.n_windows == 3,
            r.kind@ == "5m_updown"@,
            r.discovery_interval_s == 5,
            r.unsub_grace_s == 10,
            r.top_n == 10,
            r.user_agent@
                == "Mozilla/5.0 (Windows NT 10.0; Win64; x64) AppleWebKit/537.36 (KHTML, like Gecko) Chrome/120.0 Safari/537.36"@,
    {
        PolyCfg {
            prefix: "btc-updown-5m".to_string(),
            window_sec: 300,
            n_windows: 3,
            kind: "5m_updown".to_string(),
            discovery_interval_s: 5,
            unsub_grace_s: 10,
            top_n: 10,
            user_agent: "Mozilla/5.0 (Windows NT 10.0; Win64; x64) AppleWebKit/537.36 (KHTML, like Gecko) Chrome/120.0 Safari/537.36".to_string(),
        }
    }
}

/// The start of the `i`-th window from the current one on.
pub open spec fn window_start(window_sec: i64, i: int, now_sec: i64) -> i64 {
    fixed::clamp64(
        fixed::floor_quotient(now_sec as int, window_sec as int) * window_sec + i * window_sec,
    ) as i64
}

/// The slug of a window.
pub open spec fn slug_of(prefix: Seq<char>, start: i64) -> Seq<char> {
    prefix + "-"@ + numeral::int_text(start as int)
}

/// The slugs of the current window and of the ones after it, each with its start.
pub fn predict_slugs(prefix: &str, window_sec: i64, n: usize, now_sec: i64) -> (r: Vec<(String, i64)>)
    requires
        window_sec != 0,
    ensures
        r@.len() == n,
        forall|i: int|
            0 <= i < n ==> (#[trigger] r@[i]).1 == window_start(window_sec, i, now_sec)
                && r@[i].0@ == slug_of(prefix@, r@[i].1),
{
    let q: i128 = fixed::floor_div(now_sec, window_sec);
    let w: i128 = window_sec as i128;
    assert(-85070591730234615865843651857942052864 <= q * w
        <= 85070591730234615865843651857942052864) by (nonlinear_arith)
        requires
            -9223372036854775808 <= q <= 9223372036854775808,
            -9223372036854775808 <= w <= 9223372036854775808,
    ;
    let first: i128 = q * w;
    let mut r: Vec<(String, i64)> = Vec::new();
    let mut i: usize = 0;
    while i < n
        invariant
            i <= n,
            w == window_sec,
            first == fixed::floor_quotient(now_sec as int, window_sec as int) * window_sec,
            -85070591730234615865843651857942052864 <= first
                <= 85070591730234615865843651857942052864,
            r@.len() == i,
            forall|j: int|
                0 <= j < i ==> (#[trigger] r@[j]).1 == window_start(window_sec, j, now_sec)
                    && r@[j].0@ == slug_of(prefix@, r@[j].1),
        decreases n - i,
    {
        let k: i128 = i as i128;
        assert(-170141183460469231731687303715884105728 <= k * w
            <= 170141183460469231731687303715884105727) by (nonlinear_arith)
            requires
                0 <= k <= 18446744073709551615,
                -9223372036854775808 <= w <= 9223372036854775807,
        ;
        let step: i128 = k * w;
        let start = sat(fixed::sum128(first, step));
        assert(start == window_start(window_sec, i as int, now_sec)) by {
            assert(i * window_sec == k * w);
        }
        let head = joined(prefix, "-");
        let slug = joined(head.as_str(), i64_text(start).as_str());
        r.push((slug, start));
        i = i + 1;
    }
    r
}

/// Which side of a ladder a list of levels is.
#[derive(Clone, Copy, Debug, PartialEq, Eq, Structural)]
pub enum LevelSide {
    Bid,
    Ask,
}

/// Whether a price is no worse than another on a side.
pub open spec fn no_worse(side: LevelSide, a: i64, b: i64) -> bool {
    match side {
        LevelSide::Bid => a >= b,
        LevelSide::Ask => a <= b,
    }
}

/// `s` with a level put in behind the last one that is no worse.
pub open spec fn level_placed(s: Seq<(i64, i64)>, l: (i64, i64), side: LevelSide) -> Seq<(i64, i64)>
    decreases s.len(),
{
    if s.len() == 0 || no_worse(side, s.last().0, l.0) {
        s.push(l)
    } else {
        level_placed(s.drop_last(), l, side).push(s.last())
    }
}

/// `s`, best first; levels of one price stay in their order.
pub open spec fn best_first(s: Seq<(i64, i64)>, side: LevelSide) -> Seq<(i64, i64)>
    decreases s.len(),
{
    if s.len() == 0 {
        Seq::empty()
    } else {
        level_placed(best_first(s.drop_last(), side), s.last(), side)
    }
}

fn better_or_same(side: LevelSide, a: i64, b: i64) -> (r: bool)
    ensures
        r == no_worse(side, a, b),
{
    match side {
        LevelSide::Bid => a >= b,
        LevelSide::Ask => a <= b,
    }
}

/// Reads a list of levels, best first.
pub fn parse_levels(v: &Json, side: LevelSide) -> (r: Vec<(i64, i64)>)
    ensures
        r@ == best_first(kalshi::levels_of(v@, false), side),
{
    let raw = kalshi::parse_levels(v, false);
    let mut r: Vec<(i64, i64)> = Vec::new();
    let mut i: usize = 0;
    assert(raw@.take(0) =~= Seq::<(i64, i64)>::empty());
    while i < raw.len()
        invariant
            i <= raw@.len(),
            r@ == best_first(raw@.take(i as int), side),
        decreases raw@.len() - i,
    {
        let l: (i64, i64) = raw[i];
        let ghost s = r@;
        assert(raw@.take(i + 1).drop_last() =~= raw@.take(i as int));
        assert(raw@.take(i + 1).last() == l);
        let mut k: usize = r.len();
        assert(s.take(k as int) =~= s);
        assert(level_placed(s, l, side) =~= level_placed(s.take(k as int), l, side) + s.skip(
            k as int,
        ));
        while k > 0 && !better_or_same(side, r[k - 1].0, l.0)
            invariant
                s == r@,
                k <= r@.len(),
                level_placed(s, l, side) == level_placed(s.take(k as int), l, side) + s.skip(
                    k as int,
                ),
            decreases k,
        {
            let ghost t = s.take(k as int);
            assert(t.last() == s[k - 1]);
            assert(t.drop_last() =~= s.take(k - 1));
            assert(level_placed(s.take(k - 1), l, side).push(t.last()) + s.skip(k as int)
                =~= level_placed(s.take(k - 1), l, side) + s.skip(k - 1));
            k = k - 1;
        }
        proof {
            let t = s.take(k as int);
            if k > 0 {
                assert(t.last() == s[k - 1]);
            }
            assert(level_placed(t, l, side) == t.push(l));
        }
        r.insert(k, l);
        assert(r@ =~= s.take(k as int).push(l) + s.skip(k as int));
        i = i + 1;
    }
    assert(raw@.take(raw@.len() as int) =~= raw@);
    r
}

/// The side that a change names.
pub open spec fn change_side_of(t: Option<Seq<char>>) -> Option<Side> {
    match t {
        Some(s) => if text::uppered(s) == "BUY"@ {
            Some(Side::Buy)
        } else if text::uppered(s) == "SELL"@ {
            Some(Side::Sell)
        } else {
            None
        },
        None => None,
    }
}

/// One change of one token's book.
pub open spec fn change_of(v: JsonV) -> Option<(Seq<char>, i64, i64, Side)> {
    match (
        json::text_at(v.field("asset_id"@)),
        json::amount_at(v.field("price"@)),
        json::size_at(v.field("size"@)),
        change_side_of(json::text_at(v.field("side"@))),
    ) {
        (Some(a), Some(p), Some(s), Some(side)) => if a.len() > 0 {
            Some((a, p, s, side))
        } else {
            None
        },
        _ => None,
    }
}

/// The changes of a list that can be read, in their order.
pub open spec fn changes_in(items: Seq<JsonV>) -> Seq<(Seq<char>, i64, i64, Side)>
    decreases items.len(),
{
    if items.len() == 0 {
        Seq::empty()
    } else {
        match change_of(items.last()) {
            Some(c) => changes_in(items.drop_last()).push(c),
            None => changes_in(items.drop_last()),
        }
    }
}

/// The changes of a message.
pub open spec fn changes_at(msg: JsonV) -> Seq<(Seq<char>, i64, i64, Side)> {
    let list = match msg.field("price_changes"@) {
        Some(l) => Some(l),
        None => msg.field("changes"@),
    };
    match list {
        Some(JsonV::Arr(a)) => changes_in(a),
        _ => Seq::empty(),
    }
}

/// The views of a run of changes.
pub open spec fn change_views(s: Seq<(String, i64, i64, Side)>) -> Seq<
    (Seq<char>, i64, i64, Side),
> {
    Seq::new(s.len(), |i: int| (s[i].0@, s[i].1, s[i].2, s[i].3))
}

fn change(v: &Json) -> (r: Option<(String, i64, i64, Side)>)
    ensures
        match r {
            Some((a, p, s, side)) => change_of(v@) == Some((a@, p, s, side)),
            None => change_of(v@) is None,
        },
{
    let asset = match str_field(v, "asset_id") {
        Some(a) => a.to_string(),
        None => {
            return None;
        },
    };
    if asset.as_str().unicode_len() == 0 {
        return None;
    }
    proof {
        reveal_strlit("BUY");
        reveal_strlit("SELL");
        assert("BUY"@.len() == 3 && "SELL"@.len() == 4);
    }
    let side = match str_field(v, "side") {
        Some(t) => {
            let u = upper_ascii(t);
            if same(u.as_str(), "BUY") {
                Side::Buy
            } else if same(u.as_str(), "SELL") {
                Side::Sell
            } else {
                return None;
            }
        },
        None => {
            return None;
        },
    };
    match (amount_field(v, "price"), size_field(v, "size")) {
        (Some(p), Some(s)) => Some((asset, p, s, side)),
        _ => None,
    }
}

/// Reads the changes of a message.
pub fn parse_price_changes(msg: &Json) -> (r: Vec<(String, i64, i64, Side)>)
    ensures
        change_views(r@) == changes_at(msg@),
{
    let mut r: Vec<(String, i64, i64, Side)> = Vec::new();
    assert(change_views(r@) =~= Seq::<(Seq<char>, i64, i64, Side)>::empty());
    let list = match msg.get("price_changes") {
        Some(l) => Some(l),
        None => msg.get("changes"),
    };
    if let Some(l) = list {
        if let Some(a) = l.as_array() {
            let ghost items = l@.items()->0;
            let mut i: usize = 0;
            assert(items.take(0) =~= Seq::<JsonV>::empty());
            while i < a.len()
                invariant
                    items == l@.items()->0,
                    items.len() == a@.len(),
                    forall|j: int| 0 <= j < a@.len() ==> #[trigger] items[j] == a@[j]@,
                    i <= a@.len(),
                    change_views(r@) == changes_in(items.take(i as int)),
                decreases a@.len() - i,
            {
                assert(items.take(i + 1).drop_last() =~= items.take(i as int));
                assert(items.take(i + 1).last() == items[i as int]);
                if let Some(c) = change(&a[i]) {
                    let ghost r0 = r@;
                    let ghost cv = (c.0@, c.1, c.2, c.3);
                    r.push(c);
                    assert(change_views(r@) =~= change_views(r0).push(cv));
                }
                i = i + 1;
            }
            assert(items.take(items.len() as int) =~= items);
        }
    }
    r
}

/// The book of one token.
pub struct PolyBook {
    bids: Ladder,
    asks: Ladder,
}

/// A side with one level set, or taken out where the size is zero.
pub open spec fn level_set(m: Map<i64, i64>, p: i64, s: i64) -> Map<i64, i64> {
    if s == 0 {
        m.remove(p)
    } else {
        m.insert(p, s)
    }
}

/// The book after a run of changes.
pub open spec fn changed_book(v: BookV, cs: Seq<(i64, i64, Side)>) -> BookV
    decreases cs.len(),
{
    if cs.len() == 0 {
        v
    } else {
        let b = changed_book(v, cs.drop_last());
        let (p, s, side) = cs.last();
        match side {
            Side::Buy => BookV { bids: level_set(b.bids, p, s), ..b },
            Side::Sell => BookV { asks: level_set(b.asks, p, s), ..b },
        }
    }
}

impl View for PolyBook {
    type V = BookV;

    closed spec fn view(&self) -> BookV {
        BookV { bids: self.bids@, asks: self.asks@ }
    }
}

impl Default for PolyBook {
    fn default() -> (r: PolyBook)
        ensures
            r@ == (BookV { bids: Map::empty(), asks: Map::empty() }),
    {
        PolyBook { bids: Ladder::new(), asks: Ladder::new() }
    }
}

fn set_level(side: &mut Ladder, p: i64, s: i64)
    ensures
        final(side)@ == level_set(old(side)@, p, s),
{
    if s == 0 {
        side.remove(p);
    } else {
        side.set(p, s);
    }
}

impl PolyBook {
    /// Starts over from a snapshot.
    pub fn apply_snapshot(&mut self, bids: &Vec<(i64, i64)>, asks: &Vec<(i64, i64)>)
        ensures
            final(self)@ == binance::rebuilt(bids@, asks@),
    {
        self.bids = Ladder::new();
        self.asks = Ladder::new();
        fill_side(&mut self.bids, bids);
        fill_side(&mut self.asks, asks);
    }

    /// Takes changes in.
    pub fn apply_delta(&mut self, changes: &Vec<(i64, i64, Side)>)
        ensures
            final(self)@ == changed_book(old(self)@, changes@),
    {
        let ghost v = self@;
        let mut i: usize = 0;
        assert(changes@.take(0) =~= Seq::<(i64, i64, Side)>::empty());
        while i < changes.len()
            invariant
                i <= changes@.len(),
                self@ == changed_book(v, changes@.take(i as int)),
            decreases changes@.len() - i,
        {
            let (p, s, side): (i64, i64, Side) = changes[i];
            assert(changes@.take(i + 1).drop_last() =~= changes@.take(i as int));
            assert(changes@.take(i + 1).last() == (p, s, side));
            match side {
                Side::Buy => set_level(&mut self.bids, p, s),
                Side::Sell => set_level(&mut self.asks, p, s),
            }
            i = i + 1;
        }
        assert(changes@.take(changes@.len() as int) =~= changes@);
    }

    /// The best `n` levels of each side, best first.
    pub fn top_n(&self, n: usize) -> (r: (Vec<(i64, i64)>, Vec<(i64, i64)>))
        ensures
            binance::are_best_bids(self@, n as int, r.0@),
            binance::are_best_asks(self@, n as int, r.1@),
    {
        let bids = self.bids.highest(n);
        let asks = self.asks.lowest(n);
        assert(self@.bids == self.bids@ && self@.asks == self.asks@);
        (bids, asks)
    }
}

/// A token that is followed.
#[derive(Clone, Debug, PartialEq, Eq)]
pub struct TokenInst {
    pub token: String,
    pub cid: String,
    pub instrument: String,
}

/// The market and the instrument of a token, where it is followed.
pub open spec fn token_of(ts: Seq<TokenInst>, token: Seq<char>) -> Option<(Seq<char>, Seq<char>)>
    decreases ts.len(),
{
    if ts.len() == 0 {
        None
    } else if ts.last().token@ == token {
        Some((ts.last().cid@, ts.last().instrument@))
    } else {
        token_of(ts.drop_last(), token)
    }
}

/// One thing that a frame makes known of a token.
pub enum PubV {
    Book(Seq<char>, BookV),
    Trade(Seq<char>, i64, i64, Side),
}

/// Whether an event says that.
pub open spec fn says(e: Event, p: PubV, ts: Seq<TokenInst>, recv: i64, n: int) -> bool {
    &&& e.source@ == "poly"@
    &&& e.ts_ns == recv
    &&& match p {
        PubV::Book(t, v) => {
            let (cid, inst) = token_of(ts, t)->0;
            &&& e.topic@ == "market.polymarket."@ + cid + ".book"@
            &&& match e.payload {
                Payload::Book(b) => {
                    &&& b.instrument@ == inst
                    &&& binance::are_best_bids(v, n, b.bids@)
                    &&& binance::are_best_asks(v, n, b.asks@)
                    &&& b.update_id is None
                    &&& b.exch_ts_ns == recv
                    &&& b.recv_ts_ns == recv
                },
                _ => false,
            }
        },
        PubV::Trade(t, px, q, side) => {
            let (cid, inst) = token_of(ts, t)->0;
            &&& e.topic@ == "market.polymarket."@ + cid + ".trade"@
            &&& match e.payload {
                Payload::Trade(x) => {
                    &&& x.instrument@ == inst
                    &&& x.price == px
                    &&& x.qty == q
                    &&& x.side == side
                    &&& x.exch_ts_ns == recv
                    &&& x.recv_ts_ns == recv
                },
                _ => false,
            }
        },
    }
}

/// Whether a run of events says these things, in their order.
pub open spec fn say_all(
    es: Seq<Event>,
    ps: Seq<PubV>,
    ts: Seq<TokenInst>,
    recv: i64,
    n: int,
) -> bool {
    &&& es.len() == ps.len()
    &&& forall|i: int| 0 <= i < es.len() ==> says(#[trigger] es[i], ps[i], ts, recv, n)
}

/// The book of a token, or an empty one.
pub open spec fn book_in(m: Map<Seq<char>, BookV>, token: Seq<char>) -> BookV {
    if m.contains_key(token) {
        m[token]
    } else {
        BookV { bids: Map::empty(), asks: Map::empty() }
    }
}

/// The tokens of a run of changes, each once, in the order of their first change.
pub open spec fn tokens_in(cs: Seq<(Seq<char>, i64, i64, Side)>) -> Seq<Seq<char>>
    decreases cs.len(),
{
    if cs.len() == 0 {
        Seq::empty()
    } else {
        let before = tokens_in(cs.drop_last());
        if before.contains(cs.last().0) {
            before
        } else {
            before.push(cs.last().0)
        }
    }
}

/// The changes of one token, in their order.
pub open spec fn changes_for(cs: Seq<(Seq<char>, i64, i64, Side)>, token: Seq<char>) -> Seq<
    (i64, i64, Side),
>
    decreases cs.len(),
{
    if cs.len() == 0 {
        Seq::empty()
    } else {
        let before = changes_for(cs.drop_last(), token);
        let (t, p, s, side) = cs.last();
        if t == token {
            before.push((p, s, side))
        } else {
            before
        }
    }
}

/// The books, and what was made known.
#[verifier::ext_equal]
pub struct RouteV {
    pub books: Map<Seq<char>, BookV>,
    pub outs: Seq<PubV>,
}

/// A token's book is replaced and made known.
pub open spec fn with_book(r: RouteV, token: Seq<char>, b: BookV) -> RouteV {
    RouteV { books: r.books.insert(token, b), outs: r.outs.push(PubV::Book(token, b)) }
}

/// The changes of these tokens are taken in, token by token.
pub open spec fn tokens_changed(
    r: RouteV,
    cs: Seq<(Seq<char>, i64, i64, Side)>,
    tokens: Seq<Seq<char>>,
    ts: Seq<TokenInst>,
) -> RouteV
    decreases tokens.len(),
{
    if tokens.len() == 0 {
        r
    } else {
        let a = tokens_changed(r, cs, tokens.drop_last(), ts);
        let t = tokens.last();
        if token_of(ts, t) is Some {
            with_book(a, t, changed_book(book_in(a.books, t), changes_for(cs, t)))
        } else {
            a
        }
    }
}

/// The kind of a message.
pub open spec fn kind_of(msg: JsonV) -> Option<Seq<char>> {
    match json::text_at(msg.field("event_type"@)) {
        Some(k) => Some(k),
        None => json::text_at(msg.field("type"@)),
    }
}

/// The token of a message.
pub open spec fn asset_of(msg: JsonV) -> Seq<char> {
    match json::text_at(msg.field("asset_id"@)) {
        Some(a) => a,
        None => Seq::empty(),
    }
}

/// The levels of a field, best first.
pub open spec fn levels_at(msg: JsonV, k: Seq<char>, side: LevelSide) -> Seq<(i64, i64)> {
    match msg.field(k) {
        Some(v) => best_first(kalshi::levels_of(v, false), side),
        None => Seq::empty(),
    }
}

/// The side of a trade: a sale, unless it says that it is a purchase.
pub open spec fn trade_side(msg: JsonV) -> Side {
    match json::text_at(msg.field("side"@)) {
        Some(t) => if text::uppered(t) == "BUY"@ {
            Side::Buy
        } else {
            Side::Sell
        },
        None => Side::Sell,
    }
}

/// What one message leads to.
pub open spec fn routed(r: RouteV, msg: JsonV, ts: Seq<TokenInst>) -> RouteV {
    let kind = kind_of(msg);
    let a = asset_of(msg);
    if kind == Some("book"@) {
        if token_of(ts, a) is Some {
            with_book(
                r,
                a,
                binance::rebuilt(
                    levels_at(msg, "bids"@, LevelSide::Bid),
                    levels_at(msg, "asks"@, LevelSide::Ask),
                ),
            )
        } else {
            r
        }
    } else if kind == Some("price_change"@) {
        tokens_changed(r, changes_at(msg), tokens_in(changes_at(msg)), ts)
    } else if kind == Some("last_trade_price"@) {
        match (
            token_of(ts, a),
            json::amount_at(msg.field("price"@)),
            json::size_at(msg.field("size"@)),
        ) {
            (Some(_), Some(p), Some(s)) => RouteV {
                outs: r.outs.push(PubV::Trade(a, p, s, trade_side(msg))),
                ..r
            },
            _ => r,
        }
    } else {
        r
    }
}

/// What a run of messages leads to.
pub open spec fn all_routed(r: RouteV, msgs: Seq<JsonV>, ts: Seq<TokenInst>) -> RouteV
    decreases msgs.len(),
{
    if msgs.len() == 0 {
        r
    } else {
        routed(all_routed(r, msgs.drop_last(), ts), msgs.last(), ts)
    }
}

/// The messages of a frame: its elements, or the frame itself.
pub open spec fn messages(frame: JsonV) -> Seq<JsonV> {
    match frame {
        JsonV::Arr(a) => a,
        _ => seq![frame],
    }
}

/// The books of all tokens of a session.
pub struct PolyBooks {
    m: StrMap<PolyBook>,
}

/// The views of the books.
pub open spec fn book_views(m: Map<Seq<char>, PolyBook>) -> Map<Seq<char>, BookV> {
    m.map_values(|b: PolyBook| b@)
}

impl View for PolyBooks {
    type V = Map<Seq<char>, BookV>;

    closed spec fn view(&self) -> Map<Seq<char>, BookV> {
        book_views(self.m@)
    }
}

fn find_token(ts: &Vec<TokenInst>, token: &str) -> (r: Option<usize>)
    ensures
        match r {
            Some(i) => i < ts@.len() && token_of(ts@, token@) == Some(
                (ts@[i as int].cid@, ts@[i as int].instrument@),
            ),
            None => token_of(ts@, token@) is None,
        },
{
    let mut i: usize = ts.len();
    assert(ts@.take(i as int) =~= ts@);
    while i > 0
        invariant
            i <= ts@.len(),
            token_of(ts@, token@) == token_of(ts@.take(i as int), token@),
        decreases i,
    {
        let ghost t = ts@.take(i as int);
        assert(t.last() == ts@[i - 1]);
        assert(t.drop_last() =~= ts@.take(i - 1));
        if same(ts[i - 1].token.as_str(), token) {
            return Some(i - 1);
        }
        i = i - 1;
    }
    None
}

fn topic_for(cid: &str, tail: &str) -> (r: String)
    ensures
        r@ == "market.polymarket."@ + cid@ + tail@,
{
    let a = joined("market.polymarket.", cid);
    joined(a.as_str(), tail)
}

impl PolyBooks {
    /// No books.
    pub fn new() -> (r: PolyBooks)
        ensures
            r@ == Map::<Seq<char>, BookV>::empty(),
    {
        let r = PolyBooks { m: StrMap::new() };
        assert(r@ =~= Map::<Seq<char>, BookV>::empty());
        r
    }

    /// What is known, and what was made known.
    pub open spec fn route_view(&self, outs: Seq<PubV>) -> RouteV {
        RouteV { books: self@, outs }
    }

    fn take(&mut self, token: &str) -> (b: PolyBook)
        ensures
            b@ == book_in(old(self)@, token@),
            final(self)@ == old(self)@.remove(token@),
    {
        let b = match self.m.remove(token) {
            Some(b) => b,
            None => PolyBook::default(),
        };
        assert(self@ =~= old(self)@.remove(token@));
        b
    }

    fn put(&mut self, token: &str, b: PolyBook)
        ensures
            final(self)@ == old(self)@.insert(token@, b@),
    {
        self.m.insert(token.to_string(), b);
        assert(self@ =~= old(self)@.insert(token@, b@));
    }

    fn publish(
        &mut self,
        token: &str,
        b: PolyBook,
        ts: &Vec<TokenInst>,
        at: usize,
        recv: i64,
        top_n: usize,
        seq: &mut u64,
        out: &mut Vec<Event>,
        Ghost(outs): Ghost<Seq<PubV>>,
        Ghost(s0): Ghost<u64>,
    )
        requires
            at < ts@.len(),
            token_of(ts@, token@) == Some((ts@[at as int].cid@, ts@[at as int].instrument@)),
            say_all(old(out)@, outs, ts@, recv, top_n as int),
            net::counted_up(old(out)@, s0, *old(seq)),
        ensures
            net::counted_up(final(out)@, s0, *final(seq)),
            final(self)@ == old(self)@.insert(token@, b@),
            say_all(
                final(out)@,
                outs.push(PubV::Book(token@, b@)),
                ts@,
                recv,
                top_n as int,
            ),
    {
        let (bids, asks) = b.top_n(top_n);
        let e = Event {
            topic: topic_for(ts[at].cid.as_str(), ".book"),
            source: "poly",
            ts_ns: recv,
            seq: nxt(seq),
            payload: Payload::Book(
                BookUpdate {
                    instrument: ts[at].instrument.clone(),
                    bids,
                    asks,
                    update_id: None,
                    exch_ts_ns: recv,
                    recv_ts_ns: recv,
                },
            ),
        };
        let ghost o0 = out@;
        let ghost p = PubV::Book(token@, b@);
        assert(says(e, p, ts@, recv, top_n as int));
        out.push(e);
        assert forall|i: int| 0 <= i < out@.len() implies says(
            #[trigger] out@[i],
            outs.push(p)[i],
            ts@,
            recv,
            top_n as int,
        ) by {
            if i < o0.len() {
                assert(out@[i] == o0[i]);
            }
        }
        self.put(token, b);
    }

    fn on_changes(
        &mut self,
        msg: &Json,
        ts: &Vec<TokenInst>,
        recv: i64,
        top_n: usize,
        seq: &mut u64,
        out: &mut Vec<Event>,
        Ghost(outs): Ghost<Seq<PubV>>,
        Ghost(s0): Ghost<u64>,
    ) -> (g: Ghost<Seq<PubV>>)
        requires
            say_all(old(out)@, outs, ts@, recv, top_n as int),
            net::counted_up(old(out)@, s0, *old(seq)),
        ensures
            net::counted_up(final(out)@, s0, *final(seq)),
            say_all(final(out)@, g@, ts@, recv, top_n as int),
            final(self).route_view(g@) == tokens_changed(
                old(self).route_view(outs),
                changes_at(msg@),
                tokens_in(changes_at(msg@)),
                ts@,
            ),
    {
        let cs = parse_price_changes(msg);
        let ghost cv = changes_at(msg@);
        let tokens = list_tokens(&cs);
        let ghost tv = text::views(tokens@);
        let ghost r0 = self.route_view(outs);
        let ghost mut known = outs;
        let mut i: usize = 0;
        assert(tv.take(0) =~= Seq::<Seq<char>>::empty());
        while i < tokens.len()
            invariant
                cv == change_views(cs@),
                tv == text::views(tokens@),
                i <= tokens@.len(),
                say_all(out@, known, ts@, recv, top_n as int),
                net::counted_up(out@, s0, *seq),
                self.route_view(known) == tokens_changed(r0, cv, tv.take(i as int), ts@),
            decreases tokens@.len() - i,
        {
            assert(tv.take(i + 1).drop_last() =~= tv.take(i as int));
            assert(tv.take(i + 1).last() == tokens@[i as int]@);
            let t = tokens[i].as_str();
            if let Some(at) = find_token(ts, t) {
                let ghost b0 = self@;
                let mut b = self.take(t);
                let d = pick_changes(&cs, t);
                b.apply_delta(&d);
                let ghost bv = b@;
                self.publish(t, b, ts, at, recv, top_n, seq, out, Ghost(known), Ghost(s0));
                proof {
                    known = known.push(PubV::Book(t@, bv));
                    assert(self@ =~= b0.insert(t@, bv));
                }
            }
            i = i + 1;
        }
        assert(tv.take(tv.len() as int) =~= tv);
        Ghost(known)
    }

    fn on_message(
        &mut self,
        msg: &Json,
        ts: &Vec<TokenInst>,
        recv: i64,
        top_n: usize,
        seq: &mut u64,
        out: &mut Vec<Event>,
        Ghost(outs): Ghost<Seq<PubV>>,
        Ghost(s0): Ghost<u64>,
    ) -> (g: Ghost<Seq<PubV>>)
        requires
            say_all(old(out)@, outs, ts@, recv, top_n as int),
            net::counted_up(old(out)@, s0, *old(seq)),
        ensures
            net::counted_up(final(out)@, s0, *final(seq)),
            say_all(final(out)@, g@, ts@, recv, top_n as int),
            final(self).route_view(g@) == routed(old(self).route_view(outs), msg@, ts@),
    {
        let kind = match str_field(msg, "event_type") {
            Some(k) => Some(k),
            None => str_field(msg, "type"),
        };
        let kind = match kind {
            Some(k) => k,
            None => {
                return Ghost(outs);
            },
        };
        let asset: String = match str_field(msg, "asset_id") {
            Some(a) => a.to_string(),
            None => String::new(),
        };
        assert(asset@ =~= asset_of(msg@));
        proof {
            reveal_strlit("book");
            reveal_strlit("price_change");
            reveal_strlit("last_trade_price");
            assert("book"@.len() == 4 && "price_change"@.len() == 12 && "last_trade_price"@.len()
                == 16);
        }
        if same(kind, "book") {
            if let Some(at) = find_token(ts, asset.as_str()) {
                let null = Json::Null;
                let bids = parse_levels(
                    match msg.get("bids") {
                        Some(v) => v,
                        None => &null,
                    },
                    LevelSide::Bid,
                );
                let asks = parse_levels(
                    match msg.get("asks") {
                        Some(v) => v,
                        None => &null,
                    },
                    LevelSide::Ask,
                );
                assert(bids@ =~= levels_at(msg@, "bids"@, LevelSide::Bid));
                assert(asks@ =~= levels_at(msg@, "asks"@, LevelSide::Ask));
                let ghost b0 = self@;
                let mut b = self.take(asset.as_str());
                b.apply_snapshot(&bids, &asks);
                let ghost bv = b@;
                self.publish(asset.as_str(), b, ts, at, recv, top_n, seq, out, Ghost(outs), Ghost(s0));
                assert(self@ =~= b0.insert(asset@, bv));
                return Ghost(outs.push(PubV::Book(asset@, bv)));
            }
            Ghost(outs)
        } else if same(kind, "price_change") {
            self.on_changes(msg, ts, recv, top_n, seq, out, Ghost(outs), Ghost(s0))
        } else if same(kind, "last_trade_price") {
            if let Some(at) = find_token(ts, asset.as_str()) {
                let side = match str_field(msg, "side") {
                    Some(t) => {
                        let u = upper_ascii(t);
                        if same(u.as_str(), "BUY") {
                            Side::Buy
                        } else {
                            Side::Sell
                        }
                    },
                    None => Side::Sell,
                };
                if let (Some(p), Some(s)) = (amount_field(msg, "price"), size_field(msg, "size")) {
                    let e = Event {
                        topic: topic_for(ts[at].cid.as_str(), ".trade"),
                        source: "poly",
                        ts_ns: recv,
                        seq: nxt(seq),
                        payload: Payload::Trade(
                            TradeTick {
                                instrument: ts[at].instrument.clone(),
                                price: p,
                                qty: s,
                                side,
                                exch_ts_ns: recv,
                                recv_ts_ns: recv,
                            },
                        ),
                    };
                    let ghost o0 = out@;
                    let ghost pv = PubV::Trade(asset@, p, s, side);
                    assert(says(e, pv, ts@, recv, top_n as int));
                    out.push(e);
                    assert forall|i: int| 0 <= i < out@.len() implies says(
                        #[trigger] out@[i],
                        outs.push(pv)[i],
                        ts@,
                        recv,
                        top_n as int,
                    ) by {
                        if i < o0.len() {
                            assert(out@[i] == o0[i]);
                        }
                    }
                    return Ghost(outs.push(pv));
                }
            }
            Ghost(outs)
        } else {
            Ghost(outs)
        }
    }

    /// Takes a frame in, message by message; says what became known.
    pub fn route_frame(
        &mut self,
        frame: &Json,
        ts: &Vec<TokenInst>,
        recv: i64,
        top_n: usize,
        seq: &mut u64,
    ) -> (out: Vec<Event>)
        ensures
            ({
                let start = RouteV { books: old(self)@, outs: Seq::<PubV>::empty() };
                let end = all_routed(start, messages(frame@), ts@);
                &&& final(self)@ == end.books
                &&& say_all(out@, end.outs, ts@, recv, top_n as int)
            }),
            net::counted_up(out@, *old(seq), *final(seq)),
    {
        let mut out: Vec<Event> = Vec::new();
        let ghost s0 = *seq;
        let ghost mut known: Seq<PubV> = Seq::empty();
        let ghost r0 = self.route_view(known);
        let ghost msgs = messages(frame@);
        match frame.as_array() {
            Some(a) => {
                let mut i: usize = 0;
                assert(msgs.take(0) =~= Seq::<JsonV>::empty());
                while i < a.len()
                    invariant
                        msgs.len() == a@.len(),
                        forall|j: int| 0 <= j < a@.len() ==> #[trigger] msgs[j] == a@[j]@,
                        i <= a@.len(),
                        say_all(out@, known, ts@, recv, top_n as int),
                        net::counted_up(out@, s0, *seq),
                        self.route_view(known) == all_routed(r0, msgs.take(i as int), ts@),
                    decreases a@.len() - i,
                {
                    assert(msgs.take(i + 1).drop_last() =~= msgs.take(i as int));
                    assert(msgs.take(i + 1).last() == msgs[i as int]);
                    let g = self.on_message(&a[i], ts, recv, top_n, seq, &mut out, Ghost(known), Ghost(s0));
                    proof {
                        known = g@;
                    }
                    i = i + 1;
                }
                assert(msgs.take(msgs.len() as int) =~= msgs);
            },
            None => {
                proof {
                    assert(msgs.drop_last() =~= Seq::<JsonV>::empty());
                    reveal_with_fuel(all_routed, 2);
                }
                let g = self.on_message(frame, ts, recv, top_n, seq, &mut out, Ghost(known), Ghost(s0));
                proof {
                    known = g@;
                }
            },
        }
        out
    }
}

fn list_tokens(cs: &Vec<(String, i64, i64, Side)>) -> (r: Vec<String>)
    ensures
        text::views(r@) == tokens_in(change_views(cs@)),
{
    let ghost cv = change_views(cs@);
    let mut r: Vec<String> = Vec::new();
    let mut i: usize = 0;
    assert(cv.take(0) =~= Seq::<(Seq<char>, i64, i64, Side)>::empty());
    assert(text::views(r@) =~= Seq::<Seq<char>>::empty());
    while i < cs.len()
        invariant
            cv == change_views(cs@),
            i <= cs@.len(),
            text::views(r@) == tokens_in(cv.take(i as int)),
        decreases cs@.len() - i,
    {
        assert(cv.take(i + 1).drop_last() =~= cv.take(i as int));
        assert(cv.take(i + 1).last() == cv[i as int]);
        let t = &cs[i].0;
        let ghost seen = text::views(r@);
        let mut found: bool = false;
        let mut k: usize = 0;
        while k < r.len()
            invariant
                seen == text::views(r@),
                k <= r@.len(),
                found == exists|j: int| 0 <= j < k && (#[trigger] seen[j]) == t@,
            decreases r@.len() - k,
        {
            assert(seen[k as int] == r@[k as int]@);
            if same(r[k].as_str(), t.as_str()) {
                found = true;
            }
            k = k + 1;
        }
        assert(found == seen.contains(t@)) by {
            if seen.contains(t@) {
                let j = choose|j: int| 0 <= j < seen.len() && seen[j] == t@;
                assert(seen[j] == t@);
            }
        }
        if !found {
            r.push(t.clone());
            assert(text::views(r@) =~= seen.push(t@));
        }
        i = i + 1;
    }
    assert(cv.take(cv.len() as int) =~= cv);
    r
}

fn pick_changes(cs: &Vec<(String, i64, i64, Side)>, token: &str) -> (r: Vec<(i64, i64, Side)>)
    ensures
        r@ == changes_for(change_views(cs@), token@),
{
    let ghost cv = change_views(cs@);
    let mut r: Vec<(i64, i64, Side)> = Vec::new();
    let mut i: usize = 0;
    assert(cv.take(0) =~= Seq::<(Seq<char>, i64, i64, Side)>::empty());
    while i < cs.len()
        invariant
            cv == change_views(cs@),
            i <= cs@.len(),
            r@ == changes_for(cv.take(i as int), token@),
        decreases cs@.len() - i,
    {
        assert(cv.take(i + 1).drop_last() =~= cv.take(i as int));
        assert(cv.take(i + 1).last() == cv[i as int]);
        if same(cs[i].0.as_str(), token) {
            r.push((cs[i].1, cs[i].2, cs[i].3));
        }
        i = i + 1;
    }
    assert(cv.take(cv.len() as int) =~= cv);
    r
}

/// The windows follow each other without a gap: the first holds the instant, each starts at a
/// whole number of windows, and the next starts where it ends.
pub proof fn law_windows_hold_the_instant(window_sec: i64, now_sec: i64, i: int)
    requires
        0 < window_sec <= 1_000_000_000,
        0 <= now_sec <= 1_000_000_000_000,
        0 <= i <= 1_000_000,
    ensures
        window_start(window_sec, 0, now_sec) <= now_sec < window_start(window_sec, 0, now_sec)
            + window_sec,
        window_start(window_sec, i + 1, now_sec) == window_start(window_sec, i, now_sec)
            + window_sec,
        window_start(window_sec, 0, now_sec) % window_sec == 0,
{
    let w = window_sec as int;
    let n = now_sec as int;
    vstd::arithmetic::div_mod::lemma_fundamental_div_mod(n, w);
    let q = n / w;
    assert(0 <= q && q * w <= n < q * w + w) by (nonlinear_arith)
        requires
            n == w * q + n % w,
            0 <= n % w < w,
            n >= 0,
            w > 0,
    ;
    assert((i + 1) * w == i * w + w && 0 <= i * w <= 1_000_000_000_000_000) by (nonlinear_arith)
        requires
            0 <= i <= 1_000_000,
            0 < w <= 1_000_000_000,
    ;
    assert(0 * w == 0);
    vstd::arithmetic::div_mod::lemma_mod_multiples_basic(q, w);
}

/// Levels are put best first: bids from the highest down, asks from the lowest up, and none
/// is lost.
pub proof fn law_levels_are_put_best_first(s: Seq<(i64, i64)>, side: LevelSide)
    ensures
        best_first(s, side).to_multiset() == s.to_multiset(),
        forall|i: int, j: int|
            0 <= i <= j < best_first(s, side).len() ==> (if side == LevelSide::Bid {
                (#[trigger] best_first(s, side)[i]).0 >= (#[trigger] best_first(s, side)[j]).0
            } else {
                best_first(s, side)[i].0 <= best_first(s, side)[j].0
            }),
    decreases s.len(),
{
    broadcast use vstd::seq_lib::group_to_multiset_ensures;

    if s.len() > 0 {
        law_levels_are_put_best_first(s.drop_last(), side);
        lemma_level_placed(best_first(s.drop_last(), side), s.last(), side);
        assert(s =~= s.drop_last().push(s.last()));
        assert(s.to_multiset() =~= s.drop_last().to_multiset().insert(s.last()));
    } else {
        assert(best_first(s, side) =~= s);
    }
}

/// A level put in keeps the order and the levels.
proof fn lemma_level_placed(s: Seq<(i64, i64)>, l: (i64, i64), side: LevelSide)
    requires
        forall|i: int, j: int|
            0 <= i <= j < s.len() ==> (if side == LevelSide::Bid {
                (#[trigger] s[i]).0 >= (#[trigger] s[j]).0
            } else {
                s[i].0 <= s[j].0
            }),
    ensures
        level_placed(s, l, side).to_multiset() == s.to_multiset().insert(l),
        forall|i: int, j: int|
            0 <= i <= j < level_placed(s, l, side).len() ==> (if side == LevelSide::Bid {
                (#[trigger] level_placed(s, l, side)[i]).0 >= (#[trigger] level_placed(
                    s,
                    l,
                    side,
                )[j]).0
            } else {
                level_placed(s, l, side)[i].0 <= level_placed(s, l, side)[j].0
            }),
        forall|i: int|
            0 <= i < level_placed(s, l, side).len() ==> #[trigger] level_placed(s, l, side)[i] == l
                || s.contains(level_placed(s, l, side)[i]),
        level_placed(s, l, side).len() == s.len() + 1,
    decreases s.len(),
{
    broadcast use vstd::seq_lib::group_to_multiset_ensures;

    let r = level_placed(s, l, side);
    if s.len() == 0 || no_worse(side, s.last().0, l.0) {
        assert forall|i: int| 0 <= i < r.len() implies #[trigger] r[i] == l || s.contains(r[i]) by {
            if i < s.len() {
                assert(s[i] == r[i]);
            }
        }
        assert forall|i: int, j: int| 0 <= i <= j < r.len() implies (if side == LevelSide::Bid {
            (#[trigger] r[i]).0 >= (#[trigger] r[j]).0
        } else {
            r[i].0 <= r[j].0
        }) by {
            if i < s.len() && j == s.len() {
                assert(s[s.len() - 1] == s.last());
                assert(s[i] == r[i]);
            } else if j < s.len() {
                assert(s[i] == r[i] && s[j] == r[j]);
            }
        }
    } else {
        let t = s.drop_last();
        lemma_level_placed(t, l, side);
        let p = level_placed(t, l, side);
        assert(r == p.push(s.last()));
        assert(s =~= t.push(s.last()));
        assert(s.to_multiset() =~= t.to_multiset().insert(s.last()));
        assert(r.to_multiset() =~= p.to_multiset().insert(s.last()));
        assert(r.to_multiset() =~= s.to_multiset().insert(l));
        assert forall|i: int| 0 <= i < r.len() implies #[trigger] r[i] == l || s.contains(r[i]) by {
            if i < p.len() {
                assert(p[i] == r[i]);
                if r[i] != l {
                    let k = choose|k: int| 0 <= k < t.len() && t[k] == p[i];
                    assert(s[k] == r[i]);
                }
            } else {
                assert(s[s.len() - 1] == r[i]);
            }
        }
        assert forall|i: int, j: int| 0 <= i <= j < r.len() implies (if side == LevelSide::Bid {
            (#[trigger] r[i]).0 >= (#[trigger] r[j]).0
        } else {
            r[i].0 <= r[j].0
        }) by {
            if j < p.len() {
                assert(r[i] == p[i] && r[j] == p[j]);
            } else if i < p.len() {
                assert(r[i] == p[i]);
                assert(s[s.len() - 1] == r[j]);
                if p[i] != l {
                    let k = choose|k: int| 0 <= k < t.len() && t[k] == p[i];
                    assert(s[k] == t[k]);
                }
            }
        }
    }
}

/// A change that buys is of the bids and one that sells of the asks; it sets the size at its
/// price, or takes the level out where it is zero.
pub proof fn law_changes_go_to_their_side(v: BookV, cs: Seq<(i64, i64, Side)>, p: i64, s: i64, other: i64)
    requires
        other != p,
    ensures
        ({
            let b = changed_book(v, cs);
            let x = changed_book(v, cs.push((p, s, Side::Buy)));
            let y = changed_book(v, cs.push((p, s, Side::Sell)));
            &&& x.asks == b.asks && y.bids == b.bids
            &&& s != 0 ==> x.bids.contains_key(p) && x.bids[p] == s && y.asks.contains_key(p)
                && y.asks[p] == s
            &&& s == 0 ==> !x.bids.contains_key(p) && !y.asks.contains_key(p)
            &&& x.bids.contains_key(other) <==> b.bids.contains_key(other)
            &&& b.bids.contains_key(other) ==> x.bids[other] == b.bids[other]
            &&& y.asks.contains_key(other) <==> b.asks.contains_key(other)
            &&& b.asks.contains_key(other) ==> y.asks[other] == b.asks[other]
        }),
{
    assert(cs.push((p, s, Side::Buy)).drop_last() =~= cs);
    assert(cs.push((p, s, Side::Sell)).drop_last() =~= cs);
}

/// What a message leads to, by its kind: a book replaces the token's book, bids from its bids
/// and asks from its asks; a trade is told at its price and size; a token that is not followed
/// leads to nothing.
pub proof fn law_messages_by_kind(r: RouteV, msg: JsonV, ts: Seq<TokenInst>)
    ensures
        kind_of(msg) == Some("book"@) && token_of(ts, asset_of(msg)) is None ==> routed(r, msg, ts)
            == r,
        kind_of(msg) == Some("book"@) && token_of(ts, asset_of(msg)) is Some ==> {
            let n = routed(r, msg, ts);
            let b = n.books[asset_of(msg)];
            &&& b.bids == crate::ladder::filled_side(
                Map::empty(),
                levels_at(msg, "bids"@, LevelSide::Bid),
            )
            &&& b.asks == crate::ladder::filled_side(
                Map::empty(),
                levels_at(msg, "asks"@, LevelSide::Ask),
            )
            &&& n.outs == r.outs.push(PubV::Book(asset_of(msg), b))
        },
        kind_of(msg) == Some("last_trade_price"@) ==> routed(r, msg, ts).books == r.books && (
        token_of(ts, asset_of(msg)) is Some ==> (json::amount_at(
            msg.field("price"@),
        ) matches Some(p) ==> (json::size_at(msg.field("size"@)) matches Some(q) ==> routed(
            r,
            msg,
            ts,
        ).outs == r.outs.push(PubV::Trade(asset_of(msg), p, q, trade_side(msg)))))),
        (json::text_at(msg.field("side"@)) matches Some(t) && text::uppered(t) == "BUY"@) ==> trade_side(
            msg,
        ) == Side::Buy,
        json::text_at(msg.field("side"@)) is None ==> trade_side(msg) == Side::Sell,
{
    reveal_strlit("book");
    reveal_strlit("price_change");
    reveal_strlit("last_trade_price");
    assert("book"@.len() == 4 && "price_change"@.len() == 12 && "last_trade_price"@.len() == 16);
}

/// The sides of a change by their names.
pub proof fn law_change_sides_by_name(t: Seq<char>)
    ensures
        text::uppered(t) == "BUY"@ ==> change_side_of(Some(t)) == Some(Side::Buy),
        text::uppered(t) == "SELL"@ ==> change_side_of(Some(t)) == Some(Side::Sell),
        text::uppered(t) != "BUY"@ && text::uppered(t) != "SELL"@ ==> change_side_of(Some(t))
            is None,
        change_side_of(None) is None,
{
    reveal_strlit("BUY");
    reveal_strlit("SELL");
    assert("BUY"@.len() != "SELL"@.len());
}

/// Levels of one price stay in their order.
pub proof fn law_levels_of_one_price_keep_their_order(s: Seq<(i64, i64)>, l: (i64, i64), side: LevelSide)
    requires
        best_first(s, side).len() > 0,
        best_first(s, side).last().0 == l.0,
    ensures
        best_first(s.push(l), side) == best_first(s, side).push(l),
{
    assert(s.push(l).drop_last() =~= s);
}

/// What is published: a token's book, bids from its bids and asks from its asks, and a
/// trade, each under the token's own market and instrument.
pub proof fn law_what_is_said_of_a_token(
    e: Event,
    f: Event,
    t: Seq<char>,
    v: BookV,
    px: i64,
    q: i64,
    side: Side,
    ts: Seq<TokenInst>,
    recv: i64,
    n: int,
)
    requires
        says(e, PubV::Book(t, v), ts, recv, n),
        says(f, PubV::Trade(t, px, q, side), ts, recv, n),
        token_of(ts, t) is Some,
    ensures
        e.payload matches Payload::Book(b) && b.instrument@ == (token_of(ts, t)->0).1
            && binance::are_best_bids(v, n, b.bids@) && binance::are_best_asks(v, n, b.asks@)
            && b.recv_ts_ns == recv,
        e.topic@ == "market.polymarket."@ + (token_of(ts, t)->0).0 + ".book"@,
        f.payload matches Payload::Trade(x) && x.instrument@ == (token_of(ts, t)->0).1 && x.price
            == px && x.qty == q && x.side == side && x.recv_ts_ns == recv,
        f.topic@ == "market.polymarket."@ + (token_of(ts, t)->0).0 + ".trade"@,
{
}

/// Messages are taken in one after the other, and changes are grouped by their token.
pub proof fn law_messages_are_taken_in_turn(
    r: RouteV,
    msgs: Seq<JsonV>,
    m: JsonV,
    ts: Seq<TokenInst>,
    cs: Seq<(Seq<char>, i64, i64, Side)>,
    c: (Seq<char>, i64, i64, Side),
    token: Seq<char>,
)
    ensures
        all_routed(r, msgs.push(m), ts) == routed(all_routed(r, msgs, ts), m, ts),
        all_routed(r, Seq::empty(), ts) == r,
        c.0 == token ==> changes_for(cs.push(c), token) == changes_for(cs, token).push(
            (c.1, c.2, c.3),
        ),
        c.0 != token ==> changes_for(cs.push(c), token) == changes_for(cs, token),
        tokens_in(cs).contains(c.0) ==> tokens_in(cs.push(c)) == tokens_in(cs),
        !tokens_in(cs).contains(c.0) ==> tokens_in(cs.push(c)) == tokens_in(cs).push(c.0),
{
    assert(msgs.push(m).drop_last() =~= msgs);
    assert(cs.push(c).drop_last() =~= cs);
}

} // verus!
