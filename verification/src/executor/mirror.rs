//! The executor's own view of the market: the ladder of each instrument, the lifecycle of
//! each market, and short histories of asks and trades. Markets are found by the middle
//! part of an instrument, so both outcomes lead to one market.
use vstd::prelude::*;
use std::collections::VecDeque;
use crate::event::{Event, Payload};
use crate::executor::types::{BookDepth, BookTop};
use crate::executor::venue_spec;
use crate::executor::venue_spec::market_id_of;
use crate::model::{copy_levels, MarketStatus};
use crate::ring;
use crate::ring::{drop_before, find_as_of};
use crate::strmap::StrMap;

verus! {

/// How far back the asks are kept.
pub const ASK_HISTORY_NS: i64 = 2_000_000_000;

/// How far back the trades are kept.
pub const TAPE_NS: i64 = 15_000_000_000;

/// A market's lifecycle and economics.
#[derive(Clone, Copy, Debug, PartialEq, Eq, Structural)]
pub struct MarketMetaLite {
    pub status: MarketStatus,
    pub start_ns: i64,
    pub expiry_ns: i64,
    pub min_order_size: Option<i64>,
    pub tick_size: Option<i64>,
    pub fee_rate: Option<i64>,
}

/// A ladder, as the contracts see it.
pub struct DepthView {
    pub bids: Seq<(i64, i64)>,
    pub asks: Seq<(i64, i64)>,
    pub recv_ts_ns: i64,
}

/// The mirror, as the contracts see it.
pub struct MirrorView {
    pub books: Map<Seq<char>, DepthView>,
    pub meta: Map<Seq<char>, MarketMetaLite>,
    pub winners: Map<Seq<char>, Seq<char>>,
    pub asks: Map<Seq<char>, Seq<(i64, i64)>>,
    pub trades: Map<Seq<char>, Seq<(i64, i64)>>,
}

/// The price of the first level, or 0.
pub open spec fn first_px(s: Seq<(i64, i64)>) -> i64 {
    if s.len() > 0 {
        s[0].0
    } else {
        0
    }
}

/// The size of the first level, or 0.
pub open spec fn first_sz(s: Seq<(i64, i64)>) -> i64 {
    if s.len() > 0 {
        s[0].1
    } else {
        0
    }
}

/// The top of a ladder.
pub open spec fn top_of(d: DepthView) -> BookTop {
    BookTop {
        best_bid: first_px(d.bids),
        bid_sz: first_sz(d.bids),
        best_ask: first_px(d.asks),
        ask_sz: first_sz(d.asks),
        recv_ts_ns: d.recv_ts_ns,
    }
}

/// The samples kept at `k`.
pub open spec fn history(m: Map<Seq<char>, Seq<(i64, i64)>>, k: Seq<char>) -> Seq<(i64, i64)> {
    if m.contains_key(k) {
        m[k]
    } else {
        Seq::empty()
    }
}

/// `m` with a sample added at `k` and the samples older than `keep` dropped there.
pub open spec fn noted(
    m: Map<Seq<char>, Seq<(i64, i64)>>,
    k: Seq<char>,
    t: i64,
    x: i64,
    keep: i64,
) -> Map<Seq<char>, Seq<(i64, i64)>> {
    m.insert(k, ring::dropped(history(m, k).push((t, x)), t - keep))
}

/// The key that an instrument's trades are kept under: its market, or itself.
pub open spec fn tape_key(inst: Seq<char>) -> Seq<char> {
    match venue_spec::market_id_text(inst) {
        Some(m) => m,
        None => inst,
    }
}

/// The mirror after an event: a book replaces the instrument's ladder and adds its ask to
/// the history; a catalog entry replaces its market's lifecycle and, once resolved, notes
/// the winner; nothing else changes anything.
pub open spec fn folded(v: MirrorView, p: Payload) -> MirrorView {
    match p {
        Payload::Book(b) => MirrorView {
            books: v.books.insert(
                b.instrument@,
                DepthView { bids: b.bids@, asks: b.asks@, recv_ts_ns: b.recv_ts_ns },
            ),
            asks: noted(v.asks, b.instrument@, b.recv_ts_ns, first_px(b.asks@), ASK_HISTORY_NS),
            ..v
        },
        Payload::Meta(m) => match venue_spec::market_id_text(m.instrument@) {
            None => v,
            Some(id) => MirrorView {
                meta: v.meta.insert(
                    id,
                    MarketMetaLite {
                        status: m.status,
                        start_ns: match m.start_ts_ns {
                            Some(t) => t,
                            None => 0,
                        },
                        expiry_ns: match m.expiry_ts_ns {
                            Some(t) => t,
                            None => 0,
                        },
                        min_order_size: m.min_order_size,
                        tick_size: m.tick_size,
                        fee_rate: m.fee_rate,
                    },
                ),
                winners: if m.status == MarketStatus::Resolved && m.winner is Some {
                    v.winners.insert(id, m.winner->0@)
                } else {
                    v.winners
                },
                ..v
            },
        },
        _ => v,
    }
}

/// The lifecycle of the market that an instrument belongs to.
pub open spec fn meta_for(v: MirrorView, inst: Seq<char>) -> Option<MarketMetaLite> {
    match venue_spec::market_id_text(inst) {
        Some(id) => if v.meta.contains_key(id) {
            Some(v.meta[id])
        } else {
            None
        },
        None => None,
    }
}

/// The sum of what was traded after `from` and up to `to`.
pub open spec fn volume(s: Seq<(i64, i64)>, from: i64, to: i64) -> int
    decreases s.len(),
{
    if s.len() == 0 {
        0
    } else {
        volume(s.drop_last(), from, to) + if from < s.last().0 <= to {
            s.last().1 as int
        } else {
            0int
        }
    }
}

/// Milliseconds, rounded toward zero.
pub open spec fn ms_toward_zero(ns: int) -> int {
    if ns >= 0 {
        ns / 1_000_000
    } else {
        -((-ns) / 1_000_000)
    }
}

/// The executor's view of the market.
pub struct ExecBookMirror {
    books: StrMap<BookDepth>,
    meta: StrMap<MarketMetaLite>,
    winners: StrMap<String>,
    hist: StrMap<VecDeque<(i64, i64)>>,
    trades: StrMap<VecDeque<(i64, i64)>>,
}

fn copy_samples(q: &VecDeque<(i64, i64)>) -> (r: VecDeque<(i64, i64)>)
    ensures
        r@ == q@,
{
    let mut r: VecDeque<(i64, i64)> = VecDeque::new();
    let mut i: usize = 0;
    while i < q.len()
        invariant
            i <= q@.len(),
            r@ == q@.take(i as int),
        decreases q@.len() - i,
    {
        r.push_back(q[i]);
        assert(q@.take(i + 1) =~= q@.take(i as int).push(q@[i as int]));
        i = i + 1;
    }
    assert(q@.take(q@.len() as int) =~= q@);
    r
}

/// The views of the histories.
pub open spec fn queues(m: Map<Seq<char>, VecDeque<(i64, i64)>>) -> Map<
    Seq<char>,
    Seq<(i64, i64)>,
> {
    m.map_values(|q: VecDeque<(i64, i64)>| q@)
}

/// Adds a sample at `k` and drops those older than `keep`.
fn note(m: &mut StrMap<VecDeque<(i64, i64)>>, k: String, t: i64, x: i64, keep: i64)
    requires
        0 <= keep,
    ensures
        queues(final(m)@) == noted(queues(old(m)@), k@, t, x, keep),
{
    let mut q: VecDeque<(i64, i64)> = match m.get(k.as_str()) {
        Some(q) => copy_samples(q),
        None => VecDeque::new(),
    };
    proof {
        assert(q@ =~= history(queues(m@), k@));
    }
    q.push_back((t, x));
    drop_before(&mut q, t as i128 - keep as i128);
    m.insert(k, q);
    assert(queues(m@) =~= noted(queues(old(m)@), k@, t, x, keep));
}

impl ExecBookMirror {
    /// The mirror, as the contracts see it.
    pub closed spec fn view(&self) -> MirrorView {
        MirrorView {
            books: self.books@.map_values(
                |d: BookDepth|
                    DepthView { bids: d.bids@, asks: d.asks@, recv_ts_ns: d.recv_ts_ns },
            ),
            meta: self.meta@,
            winners: self.winners@.map_values(|w: String| w@),
            asks: queues(self.hist@),
            trades: queues(self.trades@),
        }
    }

    /// An empty mirror.
    pub fn new() -> (r: ExecBookMirror)
        ensures
            r@.books == Map::<Seq<char>, DepthView>::empty(),
            r@.meta == Map::<Seq<char>, MarketMetaLite>::empty(),
            r@.winners == Map::<Seq<char>, Seq<char>>::empty(),
            r@.asks == Map::<Seq<char>, Seq<(i64, i64)>>::empty(),
            r@.trades == Map::<Seq<char>, Seq<(i64, i64)>>::empty(),
    {
        let r = ExecBookMirror {
            books: StrMap::new(),
            meta: StrMap::new(),
            winners: StrMap::new(),
            hist: StrMap::new(),
            trades: StrMap::new(),
        };
        assert(r@.books =~= Map::<Seq<char>, DepthView>::empty());
        assert(r@.winners =~= Map::<Seq<char>, Seq<char>>::empty());
        assert(r@.asks =~= Map::<Seq<char>, Seq<(i64, i64)>>::empty());
        assert(r@.trades =~= Map::<Seq<char>, Seq<(i64, i64)>>::empty());
        r
    }

    /// Folds one event into the view.
    pub fn on_event(&mut self, ev: &Event)
        ensures
            final(self)@ == folded(old(self)@, ev.payload),
    {
        let ghost v0 = self@;
        match &ev.payload {
            Payload::Book(b) => {
                self.books.insert(
                    b.instrument.clone(),
                    BookDepth {
                        bids: copy_levels(&b.bids),
                        asks: copy_levels(&b.asks),
                        recv_ts_ns: b.recv_ts_ns,
                    },
                );
                assert(self@.books =~= folded(v0, ev.payload).books);
                let ask: i64 = if b.asks.len() > 0 {
                    b.asks[0].0
                } else {
                    0
                };
                note(&mut self.hist, b.instrument.clone(), b.recv_ts_ns, ask, ASK_HISTORY_NS);
            },
            Payload::Meta(m) => {
                if let Some(id) = market_id_of(m.instrument.as_str()) {
                    self.meta.insert(
                        id.clone(),
                        MarketMetaLite {
                            status: m.status,
                            start_ns: m.start_ts_ns.unwrap_or(0),
                            expiry_ns: m.expiry_ts_ns.unwrap_or(0),
                            min_order_size: m.min_order_size,
                            tick_size: m.tick_size,
                            fee_rate: m.fee_rate,
                        },
                    );
                    if m.status == MarketStatus::Resolved {
                        if let Some(w) = &m.winner {
                            self.winners.insert(id, w.clone());
                            assert(self@.winners =~= folded(v0, ev.payload).winners);
                        }
                    }
                }
            },
            _ => {},
        }
    }

    /// The top of an instrument's ladder.
    pub fn top(&self, instrument: &str) -> (r: Option<BookTop>)
        ensures
            r == if self@.books.contains_key(instrument@) {
                Some(top_of(self@.books[instrument@]))
            } else {
                None
            },
    {
        match self.books.get(instrument) {
            None => None,
            Some(d) => {
                let (best_bid, bid_sz): (i64, i64) = if d.bids.len() > 0 {
                    d.bids[0]
                } else {
                    (0, 0)
                };
                let (best_ask, ask_sz): (i64, i64) = if d.asks.len() > 0 {
                    d.asks[0]
                } else {
                    (0, 0)
                };
                Some(BookTop { best_bid, bid_sz, best_ask, ask_sz, recv_ts_ns: d.recv_ts_ns })
            },
        }
    }

    /// An instrument's ladder.
    pub fn depth(&self, instrument: &str) -> (r: Option<BookDepth>)
        ensures
            match r {
                Some(d) => self@.books.contains_key(instrument@) && (DepthView {
                    bids: d.bids@,
                    asks: d.asks@,
                    recv_ts_ns: d.recv_ts_ns,
                }) == self@.books[instrument@],
                None => !self@.books.contains_key(instrument@),
            },
    {
        match self.books.get(instrument) {
            None => None,
            Some(d) => Some(
                BookDepth {
                    bids: copy_levels(&d.bids),
                    asks: copy_levels(&d.asks),
                    recv_ts_ns: d.recv_ts_ns,
                },
            ),
        }
    }

    /// The lifecycle of the market that an instrument belongs to.
    pub fn meta_of(&self, instrument: &str) -> (r: Option<MarketMetaLite>)
        ensures
            r == meta_for(self@, instrument@),
    {
        match market_id_of(instrument) {
            None => None,
            Some(id) => match self.meta.get(id.as_str()) {
                Some(m) => Some(*m),
                None => None,
            },
        }
    }

    /// Milliseconds to the expiry of the market that an instrument belongs to, rounded
    /// toward zero.
    pub fn tte_ms(&self, instrument: &str, now_ns: i64) -> (r: Option<i64>)
        ensures
            match r {
                Some(t) => meta_for(self@, instrument@) is Some && t == ms_toward_zero(
                    meta_for(self@, instrument@)->0.expiry_ns - now_ns,
                ),
                None => meta_for(self@, instrument@) is None,
            },
    {
        match self.meta_of(instrument) {
            None => None,
            Some(m) => {
                let d: i128 = m.expiry_ns as i128 - now_ns as i128;
                if d >= 0 {
                    Some((d / 1_000_000) as i64)
                } else {
                    Some((-((-d) / 1_000_000)) as i64)
                }
            },
        }
    }

    /// How an instrument's ask moved from one instant to another, in micro-units (ten thousand
    /// are a cent); `None` where the history does not reach back to both.
    pub fn ask_move_c(&self, instrument: &str, from_ns: i64, to_ns: i64) -> (r: Option<i128>)
        ensures
            ({
                let h = history(self@.asks, instrument@);
                let a = ring::as_of(h, to_ns as int);
                let b = ring::as_of(h, from_ns as int);
                match r {
                    Some(d) => a is Some && b is Some && d == (a->0).1 - (b->0).1,
                    None => a is None || b is None,
                }
            }),
    {
        match self.hist.get(instrument) {
            None => None,
            Some(h) => match (find_as_of(h, to_ns as i128), find_as_of(h, from_ns as i128)) {
                (Some(i), Some(j)) => Some(h[i].1 as i128 - h[j].1 as i128),
                _ => None,
            },
        }
    }

    /// Notes a trade on the tape of its market, by the exchange's time.
    pub fn on_trade(&mut self, instrument: &str, exch_ts_ns: i64, qty: i64)
        ensures
            final(self)@ == (MirrorView {
                trades: noted(
                    old(self)@.trades,
                    tape_key(instrument@),
                    exch_ts_ns,
                    qty,
                    TAPE_NS,
                ),
                ..old(self)@
            }),
    {
        let key = match market_id_of(instrument) {
            Some(m) => m,
            None => instrument.to_string(),
        };
        note(&mut self.trades, key, exch_ts_ns, qty, TAPE_NS);
    }

    /// What was traded on an instrument's market after `from_ns` and up to `to_ns`.
    pub fn traded_between(&self, instrument: &str, from_ns: i64, to_ns: i64) -> (r: i128)
        ensures
            r == volume(history(self@.trades, tape_key(instrument@)), from_ns, to_ns),
    {
        let key = match market_id_of(instrument) {
            Some(m) => m,
            None => instrument.to_string(),
        };
        match self.trades.get(key.as_str()) {
            None => 0,
            Some(h) => {
                let ghost s = h@;
                let mut sum: i128 = 0;
                let mut i: usize = 0;
                assert(s.take(0) =~= Seq::<(i64, i64)>::empty());
                while i < h.len()
                    invariant
                        s == h@,
                        i <= s.len(),
                        sum == volume(s.take(i as int), from_ns, to_ns),
                        -0x8000_0000_0000_0000 * i <= sum <= 0x8000_0000_0000_0000 * i,
                    decreases s.len() - i,
                {
                    assert(s.take(i + 1).drop_last() =~= s.take(i as int));
                    let (t, q): (i64, i64) = h[i];
                    if t > from_ns && t <= to_ns {
                        sum = sum + q as i128;
                    }
                    i = i + 1;
                }
                assert(s.take(s.len() as int) =~= s);
                sum
            },
        }
    }

    /// The instrument that won the market that `instrument` belongs to.
    pub fn winner_of(&self, instrument: &str) -> (r: Option<String>)
        ensures
            match r {
                Some(w) => venue_spec::market_id_text(instrument@) is Some
                    && self@.winners.contains_key(venue_spec::market_id_text(instrument@)->0) && w@
                    == self@.winners[venue_spec::market_id_text(instrument@)->0],
                None => match venue_spec::market_id_text(instrument@) {
                    Some(id) => !self@.winners.contains_key(id),
                    None => true,
                },
            },
    {
        match market_id_of(instrument) {
            None => None,
            Some(id) => match self.winners.get(id.as_str()) {
                Some(w) => Some(w.clone()),
                None => None,
            },
        }
    }
}

/// What the catalog says of one outcome holds of the other: both lead to one market.
pub proof fn law_meta_reaches_both_outcomes(v: MirrorView, inst: Seq<char>)
    requires
        venue_spec::is_outcome(inst),
    ensures
        meta_for(v, venue_spec::complement_text(inst)) == meta_for(v, inst),
{
    venue_spec::law_complement_keeps_the_market(inst);
}

/// A book replaces what was known of its instrument, the top of it is its first levels, and
/// its ask goes into the history; nothing of another instrument changes.
pub proof fn law_books_replace_books(v: MirrorView, b: crate::model::BookUpdate, other: Seq<char>)
    requires
        other != b.instrument@,
    ensures
        ({
            let n = folded(v, Payload::Book(b));
            let d = n.books[b.instrument@];
            let t = top_of(d);
            &&& n.books.contains_key(b.instrument@)
            &&& d.bids == b.bids@ && d.asks == b.asks@ && d.recv_ts_ns == b.recv_ts_ns
            &&& b.bids@.len() > 0 ==> t.best_bid == b.bids@[0].0 && t.bid_sz == b.bids@[0].1
            &&& b.asks@.len() > 0 ==> t.best_ask == b.asks@[0].0 && t.ask_sz == b.asks@[0].1
            &&& b.bids@.len() == 0 ==> t.best_bid == 0 && t.bid_sz == 0
            &&& b.asks@.len() == 0 ==> t.best_ask == 0 && t.ask_sz == 0
            &&& t.recv_ts_ns == b.recv_ts_ns
            &&& n.books.contains_key(other) <==> v.books.contains_key(other)
            &&& v.books.contains_key(other) ==> n.books[other] == v.books[other]
            &&& n.meta == v.meta && n.winners == v.winners && n.trades == v.trades
            &&& history(n.asks, other) == history(v.asks, other)
            &&& history(n.asks, b.instrument@) == ring::dropped(
                history(v.asks, b.instrument@).push((b.recv_ts_ns, t.best_ask)),
                b.recv_ts_ns - ASK_HISTORY_NS,
            )
        }),
{
}

/// A catalog entry sets the lifecycle of its market, for both outcomes; the winner is noted
/// only once it is resolved.
pub proof fn law_entries_set_the_lifecycle(v: MirrorView, m: crate::model::MarketMeta, id: Seq<char>)
    requires
        venue_spec::market_id_text(m.instrument@) == Some(id),
    ensures
        ({
            let n = folded(v, Payload::Meta(m));
            &&& meta_for(n, m.instrument@) matches Some(x) && x.status == m.status
                && x.min_order_size == m.min_order_size && x.tick_size == m.tick_size && x.fee_rate
                == m.fee_rate && (m.expiry_ts_ns matches Some(e) ==> x.expiry_ns == e) && (
            m.start_ts_ns matches Some(e) ==> x.start_ns == e)
            &&& m.status == MarketStatus::Resolved ==> (m.winner matches Some(w)
                ==> n.winners.contains_key(id) && n.winners[id] == w@)
            &&& m.status != MarketStatus::Resolved ==> n.winners == v.winners
            &&& n.books == v.books
        }),
{
}

/// The volume between two instants counts the trades after the first and up to the second,
/// and can be taken in two parts.
pub proof fn law_volumes_add_up(s: Seq<(i64, i64)>, t: i64, x: i64, from: i64, mid: i64, to: i64)
    requires
        from <= mid <= to,
    ensures
        volume(s.push((t, x)), from, to) == volume(s, from, to) + (if from < t && t <= to {
            x as int
        } else {
            0
        }),
        volume(s, from, to) == volume(s, from, mid) + volume(s, mid, to),
        volume(Seq::empty(), from, to) == 0,
    decreases s.len(),
{
    assert(s.push((t, x)).drop_last() =~= s);
    if s.len() > 0 {
        law_volumes_add_up(s.drop_last(), t, x, from, mid, to);
    }
}

} // verus!
