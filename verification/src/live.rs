//! What a run of the whole system watches: a heartbeat, and aligned samples of the reference
//! and of every market, on one clock.
use vstd::prelude::*;
use crate::event::{Event, Payload};
use crate::fixed;
use crate::fixed::{div_toward_zero, sat};
use crate::model::MarketStatus;
use crate::numeral;
use crate::numeral::{i64_text, one_place_text, three_places_text, two_places_text};
use crate::strmap;
use crate::strmap::StrMap;
use crate::text;
use crate::text::{chars_of, ends_with, rfind_char, same, starts_with, string_of_range};

verus! {

/// The settings of a run.
#[derive(Debug)]
pub struct RunCfg {
    /// How long to run; 0 is until it is stopped.
    pub duration_secs: u64,
    /// Where samples are written; empty is nowhere.
    pub sample_dir: String,
    pub sample_ms: u64,
    pub perp_instrument: String,
    pub cb_product: String,
    pub feature_extras: Vec<String>,
    pub ob_features: bool,
    pub ob_model_path: String,
    pub depth_instrument: String,
}

impl Default for RunCfg {
    fn default() -> (r: RunCfg)
        ensures
            r.duration_secs == 0,
            r.sample_dir@ == ""@,
            r.sample_ms == 50,
            r.perp_instrument@ == "binance.usdt_perp.BTCUSDT"@,
            r.cb_product@ == "BTC-USD"@,
            r.feature_extras@.len() == 0,
            !r.ob_features,
            r.ob_model_path@ == ""@,
            r.depth_instrument@ == ""@,
    {
        RunCfg {
            duration_secs: 0,
            sample_dir: "".to_string(),
            sample_ms: 50,
            perp_instrument: "binance.usdt_perp.BTCUSDT".to_string(),
            cb_product: "BTC-USD".to_string(),
            feature_extras: Vec::new(),
            ob_features: false,
            ob_model_path: "".to_string(),
            depth_instrument: "".to_string(),
        }
    }
}

/// The market of an instrument of the prediction venue: what stands between its first and
/// its last dot.
pub open spec fn market_in(inst: Seq<char>) -> Option<Seq<char>> {
    if text::has_prefix(inst, "kalshi."@) {
        let r = inst.skip(7);
        let i = text::last_at(r, '.');
        if i >= 0 {
            Some(r.take(i))
        } else {
            None
        }
    } else {
        None
    }
}

/// The market of an instrument of the prediction venue.
pub fn market_of(inst: &str) -> (r: Option<String>)
    ensures
        match r {
            Some(m) => market_in(inst@) == Some(m@),
            None => market_in(inst@) is None,
        },
{
    if !starts_with(inst, "kalshi.") {
        return None;
    }
    proof {
        reveal_strlit("kalshi.");
        assert("kalshi."@.len() == 7);
    }
    let v = chars_of(inst);
    let rest = string_of_range(&v, 7, v.len());
    assert(rest@ =~= inst@.skip(7));
    let w = chars_of(rest.as_str());
    match rfind_char(&w, '.') {
        Some(i) => {
            let m = string_of_range(&w, 0, i);
            assert(m@ =~= rest@.take(i as int));
            Some(m)
        },
        None => None,
    }
}

/// The top of a market's book, with its end; an end of zero is not known.
#[derive(Clone, Copy, Debug, PartialEq, Eq, Structural)]
pub struct KTop {
    pub ybid: i64,
    pub yask: i64,
    pub ybsz: i64,
    pub yasz: i64,
    pub expiry_ns: i64,
    pub book_ns: i64,
}

/// The first level of a side, or zeros.
pub open spec fn first_level(s: Seq<(i64, i64)>) -> (i64, i64) {
    if s.len() > 0 {
        s[0]
    } else {
        (0, 0)
    }
}

fn level0(v: &Vec<(i64, i64)>) -> (r: (i64, i64))
    ensures
        r == first_level(v@),
{
    if v.len() > 0 {
        v[0]
    } else {
        (0, 0)
    }
}

/// What is sampled.
pub struct Sampler {
    perp_instrument: String,
    perp: Option<(i64, i64)>,
    books: StrMap<KTop>,
    expiry: StrMap<i64>,
}

/// What is sampled, as the contracts see it.
#[verifier::ext_equal]
pub struct SamplerV {
    pub perp_instrument: Seq<char>,
    pub perp: Option<(i64, i64)>,
    pub books: Map<Seq<char>, KTop>,
    pub expiry: Map<Seq<char>, i64>,
}

impl View for Sampler {
    type V = SamplerV;

    closed spec fn view(&self) -> SamplerV {
        SamplerV {
            perp_instrument: self.perp_instrument@,
            perp: self.perp,
            books: self.books@,
            expiry: self.expiry@,
        }
    }
}

/// The end of a market, where it is known.
pub open spec fn end_of(v: SamplerV, m: Seq<char>) -> i64 {
    let e = if v.books.contains_key(m) {
        v.books[m].expiry_ns
    } else {
        0
    };
    if e == 0 && v.expiry.contains_key(m) {
        v.expiry[m]
    } else {
        e
    }
}

/// The samples after an event.
pub open spec fn heard(v: SamplerV, ev: Event) -> SamplerV {
    match ev.payload {
        Payload::Book(b) => if b.instrument@ == v.perp_instrument {
            if b.bids@.len() > 0 && b.asks@.len() > 0 {
                SamplerV { perp: Some((b.bids@[0].0, b.asks@[0].0)), ..v }
            } else {
                v
            }
        } else if text::has_suffix(b.instrument@, ".YES"@) && market_in(b.instrument@) is Some {
            let m = market_in(b.instrument@)->0;
            SamplerV {
                books: v.books.insert(
                    m,
                    KTop {
                        ybid: first_level(b.bids@).0,
                        ybsz: first_level(b.bids@).1,
                        yask: first_level(b.asks@).0,
                        yasz: first_level(b.asks@).1,
                        expiry_ns: end_of(v, m),
                        book_ns: b.recv_ts_ns,
                    },
                ),
                ..v
            }
        } else {
            v
        },
        Payload::Meta(e) => match (market_in(e.instrument@), e.expiry_ts_ns) {
            (Some(m), Some(x)) => SamplerV {
                expiry: v.expiry.insert(m, x),
                books: if v.books.contains_key(m) {
                    v.books.insert(m, KTop { expiry_ns: x, ..v.books[m] })
                } else {
                    v.books
                },
                ..v
            },
            _ => v,
        },
        _ => v,
    }
}

/// The time to the end of a market, in milliseconds.
pub open spec fn left_ms(k: KTop, now: i64) -> int {
    fixed::toward_zero(fixed::clamp64(k.expiry_ns - now), 1_000_000)
}

/// Whether a market is sampled: its end is known and near, and its book is not empty.
pub open spec fn is_active(k: KTop, now: i64) -> bool {
    k.expiry_ns != 0 && (k.yask > 0 || k.ybid > 0) && -10_000 <= left_ms(k, now) <= 1_200_000
}

/// One row: the instant, the market, the time left, the reference, and the market's top.
pub open spec fn row_text(now: i64, m: Seq<char>, perp: (i64, i64), k: KTop) -> Seq<char> {
    numeral::int_text(fixed::toward_zero(now as int, 1_000_000)) + ","@ + m + ","@
        + numeral::int_text(left_ms(k, now)) + ","@ + numeral::two_places(perp.0 as int) + ","@
        + numeral::two_places(perp.1 as int) + ","@ + numeral::rounded(k.ybid as int, 1_000, 3)
        + ","@ + numeral::rounded(k.yask as int, 1_000, 3) + ","@ + numeral::rounded(
        k.ybsz as int,
        100_000,
        1,
    ) + ","@ + numeral::rounded(k.yasz as int, 100_000, 1)
}

fn write_row(now: i64, m: &str, perp: (i64, i64), k: &KTop) -> (r: String)
    ensures
        r@ == row_text(now, m@, perp, *k),
{
    let left: i64 = div_toward_zero(sat(k.expiry_ns as i128 - now as i128), 1_000_000);
    let mut r = i64_text(div_toward_zero(now, 1_000_000));
    r.append(",");
    r.append(m);
    r.append(",");
    r.append(i64_text(left).as_str());
    r.append(",");
    r.append(two_places_text(perp.0).as_str());
    r.append(",");
    r.append(two_places_text(perp.1).as_str());
    r.append(",");
    r.append(three_places_text(k.ybid).as_str());
    r.append(",");
    r.append(three_places_text(k.yask).as_str());
    r.append(",");
    r.append(one_place_text(k.ybsz).as_str());
    r.append(",");
    r.append(one_place_text(k.yasz).as_str());
    assert(r@ =~= row_text(now, m@, perp, *k));
    r
}

/// The names of the columns.
pub fn header() -> (r: &'static str)
    ensures
        r@ == "ts_ms,ticker,tte_ms,perp_bid,perp_ask,ybid,yask,ybid_sz,yask_sz"@,
{
    "ts_ms,ticker,tte_ms,perp_bid,perp_ask,ybid,yask,ybid_sz,yask_sz"
}

/// The rows of these markets, in their order: one for each that is sampled.
pub open spec fn rows_of(v: SamplerV, now: i64, ks: Seq<Seq<char>>) -> Seq<Seq<char>>
    decreases ks.len(),
{
    if ks.len() == 0 {
        Seq::empty()
    } else {
        let before = rows_of(v, now, ks.drop_last());
        let k = v.books[ks.last()];
        if is_active(k, now) {
            before.push(row_text(now, ks.last(), v.perp->0, k))
        } else {
            before
        }
    }
}

/// Whether a market is still remembered: its end is not known, or less than an hour ago.
pub open spec fn is_remembered(k: KTop, now: i64) -> bool {
    k.expiry_ns == 0 || k.expiry_ns > now - 3_600_000_000_000
}

impl Sampler {
    /// Nothing seen yet.
    pub fn new(perp_instrument: String) -> (r: Sampler)
        ensures
            r@ == (SamplerV {
                perp_instrument: perp_instrument@,
                perp: None,
                books: Map::empty(),
                expiry: Map::empty(),
            }),
    {
        Sampler { perp_instrument, perp: None, books: StrMap::new(), expiry: StrMap::new() }
    }

    /// Takes an event in.
    pub fn on_event(&mut self, ev: &Event)
        ensures
            final(self)@ == heard(old(self)@, *ev),
    {
        match &ev.payload {
            Payload::Book(b) => {
                if same(b.instrument.as_str(), self.perp_instrument.as_str()) {
                    if b.bids.len() > 0 && b.asks.len() > 0 {
                        self.perp = Some((b.bids[0].0, b.asks[0].0));
                    }
                } else if ends_with(b.instrument.as_str(), ".YES") {
                    if let Some(m) = market_of(b.instrument.as_str()) {
                        let mut end: i64 = match self.books.get(m.as_str()) {
                            Some(k) => k.expiry_ns,
                            None => 0,
                        };
                        if end == 0 {
                            if let Some(x) = self.expiry.get(m.as_str()) {
                                end = *x;
                            }
                        }
                        let (ybid, ybsz) = level0(&b.bids);
                        let (yask, yasz) = level0(&b.asks);
                        self.books.insert(
                            m,
                            KTop {
                                ybid,
                                yask,
                                ybsz,
                                yasz,
                                expiry_ns: end,
                                book_ns: b.recv_ts_ns,
                            },
                        );
                    }
                }
            },
            Payload::Meta(e) => {
                if let (Some(m), Some(x)) = (market_of(e.instrument.as_str()), e.expiry_ts_ns) {
                    let known: Option<KTop> = match self.books.get(m.as_str()) {
                        Some(k) => Some(*k),
                        None => None,
                    };
                    if let Some(k) = known {
                        self.books.insert(m.clone(), KTop { expiry_ns: x, ..k });
                    }
                    self.expiry.insert(m, x);
                }
            },
            _ => {},
        }
    }

    /// The rows at an instant; nothing before the reference is known.
    pub fn rows(&self, now: i64) -> (r: Option<Vec<String>>)
        ensures
            r is Some == self@.perp is Some,
            r matches Some(v) ==> exists|ks: Seq<Seq<char>>| #[trigger]
                strmap::lists_keys(ks, self@.books.dom()) && text::views(v@) == rows_of(
                    self@,
                    now,
                    ks,
                ),
    {
        let perp: (i64, i64) = match self.perp {
            Some(p) => p,
            None => {
                return None;
            },
        };
        let keys = self.books.keys();
        let ghost ks = text::views(keys@);
        let mut out: Vec<String> = Vec::new();
        let mut i: usize = 0;
        assert(ks.take(0) =~= Seq::<Seq<char>>::empty());
        assert(text::views(out@) =~= Seq::<Seq<char>>::empty());
        while i < keys.len()
            invariant
                ks == text::views(keys@),
                strmap::lists_keys(ks, self@.books.dom()),
                self@.perp == Some(perp),
                i <= keys@.len(),
                text::views(out@) == rows_of(self@, now, ks.take(i as int)),
            decreases keys@.len() - i,
        {
            assert(ks.take(i + 1).drop_last() =~= ks.take(i as int));
            assert(ks.take(i + 1).last() == ks[i as int]);
            assert(ks[i as int] == keys@[i as int]@);
            assert(ks.contains(ks[i as int]));
            assert(self@.books.dom().contains(ks[i as int]));
            if let Some(k) = self.books.get(keys[i].as_str()) {
                let left: i64 = div_toward_zero(
                    sat(k.expiry_ns as i128 - now as i128),
                    1_000_000,
                );
                if k.expiry_ns != 0 && (k.yask > 0 || k.ybid > 0) && -10_000 <= left && left
                    <= 1_200_000 {
                    let ghost o0 = out@;
                    let row = write_row(now, keys[i].as_str(), perp, k);
                    let ghost rv = row@;
                    out.push(row);
                    assert(text::views(out@) =~= text::views(o0).push(rv));
                }
            }
            i = i + 1;
        }
        assert(ks.take(ks.len() as int) =~= ks);
        assert(strmap::lists_keys(ks, self@.books.dom()));
        Some(out)
    }

    /// Forgets the markets that have been over for long.
    pub fn forget(&mut self, now: i64)
        ensures
            final(self)@ == (SamplerV { books: final(self)@.books, ..old(self)@ }),
            forall|m: Seq<char>| #[trigger]
                final(self)@.books.contains_key(m) == (old(self)@.books.contains_key(m)
                    && is_remembered(old(self)@.books[m], now)),
            forall|m: Seq<char>| #[trigger]
                final(self)@.books.contains_key(m) ==> final(self)@.books[m]
                    == old(self)@.books[m],
    {
        let keys = self.books.keys();
        let ghost ks = text::views(keys@);
        let ghost all = self@.books;
        let mut i: usize = 0;
        while i < keys.len()
            invariant
                ks == text::views(keys@),
                strmap::lists_keys(ks, all.dom()),
                all == old(self)@.books,
                self@ == (SamplerV { books: self@.books, ..old(self)@ }),
                i <= keys@.len(),
                forall|m: Seq<char>| #[trigger]
                    self@.books.contains_key(m) == (all.contains_key(m) && (is_remembered(
                        all[m],
                        now,
                    ) || !ks.take(i as int).contains(m))),
                forall|m: Seq<char>| #[trigger]
                    self@.books.contains_key(m) ==> self@.books[m] == all[m],
            decreases keys@.len() - i,
        {
            let ghost k = ks[i as int];
            let ghost done = ks.take(i as int);
            let ghost next = ks.take(i + 1);
            proof {
                assert(k == keys@[i as int]@);
                assert(ks.contains(k));
                assert(all.dom().contains(k));
                assert forall|x: Seq<char>| next.contains(x) == (done.contains(x) || x == k) by {
                    if done.contains(x) {
                        let j = choose|j: int| 0 <= j < done.len() && done[j] == x;
                        assert(next[j] == x);
                    }
                    if x == k {
                        assert(next[i as int] == x);
                    }
                    if next.contains(x) {
                        let j = choose|j: int| 0 <= j < next.len() && next[j] == x;
                        if j < i {
                            assert(done[j] == x);
                        }
                    }
                }
                assert(!done.contains(k)) by {
                    if done.contains(k) {
                        let j = choose|j: int| 0 <= j < done.len() && done[j] == k;
                        assert(ks[j] == ks[i as int]);
                    }
                }
            }
            let old_one: bool = match self.books.get(keys[i].as_str()) {
                Some(x) => x.expiry_ns != 0 && x.expiry_ns as i128 <= now as i128
                    - 3_600_000_000_000,
                None => false,
            };
            if old_one {
                let _ = self.books.remove(keys[i].as_str());
            }
            i = i + 1;
        }
        proof {
            assert(ks.take(ks.len() as int) =~= ks);
            assert forall|m: Seq<char>| #[trigger]
                self@.books.contains_key(m) == (all.contains_key(m) && is_remembered(all[m], now)) by {
                if all.contains_key(m) {
                    assert(all.dom().contains(m));
                }
            }
        }
    }
}

/// The pulse of a run: the reference, the market that is live, and the books since the last
/// beat.
#[derive(Debug)]
pub struct Heartbeat {
    pub perp_instrument: String,
    /// In halves of a micro-unit.
    pub perp_mid: Option<i64>,
    pub target: Option<String>,
    pub binance: u64,
    pub poly: u64,
    pub kalshi: u64,
}

/// One more, up to the last number.
pub open spec fn one_more(n: u64) -> u64 {
    if n < u64::MAX {
        (n + 1) as u64
    } else {
        n
    }
}

/// The characters of a text that may be missing.
pub open spec fn chars(s: Option<String>) -> Option<Seq<char>> {
    match s {
        Some(t) => Some(t@),
        None => None,
    }
}

impl Heartbeat {
    /// No pulse yet.
    pub fn new(perp_instrument: String) -> (r: Heartbeat)
        ensures
            r.perp_instrument == perp_instrument,
            r.perp_mid is None && r.target is None,
            r.binance == 0 && r.poly == 0 && r.kalshi == 0,
    {
        Heartbeat { perp_instrument, perp_mid: None, target: None, binance: 0, poly: 0, kalshi: 0 }
    }

    /// Takes an event in.
    pub fn on_event(&mut self, ev: &Event)
        ensures
            final(self).perp_instrument == old(self).perp_instrument,
            match ev.payload {
                Payload::Book(b) => {
                    let perp = b.instrument@ == old(self).perp_instrument@;
                    let poly = !perp && text::has_prefix(b.instrument@, "polymarket."@);
                    let kalshi = !perp && !poly && text::has_prefix(b.instrument@, "kalshi."@);
                    &&& final(self).target == old(self).target
                    &&& final(self).binance == (if perp {
                        one_more(old(self).binance)
                    } else {
                        old(self).binance
                    })
                    &&& final(self).poly == (if poly {
                        one_more(old(self).poly)
                    } else {
                        old(self).poly
                    })
                    &&& final(self).kalshi == (if kalshi {
                        one_more(old(self).kalshi)
                    } else {
                        old(self).kalshi
                    })
                    &&& final(self).perp_mid == (if perp && b.bids@.len() > 0 && b.asks@.len() > 0 {
                        Some(fixed::clamp64(b.bids@[0].0 + b.asks@[0].0) as i64)
                    } else {
                        old(self).perp_mid
                    })
                },
                Payload::Meta(m) => {
                    &&& final(self).perp_mid == old(self).perp_mid
                    &&& final(self).binance == old(self).binance
                    &&& final(self).poly == old(self).poly
                    &&& final(self).kalshi == old(self).kalshi
                    &&& chars(final(self).target) == (if m.status == MarketStatus::Live {
                        Some(m.instrument@)
                    } else if m.status == MarketStatus::Expired && chars(old(self).target)
                        == Some(m.instrument@) {
                        None
                    } else {
                        chars(old(self).target)
                    })
                },
                _ => *final(self) == *old(self),
            },
    {
        match &ev.payload {
            Payload::Book(b) => {
                if same(b.instrument.as_str(), self.perp_instrument.as_str()) {
                    self.binance = self.binance.saturating_add(1);
                    if b.bids.len() > 0 && b.asks.len() > 0 {
                        self.perp_mid = Some(sat(b.bids[0].0 as i128 + b.asks[0].0 as i128));
                    }
                } else if starts_with(b.instrument.as_str(), "polymarket.") {
                    self.poly = self.poly.saturating_add(1);
                } else if starts_with(b.instrument.as_str(), "kalshi.") {
                    self.kalshi = self.kalshi.saturating_add(1);
                }
            },
            Payload::Meta(m) => {
                match m.status {
                    MarketStatus::Live => {
                        self.target = Some(m.instrument.clone());
                    },
                    MarketStatus::Expired => {
                        let mine: bool = match &self.target {
                            Some(t) => same(t.as_str(), m.instrument.as_str()),
                            None => false,
                        };
                        if mine {
                            self.target = None;
                        }
                    },
                    _ => {},
                }
            },
            _ => {},
        }
    }

    /// Begins to count anew.
    pub fn beat(&mut self)
        ensures
            final(self).perp_instrument == old(self).perp_instrument,
            final(self).perp_mid == old(self).perp_mid,
            final(self).target == old(self).target,
            final(self).binance == 0 && final(self).poly == 0 && final(self).kalshi == 0,
    {
        self.binance = 0;
        self.poly = 0;
        self.kalshi = 0;
    }
}

/// A market is sampled only with an end and a book, and only near its end.
pub proof fn law_samples_are_near_the_end(k: KTop, now: i64)
    requires
        is_active(k, now),
    ensures
        k.expiry_ns != 0,
        -10_001_000_000 < k.expiry_ns - now < 1_200_001_000_000,
        is_remembered(k, now),
{
}

/// What a sampler hears: the reference's book sets the reference's quotes, a book of a yes
/// side sets the top of its market, bids from the bids and asks from the asks, and a catalog
/// entry sets the market's end.
pub proof fn law_what_a_sampler_hears(v: SamplerV, ev: Event)
    ensures
        ({
            let n = heard(v, ev);
            &&& ev.payload matches Payload::Book(b) ==> {
                &&& b.instrument@ == v.perp_instrument && b.bids@.len() > 0 && b.asks@.len() > 0
                    ==> n.perp == Some((b.bids@[0].0, b.asks@[0].0)) && n.books == v.books
                &&& b.instrument@ != v.perp_instrument ==> n.perp == v.perp
                &&& b.instrument@ != v.perp_instrument && text::has_suffix(b.instrument@, ".YES"@)
                    && market_in(b.instrument@) is Some && b.bids@.len() > 0 && b.asks@.len() > 0
                    ==> {
                    let k = n.books[market_in(b.instrument@)->0];
                    &&& k.ybid == b.bids@[0].0 && k.ybsz == b.bids@[0].1
                    &&& k.yask == b.asks@[0].0 && k.yasz == b.asks@[0].1
                    &&& k.book_ns == b.recv_ts_ns
                }
            }
            &&& ev.payload matches Payload::Meta(e) ==> (market_in(e.instrument@) matches Some(m)
                ==> (e.expiry_ts_ns matches Some(x) ==> n.expiry.contains_key(m) && n.expiry[m] == x
                && (v.books.contains_key(m) ==> n.books[m].expiry_ns == x && n.books[m].ybid
                == v.books[m].ybid)))
        }),
{
}

/// A market with an end and a book is sampled from twenty minutes before its end to ten
/// seconds after it, and remembered for an hour more.
pub proof fn law_when_a_market_is_sampled(k: KTop, now: i64)
    requires
        k.expiry_ns != 0,
        k.ybid > 0 || k.yask > 0,
        i64::MIN <= k.expiry_ns - now <= i64::MAX,
    ensures
        -10_000_000_000 <= k.expiry_ns - now <= 1_200_000_000_000 ==> is_active(k, now),
        k.expiry_ns - now >= 1_200_001_000_000 ==> !is_active(k, now),
        k.expiry_ns - now <= -10_001_000_000 ==> !is_active(k, now),
        is_remembered(k, now) <==> now - k.expiry_ns < 3_600_000_000_000,
{
}

/// One row for each market that is sampled, in their order.
pub proof fn law_one_row_to_a_market(v: SamplerV, now: i64, ks: Seq<Seq<char>>, m: Seq<char>)
    ensures
        is_active(v.books[m], now) ==> rows_of(v, now, ks.push(m)) == rows_of(v, now, ks).push(
            row_text(now, m, v.perp->0, v.books[m]),
        ),
        !is_active(v.books[m], now) ==> rows_of(v, now, ks.push(m)) == rows_of(v, now, ks),
{
    assert(ks.push(m).drop_last() =~= ks);
}

} // verus!
