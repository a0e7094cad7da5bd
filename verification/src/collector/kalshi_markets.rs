//! Which markets of a series are followed, how each one lives, and the tape of its trades.
use vstd::prelude::*;
use crate::collector::kalshi;
use crate::collector::kalshi::KalshiCfg;
use crate::collector::net;
use crate::collector::net::nxt;
use crate::collector::phase;
use crate::collector::phase::{next_phase, phase_of, status_of, Phase};
use crate::datetime;
use crate::datetime::iso_ns;
use crate::event::{Event, Payload};
use crate::fixed;
use crate::fixed::{max64, sat};
use crate::json;
use crate::json::{amount_field, str_field, Json};
use crate::json::JsonV;
use crate::model::{BookUpdate, MarketMeta, Side, TradeTick};
use crate::numeral;
use crate::numeral::{i64_text, parse_micros};
use crate::text;
use crate::text::{chars_of, comes_before, joined, rfind_text, same, string_of_range};

verus! {

/// One market.
#[derive(Debug)]
pub struct Market {
    pub ticker: String,
    pub title: String,
    pub open_ns: i64,
    pub close_ns: i64,
    pub phase: Phase,
    pub instrument: String,
}

/// A market, as the contracts see it.
pub struct MarketV {
    pub ticker: Seq<char>,
    pub title: Seq<char>,
    pub open_ns: i64,
    pub close_ns: i64,
    pub phase: Phase,
    pub instrument: Seq<char>,
}

impl View for Market {
    type V = MarketV;

    open spec fn view(&self) -> MarketV {
        MarketV {
            ticker: self.ticker@,
            title: self.title@,
            open_ns: self.open_ns,
            close_ns: self.close_ns,
            phase: self.phase,
            instrument: self.instrument@,
        }
    }
}

/// The views of a run of markets.
pub open spec fn market_views(s: Seq<Market>) -> Seq<MarketV> {
    Seq::new(s.len(), |i: int| s[i]@)
}

/// The strike of a ticker of a strike ladder: the number behind its last `-T`.
pub open spec fn strike_in(ticker: Seq<char>) -> Option<i64> {
    let i = text::last_text(ticker, "-T"@);
    if i >= 0 {
        json::fit64(numeral::micros(ticker.skip(i + 2)))
    } else {
        None
    }
}

/// The strike of a ticker.
pub fn strike_of(ticker: &str) -> (r: Option<i64>)
    ensures
        r == strike_in(ticker@),
{
    let v = chars_of(ticker);
    let q = chars_of("-T");
    proof {
        reveal_strlit("-T");
        assert("-T"@.len() == 2);
    }
    match rfind_text(&v, &q) {
        Some(i) => {
            assert(i + 2 <= v.len());
            let tail = string_of_range(&v, i + 2, v.len());
            assert(tail@ =~= ticker@.skip(i + 2));
            parse_micros(tail.as_str())
        },
        None => None,
    }
}

/// A market that could be followed.
#[derive(Debug)]
pub struct Candidate {
    pub close_ns: i64,
    /// Twice the distance of its strike from the money.
    pub distance: i128,
    pub ticker: String,
    pub title: String,
    pub open_ns: i64,
}

/// A candidate, as the contracts see it.
pub struct CandidateV {
    pub close_ns: i64,
    pub distance: i128,
    pub ticker: Seq<char>,
    pub title: Seq<char>,
    pub open_ns: i64,
}

impl View for Candidate {
    type V = CandidateV;

    open spec fn view(&self) -> CandidateV {
        CandidateV {
            close_ns: self.close_ns,
            distance: self.distance,
            ticker: self.ticker@,
            title: self.title@,
            open_ns: self.open_ns,
        }
    }
}

/// The views of a run of candidates.
pub open spec fn candidate_views(s: Seq<Candidate>) -> Seq<CandidateV> {
    Seq::new(s.len(), |i: int| s[i]@)
}

/// The instant in a text field.
pub open spec fn instant_at(v: JsonV, k: Seq<char>) -> Option<i64> {
    match json::text_at(v.field(k)) {
        Some(t) => datetime::nanos_of(datetime::rfc3339(t)),
        None => None,
    }
}

/// Twice the distance of a strike from the money; `mid_twice` is twice the mid of the
/// reference, 0 where there is none.
pub open spec fn distance_of(ticker: Seq<char>, mid_twice: i128) -> i128 {
    match strike_in(ticker) {
        Some(k) => if 0 < mid_twice <= 0x1_0000_0000_0000_0000 {
            fixed::magnitude(2 * k - mid_twice) as i128
        } else {
            0
        },
        None => 0,
    }
}

/// The candidate that a listed market makes: one with a ticker and an end, which is far
/// enough off and near enough.
pub open spec fn candidate_of(v: JsonV, now: i64, cfg: KalshiCfg, mid_twice: i128) -> Option<
    CandidateV,
> {
    let t = json::text_at(v.field("ticker"@));
    let c = instant_at(v, "close_time"@);
    if t is None || c is None || c->0 - now < cfg.min_tte_s * 1_000_000_000 || c->0 - now
        > cfg.max_tte_s * 1_000_000_000 {
        None
    } else {
        Some(
            CandidateV {
                close_ns: c->0,
                distance: distance_of(t->0, mid_twice),
                ticker: t->0,
                title: match json::text_at(v.field("title"@)) {
                    Some(x) => x,
                    None => t->0,
                },
                open_ns: match instant_at(v, "open_time"@) {
                    Some(x) => x,
                    None => now,
                },
            },
        )
    }
}

/// The candidates of a listing, in its order.
pub open spec fn candidates_in(items: Seq<JsonV>, now: i64, cfg: KalshiCfg, mid_twice: i128) -> Seq<
    CandidateV,
>
    decreases items.len(),
{
    if items.len() == 0 {
        Seq::empty()
    } else {
        let before = candidates_in(items.drop_last(), now, cfg, mid_twice);
        match candidate_of(items.last(), now, cfg, mid_twice) {
            Some(c) => before.push(c),
            None => before,
        }
    }
}

fn instant_field(v: &Json, k: &str) -> (r: Option<i64>)
    ensures
        r == instant_at(v@, k@),
{
    match str_field(v, k) {
        Some(t) => iso_ns(t),
        None => None,
    }
}

/// The candidate that a listed market makes.
pub fn candidate(v: &Json, now: i64, cfg: &KalshiCfg, mid_twice: i128) -> (r: Option<Candidate>)
    ensures
        match r {
            Some(c) => candidate_of(v@, now, *cfg, mid_twice) == Some(c@),
            None => candidate_of(v@, now, *cfg, mid_twice) is None,
        },
{
    let ticker = match str_field(v, "ticker") {
        Some(t) => t,
        None => {
            return None;
        },
    };
    let close_ns: i64 = match instant_field(v, "close_time") {
        Some(c) => c,
        None => {
            return None;
        },
    };
    let tte: i128 = close_ns as i128 - now as i128;
    if tte < cfg.min_tte_s as i128 * 1_000_000_000 || tte > cfg.max_tte_s as i128
        * 1_000_000_000 {
        return None;
    }
    let distance: i128 = match strike_of(ticker) {
        Some(k) => if 0 < mid_twice && mid_twice <= 0x1_0000_0000_0000_0000 {
            let d: i128 = 2 * k as i128 - mid_twice;
            if d < 0 {
                -d
            } else {
                d
            }
        } else {
            0
        },
        None => 0,
    };
    Some(
        Candidate {
            close_ns,
            distance,
            ticker: ticker.to_string(),
            title: match str_field(v, "title") {
                Some(x) => x.to_string(),
                None => ticker.to_string(),
            },
            open_ns: match instant_field(v, "open_time") {
                Some(x) => x,
                None => now,
            },
        },
    )
}

/// Whether `a` is ranked no later than `b`: by its end, then by its distance.
pub open spec fn ranked(a: CandidateV, b: CandidateV) -> bool {
    a.close_ns < b.close_ns || (a.close_ns == b.close_ns && a.distance <= b.distance)
}

/// `s` with `c` put in behind the last one that is ranked no later.
pub open spec fn placed(s: Seq<CandidateV>, c: CandidateV) -> Seq<CandidateV>
    decreases s.len(),
{
    if s.len() == 0 || ranked(s.last(), c) {
        s.push(c)
    } else {
        placed(s.drop_last(), c).push(s.last())
    }
}

/// `s` by rank; those of one rank stay in their order.
pub open spec fn by_rank(s: Seq<CandidateV>) -> Seq<CandidateV>
    decreases s.len(),
{
    if s.len() == 0 {
        Seq::empty()
    } else {
        placed(by_rank(s.drop_last()), s.last())
    }
}

fn place(v: &mut Vec<Candidate>, c: Candidate)
    ensures
        candidate_views(final(v)@) == placed(candidate_views(old(v)@), c@),
{
    let ghost s = candidate_views(v@);
    let mut i: usize = v.len();
    let ghost cv = c@;
    assert(s.take(i as int) =~= s);
    assert(s.skip(i as int) =~= Seq::<CandidateV>::empty());
    assert(placed(s, cv) =~= placed(s.take(i as int), cv) + s.skip(i as int));
    while i > 0 && !(v[i - 1].close_ns < c.close_ns || (v[i - 1].close_ns == c.close_ns
        && v[i - 1].distance <= c.distance))
        invariant
            s == candidate_views(v@),
            cv == c@,
            i <= v@.len(),
            placed(s, cv) == placed(s.take(i as int), cv) + s.skip(i as int),
        decreases i,
    {
        let ghost t = s.take(i as int);
        assert(t.last() == v@[i - 1]@);
        assert(t.drop_last() =~= s.take(i - 1));
        assert(placed(s.take(i - 1), cv).push(t.last()) + s.skip(i as int) =~= placed(
            s.take(i - 1),
            cv,
        ) + s.skip(i - 1));
        i = i - 1;
    }
    proof {
        let t = s.take(i as int);
        if i > 0 {
            assert(t.last() == v@[i - 1]@);
        }
        assert(placed(t, cv) == t.push(cv));
    }
    v.insert(i, c);
    assert(candidate_views(v@) =~= s.take(i as int).push(cv) + s.skip(i as int));
}

/// The candidates of a listing by rank: the nearest end first, and within it the nearest
/// to the money.
pub fn rank_candidates(list: &Vec<Json>, now: i64, cfg: &KalshiCfg, mid_twice: i128) -> (r: Vec<
    Candidate,
>)
    ensures
        candidate_views(r@) == by_rank(
            candidates_in(json::value_views(list@), now, *cfg, mid_twice),
        ),
{
    let ghost items = json::value_views(list@);
    let mut r: Vec<Candidate> = Vec::new();
    let mut i: usize = 0;
    assert(items.take(0) =~= Seq::<JsonV>::empty());
    assert(candidate_views(r@) =~= Seq::<CandidateV>::empty());
    while i < list.len()
        invariant
            items == json::value_views(list@),
            i <= list@.len(),
            candidate_views(r@) == by_rank(
                candidates_in(items.take(i as int), now, *cfg, mid_twice),
            ),
        decreases list@.len() - i,
    {
        let ghost before = candidates_in(items.take(i as int), now, *cfg, mid_twice);
        assert(items.take(i + 1).drop_last() =~= items.take(i as int));
        assert(items.take(i + 1).last() == items[i as int]);
        if let Some(c) = candidate(&list[i], now, cfg, mid_twice) {
            proof {
                let after = before.push(c@);
                assert(after.drop_last() =~= before);
                assert(by_rank(after) == placed(by_rank(before), c@));
            }
            place(&mut r, c);
        }
        i = i + 1;
    }
    assert(items.take(items.len() as int) =~= items);
    r
}

/// Whether a ticker is followed.
pub open spec fn is_known(s: Seq<MarketV>, ticker: Seq<char>) -> bool {
    exists|i: int| 0 <= i < s.len() && (#[trigger] s[i]).ticker == ticker
}

/// The market that a candidate becomes.
pub open spec fn market_from(c: CandidateV, now: i64) -> MarketV {
    MarketV {
        ticker: c.ticker,
        title: c.title,
        open_ns: c.open_ns,
        close_ns: c.close_ns,
        phase: phase::phase_at(now, c.open_ns, c.close_ns),
        instrument: "kalshi."@ + c.ticker + ".YES"@,
    }
}

/// Whether a candidate is taken up.
pub open spec fn is_taken(s: Seq<MarketV>, c: CandidateV, now: i64) -> bool {
    !is_known(s, c.ticker) && phase::phase_at(now, c.open_ns, c.close_ns) != Phase::Expired
}

/// The markets after these candidates, in turn: those that are new and not over are taken.
pub open spec fn admitted(s: Seq<MarketV>, cs: Seq<CandidateV>, now: i64) -> Seq<MarketV>
    decreases cs.len(),
{
    if cs.len() == 0 {
        s
    } else {
        let before = admitted(s, cs.drop_last(), now);
        if is_taken(before, cs.last(), now) {
            before.push(market_from(cs.last(), now))
        } else {
            before
        }
    }
}

/// Whether a catalog entry says what a market is.
pub open spec fn is_entry(e: MarketMeta, m: MarketV, kind: Seq<char>) -> bool {
    &&& e.instrument@ == m.instrument
    &&& e.kind@ == kind
    &&& e.status == phase::status_for(m.phase)
    &&& e.start_ts_ns == Some(m.open_ns)
    &&& e.expiry_ts_ns == Some(m.close_ns)
    &&& e.winner is None
    &&& e.min_order_size == Some(1_000_000i64)
    &&& e.tick_size == Some(10_000i64)
    &&& e.fee_rate is None
    &&& e.strike is None
}

/// Whether a run of catalog entries says what these markets are, in their order.
pub open spec fn are_entries(es: Seq<MarketMeta>, ms: Seq<MarketV>, kind: Seq<char>) -> bool {
    &&& es.len() == ms.len()
    &&& forall|i: int| 0 <= i < es.len() ==> is_entry(#[trigger] es[i], ms[i], kind)
}

/// The catalog entry of a market: whole contracts, in steps of a cent.
pub fn catalog_entry(m: &Market, kind: &str) -> (r: MarketMeta)
    ensures
        is_entry(r, m@, kind@),
{
    MarketMeta {
        instrument: m.instrument.clone(),
        kind: kind.to_string(),
        status: status_of(m.phase),
        start_ts_ns: Some(m.open_ns),
        expiry_ts_ns: Some(m.close_ns),
        winner: None,
        min_order_size: Some(1_000_000),
        tick_size: Some(10_000),
        fee_rate: None,
        strike: None,
    }
}

/// The markets that are followed.
pub struct Registry {
    markets: Vec<Market>,
}

/// What is wanted of the feed: each market that is not over, with its instrument, sorted
/// by ticker.
#[derive(Debug)]
pub struct Desired {
    pub ticker_inst: Vec<(String, String)>,
}

/// The phase of a market after one look at the clock.
pub open spec fn phase_in(m: MarketV, now: i64) -> Phase {
    phase::phase_after(m.phase, m.open_ns, m.close_ns, now)
}

/// The markets after one look at the clock.
pub open spec fn advanced(s: Seq<MarketV>, now: i64) -> Seq<MarketV> {
    Seq::new(s.len(), |i: int| MarketV { phase: phase_in(s[i], now), ..s[i] })
}

/// The markets that move on at this look, as they are after it.
pub open spec fn moved(s: Seq<MarketV>, now: i64) -> Seq<MarketV>
    decreases s.len(),
{
    if s.len() == 0 {
        Seq::empty()
    } else {
        let m = s.last();
        if phase_in(m, now) != m.phase {
            moved(s.drop_last(), now).push(MarketV { phase: phase_in(m, now), ..m })
        } else {
            moved(s.drop_last(), now)
        }
    }
}

/// The markets that are kept: those that are over go once the grace time has passed.
pub open spec fn retained(s: Seq<MarketV>, now: i64, grace_s: i64) -> Seq<MarketV>
    decreases s.len(),
{
    if s.len() == 0 {
        Seq::empty()
    } else {
        let m = s.last();
        if m.phase == Phase::Expired && now >= m.close_ns + grace_s * 1_000_000_000 {
            retained(s.drop_last(), now, grace_s)
        } else {
            retained(s.drop_last(), now, grace_s).push(m)
        }
    }
}

/// The views of a run of pairs.
pub open spec fn pair_views(s: Seq<(String, String)>) -> Seq<(Seq<char>, Seq<char>)> {
    Seq::new(s.len(), |i: int| (s[i].0@, s[i].1@))
}

/// `s` with a pair put in by its first part.
pub open spec fn put_by_ticker(s: Seq<(Seq<char>, Seq<char>)>, p: (Seq<char>, Seq<char>)) -> Seq<
    (Seq<char>, Seq<char>),
>
    decreases s.len(),
{
    if s.len() == 0 || !text::before(p.0, s.last().0) {
        s.push(p)
    } else {
        put_by_ticker(s.drop_last(), p).push(s.last())
    }
}

/// What is wanted of the feed for these markets.
pub open spec fn desired_of(s: Seq<MarketV>) -> Seq<(Seq<char>, Seq<char>)>
    decreases s.len(),
{
    if s.len() == 0 {
        Seq::empty()
    } else {
        let before = desired_of(s.drop_last());
        let m = s.last();
        if m.phase == Phase::Expired {
            before
        } else {
            put_by_ticker(before, (m.ticker, m.instrument))
        }
    }
}

fn put_sorted(v: &mut Vec<(String, String)>, t: String, inst: String)
    ensures
        pair_views(final(v)@) == put_by_ticker(pair_views(old(v)@), (t@, inst@)),
{
    let ghost s = pair_views(v@);
    let ghost p = (t@, inst@);
    let mut i: usize = v.len();
    assert(s.take(i as int) =~= s);
    assert(put_by_ticker(s, p) =~= put_by_ticker(s.take(i as int), p) + s.skip(i as int));
    while i > 0 && comes_before(t.as_str(), v[i - 1].0.as_str())
        invariant
            s == pair_views(v@),
            p == (t@, inst@),
            i <= v@.len(),
            put_by_ticker(s, p) == put_by_ticker(s.take(i as int), p) + s.skip(i as int),
        decreases i,
    {
        let ghost x = s.take(i as int);
        assert(x.last() == (v@[i - 1].0@, v@[i - 1].1@));
        assert(x.drop_last() =~= s.take(i - 1));
        assert(put_by_ticker(s.take(i - 1), p).push(x.last()) + s.skip(i as int)
            =~= put_by_ticker(s.take(i - 1), p) + s.skip(i - 1));
        i = i - 1;
    }
    proof {
        let x = s.take(i as int);
        if i > 0 {
            assert(x.last() == (v@[i - 1].0@, v@[i - 1].1@));
        }
        assert(put_by_ticker(x, p) == x.push(p));
    }
    v.insert(i, (t, inst));
    assert(pair_views(v@) =~= s.take(i as int).push(p) + s.skip(i as int));
}

impl View for Registry {
    type V = Seq<MarketV>;

    closed spec fn view(&self) -> Seq<MarketV> {
        market_views(self.markets@)
    }
}

impl Registry {
    /// No markets.
    pub fn new() -> (r: Registry)
        ensures
            r@ == Seq::<MarketV>::empty(),
    {
        let r = Registry { markets: Vec::new() };
        assert(r@ =~= Seq::<MarketV>::empty());
        r
    }

    fn knows(&self, ticker: &str) -> (r: bool)
        ensures
            r == is_known(self@, ticker@),
    {
        let mut i: usize = 0;
        while i < self.markets.len()
            invariant
                i <= self.markets@.len(),
                forall|j: int| 0 <= j < i ==> (#[trigger] self@[j]).ticker != ticker@,
            decreases self.markets@.len() - i,
        {
            assert(self@[i as int] == self.markets@[i as int]@);
            if same(self.markets[i].ticker.as_str(), ticker) {
                return true;
            }
            i = i + 1;
        }
        false
    }

    /// Takes up the first `n_windows` candidates of a listing, and says what is new.
    pub fn discover(&mut self, list: &Vec<Json>, now: i64, cfg: &KalshiCfg, mid_twice: i128) -> (r: Vec<
        MarketMeta,
    >)
        ensures
            ({
                let cs = by_rank(candidates_in(json::value_views(list@), now, *cfg, mid_twice));
                let n = fixed::smaller(cs.len() as int, cfg.n_windows as int);
                &&& final(self)@ == admitted(old(self)@, cs.take(n), now)
                &&& are_entries(r@, final(self)@.skip(old(self)@.len() as int), cfg.kind@)
            }),
    {
        let mut queue = rank_candidates(list, now, cfg, mid_twice);
        let ghost cs = candidate_views(queue@);
        let ghost all = queue@;
        let n: usize = if queue.len() < cfg.n_windows {
            queue.len()
        } else {
            cfg.n_windows
        };
        let ghost s0 = self@;
        let mut out: Vec<MarketMeta> = Vec::new();
        let mut i: usize = 0;
        assert(cs.take(n as int).take(0) =~= Seq::<CandidateV>::empty());
        assert(queue@ =~= all.skip(0));
        while i < n
            invariant
                n <= all.len(),
                cs == candidate_views(all),
                i <= n,
                queue@ == all.skip(i as int),
                self@ == admitted(s0, cs.take(n as int).take(i as int), now),
                s0.len() <= self@.len(),
                self@.take(s0.len() as int) == s0,
                are_entries(out@, self@.skip(s0.len() as int), cfg.kind@),
            decreases n - i,
        {
            let ghost before = self@;
            let ghost ct = cs.take(n as int);
            assert(ct.take(i + 1).drop_last() =~= ct.take(i as int));
            assert(ct.take(i + 1).last() == cs[i as int]);
            let c = queue.remove(0);
            assert(queue@ =~= all.skip(i + 1));
            assert(c@ == cs[i as int]);
            let phase = phase_of(now, c.open_ns, c.close_ns);
            if !self.knows(c.ticker.as_str()) && phase != Phase::Expired {
                let a = joined("kalshi.", c.ticker.as_str());
                let m = Market {
                    instrument: joined(a.as_str(), ".YES"),
                    ticker: c.ticker,
                    title: c.title,
                    open_ns: c.open_ns,
                    close_ns: c.close_ns,
                    phase,
                };
                let e = catalog_entry(&m, cfg.kind.as_str());
                let ghost mv = m@;
                let ghost o0 = out@;
                self.markets.push(m);
                out.push(e);
                assert(self@ =~= before.push(mv));
                assert(self@.take(s0.len() as int) =~= s0);
                assert(self@.skip(s0.len() as int) =~= before.skip(s0.len() as int).push(mv));
                assert forall|j: int| 0 <= j < out@.len() implies is_entry(
                    #[trigger] out@[j],
                    self@.skip(s0.len() as int)[j],
                    cfg.kind@,
                ) by {
                    if j < o0.len() {
                        assert(out@[j] == o0[j]);
                    }
                }
            }
            i = i + 1;
        }
        assert(cs.take(n as int).take(n as int) =~= cs.take(n as int));
        out
    }

    /// Moves every market on by the clock, and drops those that have been over for long;
    /// says which moved.
    pub fn tick(&mut self, now: i64, cfg: &KalshiCfg) -> (r: Vec<MarketMeta>)
        ensures
            final(self)@ == retained(advanced(old(self)@, now), now, cfg.unsub_grace_s),
            are_entries(r@, moved(old(self)@, now), cfg.kind@),
    {
        let ghost s0 = self@;
        let mut queue: Vec<Market> = Vec::new();
        std::mem::swap(&mut queue, &mut self.markets);
        let ghost all = queue@;
        let n: usize = queue.len();
        let mut keep: Vec<Market> = Vec::new();
        let mut out: Vec<MarketMeta> = Vec::new();
        let grace: i128 = cfg.unsub_grace_s as i128 * 1_000_000_000;
        let mut i: usize = 0;
        let ghost adv = advanced(s0, now);
        assert(queue@ =~= all.skip(0));
        assert(s0.take(0) =~= Seq::<MarketV>::empty());
        assert(adv.take(0) =~= Seq::<MarketV>::empty());
        assert(market_views(keep@) =~= Seq::<MarketV>::empty());
        while i < n
            invariant
                n == all.len(),
                s0 == market_views(all),
                adv == advanced(s0, now),
                i <= n,
                queue@ == all.skip(i as int),
                grace == cfg.unsub_grace_s * 1_000_000_000,
                market_views(keep@) == retained(adv.take(i as int), now, cfg.unsub_grace_s),
                are_entries(out@, moved(s0.take(i as int), now), cfg.kind@),
            decreases n - i,
        {
            assert(s0.take(i + 1).drop_last() =~= s0.take(i as int));
            assert(s0.take(i + 1).last() == s0[i as int]);
            assert(adv.take(i + 1).drop_last() =~= adv.take(i as int));
            assert(adv.take(i + 1).last() == adv[i as int]);
            let mut m = queue.remove(0);
            assert(queue@ =~= all.skip(i + 1));
            assert(m@ == s0[i as int]);
            let ghost m0 = m@;
            let to = next_phase(m.phase, m.open_ns, m.close_ns, now);
            let turn: bool = to != m.phase;
            m.phase = to;
            assert(m@ == adv[i as int]);
            if turn {
                let ghost o0 = out@;
                let e = catalog_entry(&m, cfg.kind.as_str());
                out.push(e);
                assert forall|j: int| 0 <= j < out@.len() implies is_entry(
                    #[trigger] out@[j],
                    moved(s0.take(i + 1), now)[j],
                    cfg.kind@,
                ) by {
                    if j < o0.len() {
                        assert(out@[j] == o0[j]);
                    }
                }
            }
            if !(m.phase == Phase::Expired && now as i128 >= m.close_ns as i128 + grace) {
                let ghost k0 = keep@;
                keep.push(m);
                assert(market_views(keep@) =~= market_views(k0).push(m@));
            }
            i = i + 1;
        }
        assert(s0.take(s0.len() as int) =~= s0);
        assert(adv.take(adv.len() as int) =~= adv);
        self.markets = keep;
        out
    }

    /// What is wanted of the feed.
    pub fn desired(&self) -> (r: Desired)
        ensures
            pair_views(r.ticker_inst@) == desired_of(self@),
    {
        let mut v: Vec<(String, String)> = Vec::new();
        let mut i: usize = 0;
        assert(self@.take(0) =~= Seq::<MarketV>::empty());
        assert(pair_views(v@) =~= Seq::<(Seq<char>, Seq<char>)>::empty());
        while i < self.markets.len()
            invariant
                i <= self.markets@.len(),
                pair_views(v@) == desired_of(self@.take(i as int)),
            decreases self.markets@.len() - i,
        {
            assert(self@.take(i + 1).drop_last() =~= self@.take(i as int));
            assert(self@.take(i + 1).last() == self.markets@[i as int]@);
            let m = &self.markets[i];
            if m.phase != Phase::Expired {
                put_sorted(&mut v, m.ticker.clone(), m.instrument.clone());
            }
            i = i + 1;
        }
        assert(self@.take(self@.len() as int) =~= self@);
        Desired { ticker_inst: v }
    }
}

/// The request that subscribes to the books of these markets.
pub open spec fn subscribe_body(tickers: Seq<Seq<char>>) -> JsonV {
    JsonV::Obj(
        seq![
            ("id"@, JsonV::Num("1"@)),
            ("cmd"@, JsonV::Str("subscribe"@)),
            (
                "params"@,
                JsonV::Obj(
                    seq![
                        ("channels"@, JsonV::Arr(seq![JsonV::Str("orderbook_delta"@)])),
                        ("market_tickers"@, JsonV::Arr(json::text_values(tickers))),
                    ],
                ),
            ),
        ],
    )
}

/// The tickers of what is wanted.
pub open spec fn tickers_of(s: Seq<(String, String)>) -> Seq<Seq<char>> {
    Seq::new(s.len(), |i: int| s[i].0@)
}

/// The request that subscribes to the books of what is wanted.
pub fn subscribe_request(d: &Desired) -> (r: Json)
    ensures
        r@ == subscribe_body(tickers_of(d.ticker_inst@)),
{
    let ghost ts = tickers_of(d.ticker_inst@);
    let mut tickers: Vec<Json> = Vec::new();
    let mut i: usize = 0;
    assert(json::value_views(tickers@) =~= json::text_values(ts).take(0));
    while i < d.ticker_inst.len()
        invariant
            ts == tickers_of(d.ticker_inst@),
            i <= d.ticker_inst@.len(),
            json::value_views(tickers@) == json::text_values(ts).take(i as int),
        decreases d.ticker_inst@.len() - i,
    {
        let ghost t0 = tickers@;
        tickers.push(json::string(d.ticker_inst[i].0.as_str()));
        assert(json::value_views(tickers@) =~= json::value_views(t0).push(JsonV::Str(ts[i as int])));
        assert(json::text_values(ts).take(i + 1) =~= json::text_values(ts).take(i as int).push(
            JsonV::Str(ts[i as int]),
        ));
        i = i + 1;
    }
    assert(json::text_values(ts).take(ts.len() as int) =~= json::text_values(ts));
    let mut ch: Vec<Json> = Vec::new();
    ch.push(json::string("orderbook_delta"));
    assert(json::value_views(ch@) =~= seq![JsonV::Str("orderbook_delta"@)]);
    let mut p: Vec<(String, Json)> = Vec::new();
    p.push(json::pair("channels", json::array(ch)));
    p.push(json::pair("market_tickers", json::array(tickers)));
    assert(json::field_views(p@) =~= seq![
        ("channels"@, JsonV::Arr(seq![JsonV::Str("orderbook_delta"@)])),
        ("market_tickers"@, JsonV::Arr(json::text_values(ts))),
    ]);
    let mut f: Vec<(String, Json)> = Vec::new();
    f.push(json::pair("id", Json::Num("1".to_string())));
    f.push(json::text_pair("cmd", "subscribe"));
    f.push(json::pair("params", json::object(p)));
    assert(json::field_views(f@) =~= subscribe_body(ts)->Obj_0);
    json::object(f)
}

/// The price of a trade in terms of yes: in dollars or cents, or from the no side.
pub open spec fn trade_price(t: JsonV) -> Option<i64> {
    match json::amount_at(t.field("yes_price_dollars"@)) {
        Some(p) => Some(p),
        None => match json::amount_at(t.field("yes_price"@)) {
            Some(c) => Some(kalshi::dollars(c, true)),
            None => match json::amount_at(t.field("no_price_dollars"@)) {
                Some(p) => Some(fixed::clamp64(1_000_000 - p) as i64),
                None => match json::amount_at(t.field("no_price"@)) {
                    Some(c) => Some(fixed::clamp64(1_000_000 - kalshi::dollars(c, true)) as i64),
                    None => None,
                },
            },
        },
    }
}

/// The price, the size and the side of a trade.
pub open spec fn trade_of(t: JsonV) -> Option<(i64, i64, Side)> {
    match (kalshi::either_amount(t, "count_fp"@, "count"@), trade_price(t)) {
        (Some(q), Some(p)) => Some(
            (
                p,
                q,
                if json::text_at(t.field("taker_outcome_side"@)) == Some("no"@) {
                    Side::Sell
                } else {
                    Side::Buy
                },
            ),
        ),
        _ => None,
    }
}

fn cents(c: i64) -> (r: i64)
    ensures
        r == kalshi::dollars(c, true),
{
    fixed::div_floor(c as i128, 100) as i64
}

/// Reads one trade of the tape.
pub fn parse_trade(t: &Json, inst: &str, exch_ns: i64, recv_ns: i64) -> (r: Option<TradeTick>)
    ensures
        match r {
            Some(x) => {
                &&& trade_of(t@) == Some((x.price, x.qty, x.side))
                &&& x.instrument@ == inst@
                &&& x.exch_ts_ns == exch_ns
                &&& x.recv_ts_ns == recv_ns
            },
            None => trade_of(t@) is None,
        },
{
    let qty: i64 = match amount_field(t, "count_fp") {
        Some(x) => x,
        None => match amount_field(t, "count") {
            Some(x) => x,
            None => {
                return None;
            },
        },
    };
    let price: i64 = if let Some(p) = amount_field(t, "yes_price_dollars") {
        p
    } else if let Some(c) = amount_field(t, "yes_price") {
        cents(c)
    } else if let Some(p) = amount_field(t, "no_price_dollars") {
        sat(1_000_000 - p as i128)
    } else if let Some(c) = amount_field(t, "no_price") {
        sat(1_000_000 - cents(c) as i128)
    } else {
        return None;
    };
    let side = match str_field(t, "taker_outcome_side") {
        Some(s) => if same(s, "no") {
            Side::Sell
        } else {
            Side::Buy
        },
        None => Side::Buy,
    };
    Some(
        TradeTick {
            instrument: inst.to_string(),
            price,
            qty,
            side,
            exch_ts_ns: exch_ns,
            recv_ts_ns: recv_ns,
        },
    )
}

/// The instant of a trade; ours where it gives none.
pub open spec fn trade_instant(t: JsonV, recv: i64) -> i64 {
    match instant_at(t, "created_time"@) {
        Some(x) => x,
        None => recv,
    }
}

/// What is published of a trade: its instant, price, size and side.
pub open spec fn tape_entry(t: JsonV, recv: i64) -> Option<(i64, i64, i64, Side)> {
    match trade_of(t) {
        Some((p, q, s)) => Some((trade_instant(t, recv), p, q, s)),
        None => None,
    }
}

/// The trades of a poll that are newer than the last one published.
pub open spec fn fresh_trades(items: Seq<JsonV>, mark: i64, recv: i64) -> Seq<
    (i64, i64, i64, Side),
>
    decreases items.len(),
{
    if items.len() == 0 {
        Seq::empty()
    } else {
        let before = fresh_trades(items.drop_last(), mark, recv);
        match tape_entry(items.last(), recv) {
            Some(e) => if e.0 > mark {
                before.push(e)
            } else {
                before
            },
            None => before,
        }
    }
}

/// The latest instant of a run of trades, and of `mark`.
pub open spec fn latest(s: Seq<(i64, i64, i64, Side)>, mark: i64) -> i64
    decreases s.len(),
{
    if s.len() == 0 {
        mark
    } else {
        fixed::larger(latest(s.drop_last(), mark) as int, s.last().0 as int) as i64
    }
}

/// What a run of trades holds.
pub open spec fn tick_views(s: Seq<TradeTick>) -> Seq<(i64, i64, i64, Side)> {
    Seq::new(s.len(), |i: int| (s[i].exch_ts_ns, s[i].price, s[i].qty, s[i].side))
}

/// Takes a poll of the tape: the trades that are newer than `mark`, and the new mark.
pub fn take_trades(items: &Vec<Json>, inst: &str, mark: i64, recv: i64) -> (r: (Vec<TradeTick>, i64))
    ensures
        ({
            let f = fresh_trades(json::value_views(items@), mark, recv);
            tick_views(r.0@) == f && r.1 == latest(f, mark)
        }),
        forall|i: int|
            0 <= i < r.0@.len() ==> (#[trigger] r.0@[i]).instrument@ == inst@
                && r.0@[i].recv_ts_ns == recv,
{
    let ghost all = json::value_views(items@);
    let mut out: Vec<TradeTick> = Vec::new();
    let mut top: i64 = mark;
    let mut i: usize = 0;
    assert(all.take(0) =~= Seq::<JsonV>::empty());
    assert(tick_views(out@) =~= Seq::<(i64, i64, i64, Side)>::empty());
    while i < items.len()
        invariant
            all == json::value_views(items@),
            i <= items@.len(),
            tick_views(out@) == fresh_trades(all.take(i as int), mark, recv),
            top == latest(tick_views(out@), mark),
            forall|j: int|
                0 <= j < out@.len() ==> (#[trigger] out@[j]).instrument@ == inst@
                    && out@[j].recv_ts_ns == recv,
        decreases items@.len() - i,
    {
        assert(all.take(i + 1).drop_last() =~= all.take(i as int));
        assert(all.take(i + 1).last() == items@[i as int]@);
        let ts: i64 = match instant_field(&items[i], "created_time") {
            Some(x) => x,
            None => recv,
        };
        if ts > mark {
            if let Some(t) = parse_trade(&items[i], inst, ts, recv) {
                let ghost o0 = out@;
                let ghost e = (t.exch_ts_ns, t.price, t.qty, t.side);
                out.push(t);
                top = max64(top, ts);
                proof {
                    assert(tick_views(out@) =~= tick_views(o0).push(e));
                    assert(tick_views(out@).drop_last() =~= tick_views(o0));
                }
            }
        }
        i = i + 1;
    }
    assert(all.take(all.len() as int) =~= all);
    (out, top)
}

/// From which second on trades are asked for: that of the last one published.
pub fn trades_since(mark: i64) -> (r: Option<i64>)
    ensures
        r == if mark > 0 {
            Some((mark as int / 1_000_000_000) as i64)
        } else {
            None
        },
{
    if mark > 0 {
        Some(mark / 1_000_000_000)
    } else {
        None
    }
}

/// The markets on a page of a listing.
pub open spec fn page_markets(page: JsonV) -> Seq<JsonV> {
    match page.field("markets"@) {
        Some(JsonV::Arr(a)) => a,
        _ => Seq::empty(),
    }
}

/// Where the page after this one starts, if there is one.
pub open spec fn next_page(page: JsonV) -> Option<Seq<char>> {
    match json::text_at(page.field("cursor"@)) {
        Some(c) => if c.len() > 0 {
            Some(c)
        } else {
            None
        },
        None => None,
    }
}

/// Where a listing is read on after its first `pages` pages, of which the last gave this
/// cursor: six pages are read at most.
pub fn list_step(pages: u32, cursor: Option<String>) -> (r: Option<String>)
    ensures
        r == if pages < 6 {
            cursor
        } else {
            None
        },
{
    if pages < 6 {
        cursor
    } else {
        None
    }
}

/// Takes a page of a listing in; gives where the next one starts, if there is one.
pub fn take_page(out: &mut Vec<Json>, page: Json) -> (r: Option<String>)
    ensures
        json::value_views(final(out)@) == json::value_views(old(out)@) + page_markets(page@),
        match r {
            Some(c) => next_page(page@) == Some(c@),
            None => next_page(page@) is None,
        },
{
    let ghost v = page@;
    let ghost o0 = out@;
    let next: Option<String> = match str_field(&page, "cursor") {
        Some(c) => if same(c, "") {
            assert(c@.len() == 0) by {
                reveal_strlit("");
            }
            None
        } else {
            assert(c@.len() > 0) by {
                reveal_strlit("");
                if c@.len() == 0 {
                    assert(c@ =~= ""@);
                }
            }
            Some(c.to_string())
        },
        None => None,
    };
    if let Json::Obj(fields) = page {
        let mut fields = fields;
        let ghost fs = json::field_views(fields@);
        assert(v->Obj_0 =~= fs);
        let n: usize = fields.len();
        let mut i: usize = 0;
        assert(fs.skip(0) =~= fs);
        while i < n && !same(fields[i].0.as_str(), "markets")
            invariant
                n == fields@.len(),
                fs == json::field_views(fields@),
                i <= n,
                json::find(fs, "markets"@) == json::find(fs.skip(i as int), "markets"@),
            decreases n - i,
        {
            assert(fs.skip(i as int)[0] == fs[i as int]);
            assert(fs.skip(i as int).skip(1) =~= fs.skip(i + 1));
            i = i + 1;
        }
        if i < n {
            assert(fs.skip(i as int)[0] == fs[i as int]);
            let (_, m) = fields.swap_remove(i);
            assert(v.field("markets"@) == Some(m@));
            if let Json::Arr(a) = m {
                let mut a = a;
                assert(m@->Arr_0 =~= json::value_views(a@));
                let ghost av = a@;
                out.append(&mut a);
                assert(json::value_views(out@) =~= json::value_views(o0) + json::value_views(av));
            }
        }
    }
    assert(json::value_views(out@) =~= json::value_views(o0) + page_markets(v));
    next
}

/// The sum of the best quotes in a book of the instrument that marks the money.
pub fn money_mid(b: &BookUpdate, inst: &str) -> (r: Option<i128>)
    ensures
        r == (if b.instrument@ == inst@ && b.bids@.len() > 0 && b.asks@.len() > 0 {
            Some((b.bids@[0].0 + b.asks@[0].0) as i128)
        } else {
            None
        }),
{
    if same(b.instrument.as_str(), inst) && b.bids.len() > 0 && b.asks.len() > 0 {
        Some(b.bids[0].0 as i128 + b.asks[0].0 as i128)
    } else {
        None
    }
}

/// The event that tells of a market.
pub fn catalog_event(meta: MarketMeta, now: i64, seq: &mut u64) -> (r: Event)
    ensures
        r.topic@ == "market.kalshi.catalog"@,
        r.source@ == "kalshi"@,
        r.ts_ns == now,
        r.seq == *old(seq),
        *final(seq) == net::counted(*old(seq), 1),
        r.payload == Payload::Meta(meta),
{
    Event {
        topic: "market.kalshi.catalog".to_string(),
        source: "kalshi",
        ts_ns: now,
        seq: nxt(seq),
        payload: Payload::Meta(meta),
    }
}

/// Whether an event tells of a trade of a market.
pub open spec fn tells_trade(e: Event, ticker: Seq<char>, recv: i64, t: TradeTick) -> bool {
    &&& e.topic@ == "market.kalshi."@ + ticker + ".trade"@
    &&& e.source@ == "kalshi"@
    &&& e.ts_ns == recv
    &&& match e.payload {
        Payload::Trade(x) => {
            &&& x.instrument@ == t.instrument@
            &&& x.price == t.price
            &&& x.qty == t.qty
            &&& x.side == t.side
            &&& x.exch_ts_ns == t.exch_ts_ns
            &&& x.recv_ts_ns == t.recv_ts_ns
        },
        _ => false,
    }
}

/// The events that tell of trades of a market.
pub fn trade_events(ticks: &Vec<TradeTick>, ticker: &str, recv: i64, seq: &mut u64) -> (r: Vec<
    Event,
>)
    ensures
        r@.len() == ticks@.len(),
        forall|i: int|
            0 <= i < r@.len() ==> tells_trade(#[trigger] r@[i], ticker@, recv, ticks@[i]),
        net::counted_up(r@, *old(seq), *final(seq)),
{
    let ghost s0 = *seq;
    let a = joined("market.kalshi.", ticker);
    let topic = joined(a.as_str(), ".trade");
    let mut r: Vec<Event> = Vec::new();
    let mut i: usize = 0;
    while i < ticks.len()
        invariant
            topic@ == "market.kalshi."@ + ticker@ + ".trade"@,
            i <= ticks@.len(),
            r@.len() == i,
            forall|j: int|
                0 <= j < i ==> tells_trade(#[trigger] r@[j], ticker@, recv, ticks@[j]),
            net::counted_up(r@, s0, *seq),
        decreases ticks@.len() - i,
    {
        let t = &ticks[i];
        let e = Event {
            topic: topic.clone(),
            source: "kalshi",
            ts_ns: recv,
            seq: nxt(seq),
            payload: Payload::Trade(
                TradeTick {
                    instrument: t.instrument.clone(),
                    price: t.price,
                    qty: t.qty,
                    side: t.side,
                    exch_ts_ns: t.exch_ts_ns,
                    recv_ts_ns: t.recv_ts_ns,
                },
            ),
        };
        r.push(e);
        i = i + 1;
    }
    r
}

/// Each page's address of a series' listing.
pub fn markets_url(rest_base: &str, series: &str, cursor: Option<&str>) -> (r: String)
    ensures
        r@ == rest_base@ + "/markets?series_ticker="@ + series@ + "&status=open&limit=1000"@ + (
        match cursor {
            Some(c) => "&cursor="@ + c@,
            None => Seq::empty(),
        }),
{
    let a = joined(rest_base, "/markets?series_ticker=");
    let b = joined(a.as_str(), series);
    let mut r = joined(b.as_str(), "&status=open&limit=1000");
    if let Some(c) = cursor {
        r.append("&cursor=");
        r.append(c);
    }
    assert(r@ =~= rest_base@ + "/markets?series_ticker="@ + series@ + "&status=open&limit=1000"@ + (
    match cursor {
        Some(c) => "&cursor="@ + c@,
        None => Seq::empty(),
    }));
    r
}

/// The address of a market's tape.
pub fn trades_url(rest_base: &str, ticker: &str, since_s: Option<i64>) -> (r: String)
    ensures
        r@ == rest_base@ + "/markets/trades?ticker="@ + ticker@ + "&limit=100"@ + (match since_s {
            Some(t) => "&min_ts="@ + numeral::int_text(t as int),
            None => Seq::empty(),
        }),
{
    let a = joined(rest_base, "/markets/trades?ticker=");
    let b = joined(a.as_str(), ticker);
    let mut r = joined(b.as_str(), "&limit=100");
    if let Some(t) = since_s {
        r.append("&min_ts=");
        r.append(i64_text(t).as_str());
    }
    assert(r@ =~= rest_base@ + "/markets/trades?ticker="@ + ticker@ + "&limit=100"@ + (
    match since_s {
        Some(t) => "&min_ts="@ + numeral::int_text(t as int),
        None => Seq::empty(),
    }));
    r
}

/// Ranking keeps every candidate, and puts them in order.
pub proof fn law_ranking_sorts(s: Seq<CandidateV>)
    ensures
        by_rank(s).to_multiset() == s.to_multiset(),
        forall|i: int, j: int|
            0 <= i <= j < by_rank(s).len() ==> ranked(#[trigger] by_rank(s)[i], #[trigger] by_rank(s)[j]),
    decreases s.len(),
{
    broadcast use vstd::seq_lib::group_to_multiset_ensures;

    if s.len() > 0 {
        law_ranking_sorts(s.drop_last());
        lemma_placed(by_rank(s.drop_last()), s.last());
        assert(s =~= s.drop_last().push(s.last()));
    } else {
        assert(by_rank(s) =~= s);
    }
}

proof fn lemma_placed(s: Seq<CandidateV>, c: CandidateV)
    requires
        forall|i: int, j: int| 0 <= i <= j < s.len() ==> ranked(#[trigger] s[i], #[trigger] s[j]),
    ensures
        placed(s, c).to_multiset() == s.to_multiset().insert(c),
        placed(s, c).len() == s.len() + 1,
        forall|i: int, j: int|
            0 <= i <= j < placed(s, c).len() ==> ranked(
                #[trigger] placed(s, c)[i],
                #[trigger] placed(s, c)[j],
            ),
        forall|i: int|
            0 <= i < placed(s, c).len() ==> (#[trigger] placed(s, c)[i] == c || s.contains(
                placed(s, c)[i],
            )),
    decreases s.len(),
{
    broadcast use vstd::seq_lib::group_to_multiset_ensures;

    let t = placed(s, c);
    if s.len() == 0 || ranked(s.last(), c) {
        assert forall|i: int, j: int| 0 <= i <= j < t.len() implies ranked(
            #[trigger] t[i],
            #[trigger] t[j],
        ) by {
            if j == s.len() && i < s.len() {
                assert(ranked(s[i], s[s.len() - 1]));
            }
        }
        assert forall|i: int| 0 <= i < t.len() implies (#[trigger] t[i] == c || s.contains(
            t[i],
        )) by {
            if i < s.len() {
                assert(s[i] == t[i]);
            }
        }
    } else {
        let h = s.drop_last();
        lemma_placed(h, c);
        let p = placed(h, c);
        assert(s =~= h.push(s.last()));
        assert forall|i: int, j: int| 0 <= i <= j < t.len() implies ranked(
            #[trigger] t[i],
            #[trigger] t[j],
        ) by {
            if j == p.len() && i < p.len() {
                assert(p[i] == c || h.contains(p[i]));
                if p[i] != c {
                    let k = choose|k: int| 0 <= k < h.len() && h[k] == p[i];
                    assert(ranked(s[k], s[s.len() - 1]));
                }
            } else if j < p.len() {
                assert(t[i] == p[i] && t[j] == p[j]);
            }
        }
        assert forall|i: int| 0 <= i < t.len() implies (#[trigger] t[i] == c || s.contains(
            t[i],
        )) by {
            if i < p.len() {
                assert(t[i] == p[i]);
                if p[i] != c {
                    let k = choose|k: int| 0 <= k < h.len() && h[k] == p[i];
                    assert(s[k] == t[i]);
                }
            } else {
                assert(s[s.len() - 1] == t[i]);
            }
        }
    }
}

/// The mark of the tape never goes back, and no trade at or before it is published again.
pub proof fn law_trades_are_published_once(items: Seq<JsonV>, mark: i64, recv: i64)
    ensures
        latest(fresh_trades(items, mark, recv), mark) >= mark,
        forall|i: int|
            0 <= i < fresh_trades(items, mark, recv).len() ==> mark < (
            #[trigger] fresh_trades(items, mark, recv)[i]).0 <= latest(
                fresh_trades(items, mark, recv),
                mark,
            ),
    decreases items.len(),
{
    if items.len() > 0 {
        law_trades_are_published_once(items.drop_last(), mark, recv);
        let b = fresh_trades(items.drop_last(), mark, recv);
        let f = fresh_trades(items, mark, recv);
        match tape_entry(items.last(), recv) {
            Some(e) => {
                if e.0 > mark {
                    assert(f.drop_last() =~= b);
                    assert forall|i: int| 0 <= i < f.len() implies mark < (#[trigger] f[i]).0
                        <= latest(f, mark) by {
                        if i < b.len() {
                            assert(f[i] == b[i]);
                        }
                    }
                }
            },
            None => {},
        }
    }
}

/// A listed market is a candidate exactly where it has a ticker and an end that is neither too
/// near nor too far off; the nearer end ranks first, and of one end the strike that is nearer
/// to the money.
pub proof fn law_candidates_end_in_time(
    v: JsonV,
    now: i64,
    cfg: KalshiCfg,
    mid_twice: i128,
    a: CandidateV,
    b: CandidateV,
)
    ensures
        candidate_of(v, now, cfg, mid_twice) is Some <==> json::text_at(v.field("ticker"@)) is Some
            && instant_at(v, "close_time"@) is Some && instant_at(v, "close_time"@)->0 - now
            >= cfg.min_tte_s * 1_000_000_000 && instant_at(v, "close_time"@)->0 - now
            <= cfg.max_tte_s * 1_000_000_000,
        candidate_of(v, now, cfg, mid_twice) matches Some(c) ==> {
            &&& json::text_at(v.field("ticker"@)) == Some(c.ticker)
            &&& instant_at(v, "close_time"@) == Some(c.close_ns)
            &&& instant_at(v, "open_time"@) matches Some(x) ==> c.open_ns == x
            &&& strike_in(c.ticker) matches Some(k) ==> (0 < mid_twice <= 0x1_0000_0000_0000_0000
                ==> (2 * k >= mid_twice ==> c.distance == 2 * k - mid_twice) && (2 * k < mid_twice
                ==> c.distance == mid_twice - 2 * k))
        },
        a.close_ns < b.close_ns ==> ranked(a, b) && !ranked(b, a),
        a.close_ns == b.close_ns && a.distance < b.distance ==> ranked(a, b) && !ranked(b, a),
{
}

/// A candidate is taken up where it is not followed and not over yet, under the name of its
/// yes side; a market that is over is let go once its grace is up.
pub proof fn law_markets_are_taken_up_and_let_go(
    s: Seq<MarketV>,
    cs: Seq<CandidateV>,
    c: CandidateV,
    m: MarketV,
    now: i64,
    grace_s: i64,
)
    ensures
        ({
            let before = admitted(s, cs, now);
            let takes = !is_known(before, c.ticker) && (now < c.open_ns || now < c.close_ns);
            &&& takes ==> admitted(s, cs.push(c), now) == before.push(market_from(c, now))
            &&& !takes ==> admitted(s, cs.push(c), now) == before
        }),
        market_from(c, now).ticker == c.ticker,
        market_from(c, now).open_ns == c.open_ns,
        market_from(c, now).close_ns == c.close_ns,
        market_from(c, now).instrument == "kalshi."@ + c.ticker + ".YES"@,
        m.phase == Phase::Expired && now - m.close_ns >= grace_s * 1_000_000_000 ==> retained(
            s.push(m),
            now,
            grace_s,
        ) == retained(s, now, grace_s),
        m.phase != Phase::Expired || now - m.close_ns < grace_s * 1_000_000_000 ==> retained(
            s.push(m),
            now,
            grace_s,
        ) == retained(s, now, grace_s).push(m),
{
    assert(cs.push(c).drop_last() =~= cs);
    assert(s.push(m).drop_last() =~= s);
}

/// A trade is told in terms of yes: a no price counts as one less it. One that took the no
/// side is a sale, any other a purchase.
pub proof fn law_trades_are_in_terms_of_yes(t: JsonV)
    ensures
        trade_of(t) matches Some(x) ==> {
            &&& json::amount_at(t.field("yes_price_dollars"@)) matches Some(p) ==> x.0 == p
            &&& json::amount_at(t.field("yes_price_dollars"@)) is None && json::amount_at(
                t.field("yes_price"@),
            ) is None ==> (json::amount_at(t.field("no_price_dollars"@)) matches Some(p) ==> (p
                >= 0 ==> x.0 == 1_000_000 - p))
            &&& kalshi::either_amount(t, "count_fp"@, "count"@) == Some(x.1)
            &&& json::text_at(t.field("taker_outcome_side"@)) == Some("no"@) <==> x.2 == Side::Sell
            &&& json::text_at(t.field("taker_outcome_side"@)) != Some("no"@) <==> x.2 == Side::Buy
        },
        trade_of(t) is Some <==> kalshi::either_amount(t, "count_fp"@, "count"@) is Some
            && trade_price(t) is Some,
{
}

/// A trade is published exactly where it is later than the last one published.
pub proof fn law_only_later_trades_are_fresh(items: Seq<JsonV>, t: JsonV, mark: i64, recv: i64)
    ensures
        tape_entry(t, recv) matches Some(e) ==> (e.0 > mark ==> fresh_trades(
            items.push(t),
            mark,
            recv,
        ) == fresh_trades(items, mark, recv).push(e)) && (e.0 <= mark ==> fresh_trades(
            items.push(t),
            mark,
            recv,
        ) == fresh_trades(items, mark, recv)),
        tape_entry(t, recv) is None ==> fresh_trades(items.push(t), mark, recv) == fresh_trades(
            items,
            mark,
            recv,
        ),
{
    assert(items.push(t).drop_last() =~= items);
}

/// What the catalog says of a market: its times, its status by its phase, a contract as the
/// least and a cent as the tick.
pub proof fn law_entries_say_what_a_market_is(e: MarketMeta, m: MarketV, kind: Seq<char>)
    requires
        is_entry(e, m, kind),
    ensures
        e.instrument@ == m.instrument,
        e.kind@ == kind,
        e.start_ts_ns == Some(m.open_ns),
        e.expiry_ts_ns == Some(m.close_ns),
        m.phase == Phase::Live <==> e.status == crate::model::MarketStatus::Live,
        m.phase == Phase::Upcoming <==> e.status == crate::model::MarketStatus::Upcoming,
        m.phase == Phase::Expired <==> e.status == crate::model::MarketStatus::Expired,
        e.min_order_size == Some(1_000_000i64),
        e.tick_size == Some(10_000i64),
        e.winner is None && e.strike is None && e.fee_rate is None,
{
}

/// The feed is asked for every market that is not over, and a listing is read page by page
/// until one has no cursor.
pub proof fn law_what_is_wanted_of_the_feed(
    s: Seq<MarketV>,
    m: MarketV,
    items: Seq<JsonV>,
    v: JsonV,
    now: i64,
    cfg: KalshiCfg,
    mid_twice: i128,
    page: JsonV,
)
    ensures
        m.phase == Phase::Expired ==> desired_of(s.push(m)) == desired_of(s),
        m.phase != Phase::Expired ==> desired_of(s.push(m)) == put_by_ticker(
            desired_of(s),
            (m.ticker, m.instrument),
        ),
        candidate_of(v, now, cfg, mid_twice) matches Some(c) ==> candidates_in(
            items.push(v),
            now,
            cfg,
            mid_twice,
        ) == candidates_in(items, now, cfg, mid_twice).push(c),
        candidate_of(v, now, cfg, mid_twice) is None ==> candidates_in(
            items.push(v),
            now,
            cfg,
            mid_twice,
        ) == candidates_in(items, now, cfg, mid_twice),
        next_page(page) matches Some(c) ==> c.len() > 0 && json::text_at(page.field("cursor"@))
            == Some(c),
        json::text_at(page.field("cursor"@)) is None ==> next_page(page) is None,
        json::text_at(page.field("cursor"@)) matches Some(c) ==> (c.len() > 0 ==> next_page(page)
            == Some(c)),
{
    assert(s.push(m).drop_last() =~= s);
    assert(items.push(v).drop_last() =~= items);
}

/// What is published of a trade: its price, its size, its side and its times.
pub proof fn law_trades_are_told_as_they_are(e: Event, ticker: Seq<char>, recv: i64, t: TradeTick)
    requires
        tells_trade(e, ticker, recv, t),
    ensures
        e.topic@ == "market.kalshi."@ + ticker + ".trade"@,
        e.ts_ns == recv,
        e.payload matches Payload::Trade(x) && x.price == t.price && x.qty == t.qty && x.side
            == t.side && x.exch_ts_ns == t.exch_ts_ns && x.instrument@ == t.instrument@,
{
}

} // verus!
