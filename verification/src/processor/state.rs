//! What is known of every instrument, and which market stands for the reference.
use vstd::prelude::*;
use crate::event::{Event, Payload};
use crate::fixed;
use crate::fixed::{div_toward_zero, sat};
use crate::model::{BookUpdate, LastTrade, MarketMeta, MarketStatus};
use crate::processor::window;
use crate::processor::window::RollingWindow;
use crate::processor::window::WindowV;
use crate::strmap::StrMap;
use crate::text;
use crate::text::{same, starts_with};

verus! {

/// What kind of instrument an id names.
#[derive(Clone, Copy, Debug, PartialEq, Eq, Structural)]
pub enum InstrumentKind {
    CryptoPerp,
    PredictionOutcome,
    Other,
}

/// The kind that the prefix of an id tells.
pub open spec fn kind_of(id: Seq<char>) -> InstrumentKind {
    if text::has_prefix(id, "binance."@) {
        InstrumentKind::CryptoPerp
    } else if text::has_prefix(id, "polymarket."@) {
        InstrumentKind::PredictionOutcome
    } else {
        InstrumentKind::Other
    }
}

impl InstrumentKind {
    /// The kind that the prefix of an id tells.
    pub fn infer(id: &str) -> (r: InstrumentKind)
        ensures
            r == kind_of(id@),
    {
        if starts_with(id, "binance.") {
            InstrumentKind::CryptoPerp
        } else if starts_with(id, "polymarket.") {
            InstrumentKind::PredictionOutcome
        } else {
            InstrumentKind::Other
        }
    }
}

/// One instrument.
#[derive(Debug)]
pub struct InstrumentState {
    pub instrument: String,
    pub kind: InstrumentKind,
    pub best_bid: i64,
    pub bid_sz: i64,
    pub best_ask: i64,
    pub ask_sz: i64,
    /// In halves of a micro-unit; nothing without both sides.
    pub mid: Option<i64>,
    pub spread: i64,
    pub last_trade: Option<LastTrade>,
    pub exch_ts_ns: i64,
    pub recv_ts_ns: i64,
    pub apply_ts_ns: i64,
    pub seq: u64,
    pub stale: bool,
    pub status: Option<MarketStatus>,
    pub start_ts_ns: Option<i64>,
    pub expiry_ts_ns: Option<i64>,
    pub strike: Option<i64>,
    pub ring: RollingWindow,
}

/// An instrument, as the contracts see it.
#[verifier::ext_equal]
pub struct InstrumentV {
    pub instrument: Seq<char>,
    pub kind: InstrumentKind,
    pub best_bid: i64,
    pub bid_sz: i64,
    pub best_ask: i64,
    pub ask_sz: i64,
    pub mid: Option<i64>,
    pub spread: i64,
    pub last_trade: Option<LastTrade>,
    pub exch_ts_ns: i64,
    pub recv_ts_ns: i64,
    pub apply_ts_ns: i64,
    pub seq: u64,
    pub stale: bool,
    pub status: Option<MarketStatus>,
    pub start_ts_ns: Option<i64>,
    pub expiry_ts_ns: Option<i64>,
    pub strike: Option<i64>,
    pub ring: WindowV,
}

impl View for InstrumentState {
    type V = InstrumentV;

    open spec fn view(&self) -> InstrumentV {
        InstrumentV {
            instrument: self.instrument@,
            kind: self.kind,
            best_bid: self.best_bid,
            bid_sz: self.bid_sz,
            best_ask: self.best_ask,
            ask_sz: self.ask_sz,
            mid: self.mid,
            spread: self.spread,
            last_trade: self.last_trade,
            exch_ts_ns: self.exch_ts_ns,
            recv_ts_ns: self.recv_ts_ns,
            apply_ts_ns: self.apply_ts_ns,
            seq: self.seq,
            stale: self.stale,
            status: self.status,
            start_ts_ns: self.start_ts_ns,
            expiry_ts_ns: self.expiry_ts_ns,
            strike: self.strike,
            ring: self.ring@,
        }
    }
}

/// An instrument of which nothing is known yet.
pub open spec fn unknown(
    instrument: Seq<char>,
    kind: InstrumentKind,
    cap: usize,
    horizon_ms: u64,
) -> InstrumentV {
    InstrumentV {
        instrument,
        kind,
        best_bid: 0,
        bid_sz: 0,
        best_ask: 0,
        ask_sz: 0,
        mid: None,
        spread: 0,
        last_trade: None,
        exch_ts_ns: 0,
        recv_ts_ns: 0,
        apply_ts_ns: 0,
        seq: 0,
        stale: false,
        status: None,
        start_ts_ns: None,
        expiry_ts_ns: None,
        strike: None,
        ring: window::fresh(cap, horizon_ms),
    }
}

/// The mid of two quotes, in halves of a micro-unit; nothing unless both are there.
pub open spec fn mid_of(bid: i64, ask: i64) -> Option<i64> {
    if bid > 0 && ask > 0 {
        Some(fixed::clamp64(bid + ask) as i64)
    } else {
        None
    }
}

/// An instrument after a book: a side that the book leaves out keeps its quote, and the mid
/// is sampled when it has changed.
pub open spec fn after_book(s: InstrumentV, b: BookUpdate, apply_ts_ns: i64) -> InstrumentV {
    let (bid, bid_sz) = if b.bids@.len() > 0 {
        b.bids@[0]
    } else {
        (s.best_bid, s.bid_sz)
    };
    let (ask, ask_sz) = if b.asks@.len() > 0 {
        b.asks@[0]
    } else {
        (s.best_ask, s.ask_sz)
    };
    let mid = mid_of(bid, ask);
    InstrumentV {
        best_bid: bid,
        bid_sz,
        best_ask: ask,
        ask_sz,
        mid,
        spread: fixed::clamp64(ask - bid) as i64,
        exch_ts_ns: b.exch_ts_ns,
        recv_ts_ns: b.recv_ts_ns,
        apply_ts_ns,
        stale: false,
        ring: if mid is Some && mid != s.mid {
            window::pushed(s.ring, b.recv_ts_ns, mid->0)
        } else {
            s.ring
        },
        ..s
    }
}

impl InstrumentState {
    /// An instrument of which nothing is known yet.
    pub fn new(instrument: String, kind: InstrumentKind, ring_cap: usize, horizon_ms: u64) -> (r:
        InstrumentState)
        ensures
            r@ == unknown(instrument@, kind, ring_cap, horizon_ms),
    {
        InstrumentState {
            instrument,
            kind,
            best_bid: 0,
            bid_sz: 0,
            best_ask: 0,
            ask_sz: 0,
            mid: None,
            spread: 0,
            last_trade: None,
            exch_ts_ns: 0,
            recv_ts_ns: 0,
            apply_ts_ns: 0,
            seq: 0,
            stale: false,
            status: None,
            start_ts_ns: None,
            expiry_ts_ns: None,
            strike: None,
            ring: RollingWindow::new(ring_cap, horizon_ms),
        }
    }

    /// Takes a book in.
    pub fn apply_book(&mut self, b: &BookUpdate, apply_ts_ns: i64)
        ensures
            final(self)@ == after_book(old(self)@, *b, apply_ts_ns),
    {
        if b.bids.len() > 0 {
            let (p, s): (i64, i64) = b.bids[0];
            self.best_bid = p;
            self.bid_sz = s;
        }
        if b.asks.len() > 0 {
            let (p, s): (i64, i64) = b.asks[0];
            self.best_ask = p;
            self.ask_sz = s;
        }
        let mid: Option<i64> = if self.best_bid > 0 && self.best_ask > 0 {
            Some(sat(self.best_bid as i128 + self.best_ask as i128))
        } else {
            None
        };
        self.spread = sat(self.best_ask as i128 - self.best_bid as i128);
        self.exch_ts_ns = b.exch_ts_ns;
        self.recv_ts_ns = b.recv_ts_ns;
        self.apply_ts_ns = apply_ts_ns;
        self.stale = false;
        if let Some(m) = mid {
            let moved: bool = match self.mid {
                Some(x) => x != m,
                None => true,
            };
            if moved {
                self.ring.push(b.recv_ts_ns, m);
            }
        }
        self.mid = mid;
    }
}

/// Every instrument, and the market that stands for a reference.
pub struct MarketState {
    pub instruments: StrMap<InstrumentState>,
    /// The live market of each reference.
    pub links: StrMap<String>,
    link_ref: String,
    link_kind: String,
    ring_cap: usize,
    ring_horizon_ms: u64,
}

/// The state of the markets, as the contracts see it.
#[verifier::ext_equal]
pub struct MarketStateV {
    pub instruments: Map<Seq<char>, InstrumentV>,
    pub links: Map<Seq<char>, Seq<char>>,
    pub link_ref: Seq<char>,
    pub link_kind: Seq<char>,
    pub ring_cap: usize,
    pub ring_horizon_ms: u64,
}

/// Whether the relative move of an instrument over a window is a rise.
pub open spec fn risen(m: MarketStateV, inst: Seq<char>, now_ns: i64, window_ms: u64) -> bool {
    match known_in(m, inst) {
        Some(s) => window::rises(s.ring.samples, now_ns, window_ms),
        None => false,
    }
}

impl View for MarketState {
    type V = MarketStateV;

    closed spec fn view(&self) -> MarketStateV {
        MarketStateV {
            instruments: self.instruments@.map_values(|s: InstrumentState| s@),
            links: self.links@.map_values(|s: String| s@),
            link_ref: self.link_ref@,
            link_kind: self.link_kind@,
            ring_cap: self.ring_cap,
            ring_horizon_ms: self.ring_horizon_ms,
        }
    }
}

/// An instrument, known or not.
pub open spec fn instrument_in(m: MarketStateV, id: Seq<char>) -> InstrumentV {
    if m.instruments.contains_key(id) {
        m.instruments[id]
    } else {
        unknown(id, kind_of(id), m.ring_cap, m.ring_horizon_ms)
    }
}

/// The links after a catalog entry: a market of the right kind that goes live stands for the
/// reference, and one that is over no longer does.
pub open spec fn after_entry(m: MarketStateV, e: MarketMeta) -> Map<Seq<char>, Seq<char>> {
    if e.kind@ != m.link_kind {
        m.links
    } else {
        match e.status {
            MarketStatus::Live => m.links.insert(m.link_ref, e.instrument@),
            MarketStatus::Upcoming => m.links,
            _ => if m.links.contains_key(m.link_ref) && m.links[m.link_ref] == e.instrument@ {
                m.links.remove(m.link_ref)
            } else {
                m.links
            },
        }
    }
}

/// The state after an event.
pub open spec fn after_event(m: MarketStateV, ev: Event) -> MarketStateV {
    match ev.payload {
        Payload::Book(b) => MarketStateV {
            instruments: m.instruments.insert(
                b.instrument@,
                InstrumentV {
                    seq: ev.seq,
                    ..after_book(instrument_in(m, b.instrument@), b, ev.ts_ns)
                },
            ),
            ..m
        },
        Payload::Trade(t) => if m.instruments.contains_key(t.instrument@) {
            MarketStateV {
                instruments: m.instruments.insert(
                    t.instrument@,
                    InstrumentV {
                        last_trade: Some(
                            LastTrade {
                                price: t.price,
                                qty: t.qty,
                                side: t.side,
                                ts_ns: t.recv_ts_ns,
                            },
                        ),
                        ..m.instruments[t.instrument@]
                    },
                ),
                ..m
            }
        } else {
            m
        },
        Payload::Meta(e) => {
            let s = instrument_in(m, e.instrument@);
            MarketStateV {
                instruments: m.instruments.insert(
                    e.instrument@,
                    InstrumentV {
                        status: Some(e.status),
                        start_ts_ns: e.start_ts_ns,
                        expiry_ts_ns: e.expiry_ts_ns,
                        strike: if e.strike is Some {
                            e.strike
                        } else {
                            s.strike
                        },
                        ..s
                    },
                ),
                links: after_entry(m, e),
                ..m
            }
        },
        _ => m,
    }
}

/// The market that stands for a reference.
pub open spec fn target_in(m: MarketStateV, reference: Seq<char>) -> Option<InstrumentV> {
    if m.links.contains_key(reference) && m.instruments.contains_key(m.links[reference]) {
        Some(m.instruments[m.links[reference]])
    } else {
        None
    }
}

/// The time to the end of an instrument, in milliseconds, rounded toward zero.
pub open spec fn time_left(s: InstrumentV, now_ns: i64) -> Option<i64> {
    match s.expiry_ts_ns {
        Some(e) => Some(fixed::toward_zero(fixed::clamp64(e - now_ns), 1_000_000) as i64),
        None => None,
    }
}

/// The view of an instrument that may be missing.
pub open spec fn seen(s: Option<&InstrumentState>) -> Option<InstrumentV> {
    match s {
        Some(x) => Some(x@),
        None => None,
    }
}

/// The instrument of an id, where it is known.
pub open spec fn known_in(m: MarketStateV, id: Seq<char>) -> Option<InstrumentV> {
    if m.instruments.contains_key(id) {
        Some(m.instruments[id])
    } else {
        None
    }
}

impl MarketState {
    /// Nothing known yet.
    pub fn new(link_ref: String, link_kind: String, ring_cap: usize, ring_horizon_ms: u64) -> (r:
        MarketState)
        ensures
            r@ == (MarketStateV {
                instruments: Map::empty(),
                links: Map::empty(),
                link_ref: link_ref@,
                link_kind: link_kind@,
                ring_cap,
                ring_horizon_ms,
            }),
    {
        let r = MarketState {
            instruments: StrMap::new(),
            links: StrMap::new(),
            link_ref,
            link_kind,
            ring_cap,
            ring_horizon_ms,
        };
        assert(r@.instruments =~= Map::<Seq<char>, InstrumentV>::empty());
        assert(r@.links =~= Map::<Seq<char>, Seq<char>>::empty());
        r
    }

    fn take(&mut self, id: &str) -> (s: InstrumentState)
        ensures
            s@ == instrument_in(old(self)@, id@),
            final(self)@ == (MarketStateV {
                instruments: old(self)@.instruments.remove(id@),
                ..old(self)@
            }),
    {
        let s = match self.instruments.remove(id) {
            Some(s) => s,
            None => InstrumentState::new(
                id.to_string(),
                InstrumentKind::infer(id),
                self.ring_cap,
                self.ring_horizon_ms,
            ),
        };
        assert(self@.instruments =~= old(self)@.instruments.remove(id@));
        s
    }

    fn put(&mut self, id: &str, s: InstrumentState)
        ensures
            final(self)@ == (MarketStateV {
                instruments: old(self)@.instruments.insert(id@, s@),
                ..old(self)@
            }),
    {
        self.instruments.insert(id.to_string(), s);
        assert(self@.instruments =~= old(self)@.instruments.insert(id@, s@));
    }

    /// Takes an event in.
    pub fn on_event(&mut self, ev: &Event)
        ensures
            final(self)@ == after_event(old(self)@, *ev),
    {
        match &ev.payload {
            Payload::Book(b) => {
                let mut s = self.take(b.instrument.as_str());
                s.apply_book(b, ev.ts_ns);
                s.seq = ev.seq;
                let ghost sv = s@;
                self.put(b.instrument.as_str(), s);
                assert(self@.instruments =~= old(self)@.instruments.insert(b.instrument@, sv));
            },
            Payload::Trade(t) => {
                if self.instruments.contains(t.instrument.as_str()) {
                    let mut s = self.take(t.instrument.as_str());
                    s.last_trade = Some(
                        LastTrade {
                            price: t.price,
                            qty: t.qty,
                            side: t.side,
                            ts_ns: t.recv_ts_ns,
                        },
                    );
                    let ghost sv = s@;
                    self.put(t.instrument.as_str(), s);
                    assert(self@.instruments =~= old(self)@.instruments.insert(t.instrument@, sv));
                }
            },
            Payload::Meta(m) => {
                let mut s = self.take(m.instrument.as_str());
                s.status = Some(m.status);
                s.start_ts_ns = m.start_ts_ns;
                s.expiry_ts_ns = m.expiry_ts_ns;
                if m.strike.is_some() {
                    s.strike = m.strike;
                }
                let ghost sv = s@;
                self.put(m.instrument.as_str(), s);
                assert(self@.instruments =~= old(self)@.instruments.insert(m.instrument@, sv));
                self.linker_on_meta(m);
            },
            _ => {},
        }
    }

    fn linker_on_meta(&mut self, m: &MarketMeta)
        ensures
            final(self)@ == (MarketStateV { links: after_entry(old(self)@, *m), ..old(self)@ }),
    {
        if !same(m.kind.as_str(), self.link_kind.as_str()) {
            return;
        }
        match m.status {
            MarketStatus::Live => {
                let k = self.link_ref.clone();
                self.links.insert(k, m.instrument.clone());
                assert(self@.links =~= old(self)@.links.insert(old(self)@.link_ref, m.instrument@));
            },
            MarketStatus::Upcoming => {},
            _ => {
                let over: bool = match self.links.get(self.link_ref.as_str()) {
                    Some(t) => same(t.as_str(), m.instrument.as_str()),
                    None => false,
                };
                if over {
                    let k = self.link_ref.clone();
                    let _ = self.links.remove(k.as_str());
                    assert(self@.links =~= old(self)@.links.remove(old(self)@.link_ref));
                }
            },
        }
    }

    /// The instrument of an id.
    pub fn get(&self, inst: &str) -> (r: Option<&InstrumentState>)
        ensures
            seen(r) == known_in(self@, inst@),
    {
        self.instruments.get(inst)
    }

    /// The market that stands for a reference.
    pub fn target_of(&self, reference: &str) -> (r: Option<&InstrumentState>)
        ensures
            seen(r) == target_in(self@, reference@),
    {
        match self.links.get(reference) {
            Some(t) => self.instruments.get(t.as_str()),
            None => None,
        }
    }

    /// The relative move of an instrument over a window, in millionths of a basis point.
    pub fn move_bps(&self, inst: &str, now_ns: i64, window_ms: u64) -> (r: Option<i64>)
        ensures
            r == (match known_in(self@, inst@) {
                Some(s) => window::relative_move(s.ring.samples, now_ns, window_ms),
                None => None,
            }),
    {
        match self.instruments.get(inst) {
            Some(s) => s.ring.move_bps(now_ns, window_ms),
            None => None,
        }
    }

    /// Whether the relative move of an instrument over a window is a rise.
    pub fn rises(&self, inst: &str, now_ns: i64, window_ms: u64) -> (r: bool)
        ensures
            r == risen(self@, inst@, now_ns, window_ms),
    {
        match self.instruments.get(inst) {
            Some(s) => s.ring.rises(now_ns, window_ms),
            None => false,
        }
    }

    /// The move of an instrument over a window, in halves of a micro-unit.
    pub fn move_abs(&self, inst: &str, now_ns: i64, window_ms: u64) -> (r: Option<i64>)
        ensures
            r == (match known_in(self@, inst@) {
                Some(s) => window::absolute_move(s.ring.samples, now_ns, window_ms),
                None => None,
            }),
    {
        match self.instruments.get(inst) {
            Some(s) => s.ring.move_abs(now_ns, window_ms),
            None => None,
        }
    }

    /// The time to the end of an instrument, in milliseconds.
    pub fn tte_ms(&self, inst: &str, now_ns: i64) -> (r: Option<i64>)
        ensures
            r == (match known_in(self@, inst@) {
                Some(s) => time_left(s, now_ns),
                None => None,
            }),
    {
        match self.instruments.get(inst) {
            Some(s) => match s.expiry_ts_ns {
                Some(e) => Some(div_toward_zero(sat(e as i128 - now_ns as i128), 1_000_000)),
                None => None,
            },
            None => None,
        }
    }
}

/// A market that is over does not stand for the reference, whatever stood for it before.
pub proof fn law_markets_that_are_over_are_unlinked(m: MarketStateV, ev: Event, e: MarketMeta)
    requires
        ev.payload == Payload::Meta(e),
        e.kind@ == m.link_kind,
        e.status == MarketStatus::Expired || e.status == MarketStatus::Resolved,
    ensures
        ({
            let n = after_event(m, ev);
            !(n.links.contains_key(m.link_ref) && n.links[m.link_ref] == e.instrument@)
        }),
{
}

/// A market of the right kind that goes live stands for the reference.
pub proof fn law_live_markets_are_linked(m: MarketStateV, ev: Event, e: MarketMeta)
    requires
        ev.payload == Payload::Meta(e),
        e.kind@ == m.link_kind,
        e.status == MarketStatus::Live,
    ensures
        ({
            let t = target_in(after_event(m, ev), m.link_ref);
            t is Some && t == known_in(after_event(m, ev), e.instrument@)
        }),
{
}

/// A book sets the quotes of the sides that it has, best first, and leaves the others. The
/// mid is that of both quotes where both are there, and is sampled exactly where it is a new
/// one.
pub proof fn law_books_set_the_quotes(m: MarketStateV, ev: Event, b: BookUpdate)
    requires
        ev.payload == Payload::Book(b),
    ensures
        ({
            let n = after_event(m, ev);
            let i = b.instrument@;
            let s = instrument_in(m, i);
            let t = n.instruments[i];
            &&& n.instruments.contains_key(i)
            &&& b.bids@.len() > 0 ==> t.best_bid == b.bids@[0].0 && t.bid_sz == b.bids@[0].1
            &&& b.asks@.len() > 0 ==> t.best_ask == b.asks@[0].0 && t.ask_sz == b.asks@[0].1
            &&& b.bids@.len() == 0 ==> t.best_bid == s.best_bid && t.bid_sz == s.bid_sz
            &&& b.asks@.len() == 0 ==> t.best_ask == s.best_ask && t.ask_sz == s.ask_sz
            &&& t.mid is Some <==> t.best_bid > 0 && t.best_ask > 0
            &&& t.mid is Some && t.best_bid + t.best_ask <= i64::MAX ==> t.mid->0 == t.best_bid
                + t.best_ask
            &&& i64::MIN <= t.best_ask - t.best_bid <= i64::MAX ==> t.spread == t.best_ask
                - t.best_bid
            &&& t.exch_ts_ns == b.exch_ts_ns && t.recv_ts_ns == b.recv_ts_ns && t.apply_ts_ns
                == ev.ts_ns && t.seq == ev.seq && !t.stale
            &&& t.mid is Some && t.mid != s.mid ==> t.ring == window::pushed(
                s.ring,
                b.recv_ts_ns,
                t.mid->0,
            )
            &&& t.mid is None || t.mid == s.mid ==> t.ring == s.ring
            &&& t.status == s.status && t.expiry_ts_ns == s.expiry_ts_ns && t.strike == s.strike
                && t.last_trade == s.last_trade
            &&& n.links == m.links
            &&& forall|k: Seq<char>|
                k != i && m.instruments.contains_key(k) ==> n.instruments.contains_key(k)
                    && #[trigger] n.instruments[k] == m.instruments[k]
        }),
{
}

/// A trade is kept as the last of its instrument, where that is known; a catalog entry sets
/// the status, the times and the strike, but does not take a strike away.
pub proof fn law_trades_and_entries_are_kept(
    m: MarketStateV,
    ev: Event,
    t: crate::model::TradeTick,
    e: MarketMeta,
)
    ensures
        ev.payload == Payload::Trade(t) && !m.instruments.contains_key(t.instrument@)
            ==> after_event(m, ev) == m,
        ev.payload == Payload::Trade(t) && m.instruments.contains_key(t.instrument@) ==> {
            let x = after_event(m, ev).instruments[t.instrument@];
            &&& x.last_trade matches Some(l) && l.price == t.price && l.qty == t.qty && l.side
                == t.side && l.ts_ns == t.recv_ts_ns
            &&& x.best_bid == m.instruments[t.instrument@].best_bid && x.ring
                == m.instruments[t.instrument@].ring
        },
        ev.payload == Payload::Meta(e) ==> {
            let x = after_event(m, ev).instruments[e.instrument@];
            let s = instrument_in(m, e.instrument@);
            &&& x.status == Some(e.status) && x.expiry_ts_ns == e.expiry_ts_ns && x.start_ts_ns
                == e.start_ts_ns
            &&& e.strike is Some ==> x.strike == e.strike
            &&& e.strike is None ==> x.strike == s.strike
            &&& x.best_bid == s.best_bid && x.best_ask == s.best_ask && x.mid == s.mid
        },
{
}

/// The time left is what there is from now to the end, in whole milliseconds.
pub proof fn law_the_time_left_runs_down(s: InstrumentV, e: i64, now_ns: i64)
    requires
        s.expiry_ts_ns == Some(e),
        i64::MIN <= e - now_ns <= i64::MAX,
    ensures
        e >= now_ns ==> (time_left(s, now_ns) matches Some(t) && t * 1_000_000 <= e - now_ns < (t
            + 1) * 1_000_000),
        e <= now_ns ==> (time_left(s, now_ns) matches Some(t) && (t - 1) * 1_000_000 < e - now_ns
            <= t * 1_000_000),
{
}

/// Of an instrument that is new nothing is known.
pub proof fn law_nothing_is_known_at_first(id: Seq<char>, kind: InstrumentKind, cap: usize, horizon_ms: u64)
    ensures
        ({
            let s = unknown(id, kind, cap, horizon_ms);
            &&& s.instrument == id && s.kind == kind
            &&& s.best_bid == 0 && s.best_ask == 0 && s.bid_sz == 0 && s.ask_sz == 0 && s.spread == 0
            &&& s.mid is None && s.last_trade is None && s.status is None && s.strike is None
            &&& s.expiry_ts_ns is None && s.start_ts_ns is None && s.seq == 0 && !s.stale
            &&& s.recv_ts_ns == 0 && s.exch_ts_ns == 0 && s.apply_ts_ns == 0
            &&& s.ring.samples.len() == 0
        }),
        text::has_prefix(id, "binance."@) ==> kind_of(id) == InstrumentKind::CryptoPerp,
        !text::has_prefix(id, "binance."@) && text::has_prefix(id, "polymarket."@) ==> kind_of(id)
            == InstrumentKind::PredictionOutcome,
        !text::has_prefix(id, "binance."@) && !text::has_prefix(id, "polymarket."@) ==> kind_of(id)
            == InstrumentKind::Other,
{
}

} // verus!
