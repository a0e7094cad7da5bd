//! Tops of book of futures: how each instrument is named, and its quotes as events.
use vstd::prelude::*;
use std::collections::HashMap;
use crate::event::{Event, Payload};
use crate::fixed;
use crate::fixed::div_toward_zero;
use crate::model::BookUpdate;
use crate::numeral;
use crate::numeral::u64_text;
use crate::text;
use crate::text::{chars_of, find_char, joined, string_of_range};

verus! {

/// The collector's settings.
#[derive(Debug)]
pub struct DatabentoCfg {
    pub enabled: bool,
    /// Continuous symbols, such as `MBT.v.0`.
    pub symbols: Vec<String>,
    pub reconnect_base_ms: u64,
    pub reconnect_max_ms: u64,
}

impl Default for DatabentoCfg {
    fn default() -> (r: DatabentoCfg)
        ensures
            !r.enabled,
            text::views(r.symbols@) == seq!["MBT.v.0"@],
            r.reconnect_base_ms == 1000,
            r.reconnect_max_ms == 30000,
    {
        let mut symbols: Vec<String> = Vec::new();
        symbols.push("MBT.v.0".to_string());
        assert(text::views(symbols@) =~= seq!["MBT.v.0"@]);
        DatabentoCfg { enabled: false, symbols, reconnect_base_ms: 1000, reconnect_max_ms: 30000 }
    }
}

/// The root of a symbol: what stands before its first dot.
pub open spec fn root_in(sym: Seq<char>) -> Seq<char> {
    sym.take(text::first_at(sym, '.'))
}

/// The root of a symbol: `MBT` of `MBT.v.0`.
pub fn root_of(sym: &str) -> (r: String)
    ensures
        r@ == root_in(sym@),
{
    let v = chars_of(sym);
    assert(sym@.skip(0) =~= sym@);
    let i = find_char(&v, 0, '.');
    let r = string_of_range(&v, 0, i);
    assert(r@ =~= root_in(sym@));
    r
}

/// How the instruments of a session are named: all by one root where there is one symbol,
/// else by the roots that the feed maps their ids to.
pub struct Labels {
    single: Option<String>,
    roots: HashMap<u32, String>,
}

/// The names of a session, as the contracts see them.
#[verifier::ext_equal]
pub struct LabelsV {
    pub single: Option<Seq<char>>,
    pub roots: Map<u32, Seq<char>>,
}

impl View for Labels {
    type V = LabelsV;

    closed spec fn view(&self) -> LabelsV {
        LabelsV {
            single: match self.single {
                Some(s) => Some(s@),
                None => None,
            },
            roots: self.roots@.map_values(|s: String| s@),
        }
    }
}

/// The name of an instrument.
pub open spec fn label(v: LabelsV, id: u32) -> Seq<char> {
    match v.single {
        Some(s) => s,
        None => if v.roots.contains_key(id) {
            v.roots[id]
        } else {
            "id"@ + numeral::int_text(id as int)
        },
    }
}

impl Labels {
    /// The names of a session over these symbols.
    pub fn new(symbols: &Vec<String>) -> (r: Labels)
        ensures
            r@ == (LabelsV {
                single: if symbols@.len() == 1 {
                    Some(root_in(symbols@[0]@))
                } else {
                    None
                },
                roots: Map::empty(),
            }),
    {
        broadcast use vstd::std_specs::hash::group_hash_axioms;

        let r = Labels {
            single: if symbols.len() == 1 {
                Some(root_of(symbols[0].as_str()))
            } else {
                None
            },
            roots: HashMap::new(),
        };
        assert(r@.roots =~= Map::<u32, Seq<char>>::empty());
        r
    }

    /// The feed maps an id to a symbol.
    pub fn map_symbol(&mut self, id: u32, sym: &str)
        ensures
            final(self)@ == (LabelsV {
                roots: old(self)@.roots.insert(id, root_in(sym@)),
                ..old(self)@
            }),
    {
        broadcast use vstd::std_specs::hash::group_hash_axioms;

        let root = root_of(sym);
        self.roots.insert(id, root);
        assert(self@.roots =~= old(self)@.roots.insert(id, root_in(sym@)));
    }

    /// The name of an instrument.
    pub fn label_of(&self, id: u32) -> (r: String)
        ensures
            r@ == label(self@, id),
    {
        broadcast use vstd::std_specs::hash::group_hash_axioms;

        if let Some(s) = &self.single {
            return s.clone();
        }
        match self.roots.get(&id) {
            Some(s) => s.clone(),
            None => {
                let n: u64 = id as u64;
                joined("id", u64_text(n).as_str())
            },
        }
    }
}

/// One top of book as the feed tells it: prices count in billionths.
#[derive(Clone, Copy, Debug)]
pub struct Quote {
    pub instrument_id: u32,
    pub bid_px: i64,
    pub bid_sz: u32,
    pub ask_px: i64,
    pub ask_sz: u32,
    pub sequence: u32,
    pub ts_event: u64,
}

/// Whether a price is there: the largest number stands for none.
pub open spec fn is_quoted(px: i64) -> bool {
    px != i64::MAX
}

/// The event of a quote; nothing where a side is missing. `seq` counts from one.
pub fn quote_event(q: &Quote, labels: &Labels, recv: i64, seq: &mut u64) -> (r: Option<Event>)
    ensures
        r is Some == (is_quoted(q.bid_px) && is_quoted(q.ask_px)),
        *final(seq) == (if r is Some && *old(seq) < u64::MAX {
            (*old(seq) + 1) as u64
        } else {
            *old(seq)
        }),
        match r {
            Some(e) => {
                &&& e.topic@ == "market.databento."@ + label(labels@, q.instrument_id) + ".book"@
                &&& e.source@ == "databento"@
                &&& e.ts_ns == recv
                &&& e.seq == *final(seq)
                &&& match e.payload {
                    Payload::Book(b) => {
                        &&& b.instrument@ == "databento."@ + label(labels@, q.instrument_id)
                        &&& b.bids@ == seq![
                            (fixed::toward_zero(q.bid_px as int, 1000) as i64, (q.bid_sz
                                * 1_000_000) as i64),
                        ]
                        &&& b.asks@ == seq![
                            (fixed::toward_zero(q.ask_px as int, 1000) as i64, (q.ask_sz
                                * 1_000_000) as i64),
                        ]
                        &&& b.update_id == Some(q.sequence as u64)
                        &&& b.exch_ts_ns == fixed::smaller(q.ts_event as int, i64::MAX as int)
                        &&& b.recv_ts_ns == recv
                    },
                    _ => false,
                }
            },
            None => true,
        },
{
    if q.bid_px == i64::MAX || q.ask_px == i64::MAX {
        return None;
    }
    let root = labels.label_of(q.instrument_id);
    *seq = seq.saturating_add(1);
    let mut bids: Vec<(i64, i64)> = Vec::new();
    bids.push((div_toward_zero(q.bid_px, 1000), q.bid_sz as i64 * 1_000_000));
    let mut asks: Vec<(i64, i64)> = Vec::new();
    asks.push((div_toward_zero(q.ask_px, 1000), q.ask_sz as i64 * 1_000_000));
    let a = joined("market.databento.", root.as_str());
    Some(
        Event {
            topic: joined(a.as_str(), ".book"),
            source: "databento",
            ts_ns: recv,
            seq: *seq,
            payload: Payload::Book(
                BookUpdate {
                    instrument: joined("databento.", root.as_str()),
                    bids,
                    asks,
                    update_id: Some(q.sequence as u64),
                    exch_ts_ns: if q.ts_event > i64::MAX as u64 {
                        i64::MAX
                    } else {
                        q.ts_event as i64
                    },
                    recv_ts_ns: recv,
                },
            ),
        },
    )
}

/// With one symbol, what the feed says of ids names nothing.
pub proof fn law_single_symbol_names_all(v: LabelsV, id: u32, other: u32, root: Seq<char>)
    requires
        v.single is Some,
    ensures
        label(LabelsV { roots: v.roots.insert(other, root), ..v }, id) == v.single->0,
{
}

} // verus!
