//! A classifier's call on which way the price will go: what it reads, and when its score is
//! worth a trade. The score itself comes from a model that is asked for it, in billionths.
use vstd::prelude::*;
use crate::event::{Event, Payload};
use crate::fixed;
use crate::fixed::{abs64, div_toward_zero, sat};
use crate::model::{MarketStatus, TradeSignal, Trigger};
use crate::numeral;
use crate::numeral::{push_places, push_u64};
use crate::processor::fair_ride;
use crate::processor::fair_ride::read_top;
use crate::processor::hist;
use crate::processor::hist::{Hist, Lags};
use crate::processor::hist::{HistV, LagsV};
use crate::processor::lake;
use crate::processor::lake::{LakeFeats, Term};
use crate::processor::lake::{Bar, LakeV};
use crate::processor::state;
use crate::processor::state::MarketState;
use crate::processor::state::{InstrumentV, MarketStateV};
use crate::strmap;
use crate::strmap::StrMap;
use crate::text;
use crate::text::{ends_with, joined, same, split, starts_with, string_of_range, chars_of, trim};

verus! {

/// A column that is read off the books of the market and of the reference.
#[derive(Clone, Copy, Debug, PartialEq, Eq, Structural)]
pub enum BookCol {
    BidSize,
    AskSize,
    Imbalance,
    MicroPrice,
    RefBidSize,
    RefAskSize,
}

/// What a model reads, in its order: the lags, the book columns, the bars.
#[derive(Debug)]
pub struct Layout {
    pub lags: Vec<u32>,
    pub book: Vec<BookCol>,
    pub lake: Vec<String>,
}

/// Why a model is refused.
#[derive(Clone, Copy, Debug, PartialEq, Eq, Structural)]
pub enum LayoutError {
    /// It is of another kind.
    Kind,
    /// It does not read the lags.
    NoLags,
    /// It reads a group that is not known.
    Group,
    /// Its list of bar features is not that of its groups.
    LakeList,
    /// It reads a bar feature that is not known.
    LakeName,
    /// It reads another number of features.
    Count,
}

/// The groups that a list names.
pub open spec fn groups_of(feat: Seq<char>) -> Seq<Seq<char>> {
    let parts = text::split_on(feat, ',');
    Seq::new(parts.len(), |i: int| text::trimmed(parts[i]))
}

/// The name of a book column.
pub open spec fn col_name(c: BookCol) -> Seq<char> {
    match c {
        BookCol::BidSize => "kbs"@,
        BookCol::AskSize => "kas"@,
        BookCol::Imbalance => "kim"@,
        BookCol::MicroPrice => "kmi"@,
        BookCol::RefBidSize => "pbs"@,
        BookCol::RefAskSize => "pas"@,
    }
}

/// The book columns, in the order in which they are read.
pub open spec fn cols() -> Seq<BookCol> {
    seq![
        BookCol::BidSize,
        BookCol::AskSize,
        BookCol::Imbalance,
        BookCol::MicroPrice,
        BookCol::RefBidSize,
        BookCol::RefAskSize,
    ]
}

/// Whether a group names a book column.
pub open spec fn is_col(g: Seq<char>) -> bool {
    g == "kbs"@ || g == "kas"@ || g == "kim"@ || g == "kmi"@ || g == "pbs"@ || g == "pas"@
}

/// Whether a group is known.
pub open spec fn is_group(g: Seq<char>) -> bool {
    g == "hist"@ || is_col(g) || text::has_prefix(g, "lf_"@)
}

/// The book columns that are among the groups, in their order.
pub open spec fn cols_in(groups: Seq<Seq<char>>, from: Seq<BookCol>) -> Seq<BookCol>
    decreases from.len(),
{
    if from.len() == 0 {
        Seq::empty()
    } else if groups.contains(col_name(from.last())) {
        cols_in(groups, from.drop_last()).push(from.last())
    } else {
        cols_in(groups, from.drop_last())
    }
}

/// The bar features that the groups name.
pub open spec fn lake_in(groups: Seq<Seq<char>>) -> Seq<Seq<char>>
    decreases groups.len(),
{
    if groups.len() == 0 {
        Seq::empty()
    } else if text::has_prefix(groups.last(), "lf_"@) {
        lake_in(groups.drop_last()).push(groups.last().skip(3))
    } else {
        lake_in(groups.drop_last())
    }
}

/// Whether a bar feature is known.
pub open spec fn is_lake_name(n: Seq<char>) -> bool {
    ||| n == "flow_tfi_1s"@
    ||| n == "flow_tfi_5s"@
    ||| n == "flow_tfi_30s"@
    ||| n == "flow_vol_1s"@
    ||| n == "flow_n_1s"@
    ||| n == "flow_n_5s"@
    ||| n == "depth_spread_bps"@
    ||| n == "depth_depth10"@
    ||| n == "depth_band5"@
    ||| n == "depth_band10"@
    ||| n == "depth_band25"@
    ||| n == "depth_dimb5_1s"@
    ||| n == "depth_dimb5_5s"@
    ||| n == "depth_dband10_1s"@
}

/// What is wrong with a model, if anything: the first of these.
pub open spec fn layout_error(
    kind: Seq<char>,
    feat: Seq<char>,
    n_lags: int,
    lake_list: Seq<Seq<char>>,
    nf: int,
) -> Option<LayoutError> {
    let groups = groups_of(feat);
    let named = lake_in(groups);
    if kind != "exceed"@ {
        Some(LayoutError::Kind)
    } else if !groups.contains("hist"@) {
        Some(LayoutError::NoLags)
    } else if exists|i: int| 0 <= i < groups.len() && !is_group(#[trigger] groups[i]) {
        Some(LayoutError::Group)
    } else if lake_list.len() != named.len() || exists|i: int|
        0 <= i < named.len() && !lake_list.contains(#[trigger] named[i]) {
        Some(LayoutError::LakeList)
    } else if exists|i: int| 0 <= i < lake_list.len() && !is_lake_name(#[trigger] lake_list[i]) {
        Some(LayoutError::LakeName)
    } else if 2 * n_lags + cols_in(groups, cols()).len() + lake_list.len() + 5 != nf {
        Some(LayoutError::Count)
    } else {
        None
    }
}

fn read_groups(feat: &str) -> (r: Vec<String>)
    ensures
        text::views(r@) == groups_of(feat@),
{
    let parts = split(feat, ',');
    let ghost pv = text::split_on(feat@, ',');
    let mut r: Vec<String> = Vec::new();
    let mut i: usize = 0;
    while i < parts.len()
        invariant
            pv == text::views(parts@),
            i <= parts@.len(),
            r@.len() == i,
            forall|j: int| 0 <= j < i ==> (#[trigger] r@[j])@ == text::trimmed(pv[j]),
        decreases parts@.len() - i,
    {
        assert(pv[i as int] == parts@[i as int]@);
        r.push(trim(parts[i].as_str()));
        i = i + 1;
    }
    assert(text::views(r@) =~= groups_of(feat@));
    r
}

fn has_text(v: &Vec<String>, t: &str) -> (r: bool)
    ensures
        r == text::views(v@).contains(t@),
{
    let ghost vv = text::views(v@);
    let mut i: usize = 0;
    while i < v.len()
        invariant
            vv == text::views(v@),
            i <= v@.len(),
            forall|j: int| 0 <= j < i ==> vv[j] != t@,
        decreases v@.len() - i,
    {
        assert(vv[i as int] == v@[i as int]@);
        if same(v[i].as_str(), t) {
            assert(vv[i as int] == t@);
            return true;
        }
        i = i + 1;
    }
    false
}

fn known_group(g: &str) -> (r: bool)
    ensures
        r == is_group(g@),
{
    same(g, "hist") || same(g, "kbs") || same(g, "kas") || same(g, "kim") || same(g, "kmi") || same(
        g,
        "pbs",
    ) || same(g, "pas") || starts_with(g, "lf_")
}

fn known_lake(n: &str) -> (r: bool)
    ensures
        r == is_lake_name(n@),
{
    same(n, "flow_tfi_1s") || same(n, "flow_tfi_5s") || same(n, "flow_tfi_30s") || same(
        n,
        "flow_vol_1s",
    ) || same(n, "flow_n_1s") || same(n, "flow_n_5s") || same(n, "depth_spread_bps") || same(
        n,
        "depth_depth10",
    ) || same(n, "depth_band5") || same(n, "depth_band10") || same(n, "depth_band25") || same(
        n,
        "depth_dimb5_1s",
    ) || same(n, "depth_dimb5_5s") || same(n, "depth_dband10_1s")
}

fn lake_groups(groups: &Vec<String>) -> (r: Vec<String>)
    ensures
        text::views(r@) == lake_in(text::views(groups@)),
{
    let ghost gv = text::views(groups@);
    let mut r: Vec<String> = Vec::new();
    let mut i: usize = 0;
    assert(gv.take(0) =~= Seq::<Seq<char>>::empty());
    assert(text::views(r@) =~= Seq::<Seq<char>>::empty());
    while i < groups.len()
        invariant
            gv == text::views(groups@),
            i <= groups@.len(),
            text::views(r@) == lake_in(gv.take(i as int)),
        decreases groups@.len() - i,
    {
        assert(gv.take(i + 1).drop_last() =~= gv.take(i as int));
        assert(gv.take(i + 1).last() == groups@[i as int]@);
        if starts_with(groups[i].as_str(), "lf_") {
            proof {
                reveal_strlit("lf_");
                assert("lf_"@.len() == 3);
            }
            let v = chars_of(groups[i].as_str());
            let t = string_of_range(&v, 3, v.len());
            assert(t@ =~= groups@[i as int]@.skip(3));
            let ghost r0 = r@;
            let ghost tv = t@;
            r.push(t);
            assert(text::views(r@) =~= text::views(r0).push(tv));
        }
        i = i + 1;
    }
    assert(gv.take(gv.len() as int) =~= gv);
    r
}

fn name_of(c: BookCol) -> (r: &'static str)
    ensures
        r@ == col_name(c),
{
    match c {
        BookCol::BidSize => "kbs",
        BookCol::AskSize => "kas",
        BookCol::Imbalance => "kim",
        BookCol::MicroPrice => "kmi",
        BookCol::RefBidSize => "pbs",
        BookCol::RefAskSize => "pas",
    }
}

fn book_groups(groups: &Vec<String>) -> (r: Vec<BookCol>)
    ensures
        r@ == cols_in(text::views(groups@), cols()),
        r@.len() <= 6,
{
    let mut all: Vec<BookCol> = Vec::new();
    all.push(BookCol::BidSize);
    all.push(BookCol::AskSize);
    all.push(BookCol::Imbalance);
    all.push(BookCol::MicroPrice);
    all.push(BookCol::RefBidSize);
    all.push(BookCol::RefAskSize);
    assert(all@ =~= cols());
    let mut r: Vec<BookCol> = Vec::new();
    let mut i: usize = 0;
    assert(all@.take(0) =~= Seq::<BookCol>::empty());
    while i < all.len()
        invariant
            all@ == cols(),
            i <= all@.len(),
            all@.len() == 6,
            r@.len() <= i,
            r@ == cols_in(text::views(groups@), all@.take(i as int)),
        decreases all@.len() - i,
    {
        assert(all@.take(i + 1).drop_last() =~= all@.take(i as int));
        assert(all@.take(i + 1).last() == all@[i as int]);
        if has_text(groups, name_of(all[i])) {
            r.push(all[i]);
        }
        i = i + 1;
    }
    assert(all@.take(6) =~= all@);
    r
}

/// Checks what a model reads, and gives it in its order.
pub fn check_layout(kind: &str, feat: &str, lags: Vec<u32>, lake_list: Vec<String>, nf: usize) -> (r:
    Result<Layout, LayoutError>)
    ensures
        match r {
            Ok(l) => {
                &&& layout_error(
                    kind@,
                    feat@,
                    lags@.len() as int,
                    text::views(lake_list@),
                    nf as int,
                ) is None
                &&& l.lags == lags
                &&& l.lake == lake_list
                &&& l.book@ == cols_in(groups_of(feat@), cols())
            },
            Err(e) => layout_error(
                kind@,
                feat@,
                lags@.len() as int,
                text::views(lake_list@),
                nf as int,
            ) == Some(e),
        },
{
    if !same(kind, "exceed") {
        return Err(LayoutError::Kind);
    }
    let groups = read_groups(feat);
    let ghost gv = groups_of(feat@);
    if !has_text(&groups, "hist") {
        return Err(LayoutError::NoLags);
    }
    let mut i: usize = 0;
    while i < groups.len()
        invariant
            gv == text::views(groups@),
            i <= groups@.len(),
            kind@ == "exceed"@,
            gv == groups_of(feat@),
            gv.contains("hist"@),
            forall|j: int| 0 <= j < i ==> is_group(#[trigger] gv[j]),
        decreases groups@.len() - i,
    {
        assert(gv[i as int] == groups@[i as int]@);
        if !known_group(groups[i].as_str()) {
            assert(!is_group(gv[i as int]));
            return Err(LayoutError::Group);
        }
        i = i + 1;
    }
    let named = lake_groups(&groups);
    let ghost nv = lake_in(gv);
    let ghost lv = text::views(lake_list@);
    if lake_list.len() != named.len() {
        return Err(LayoutError::LakeList);
    }
    let mut i: usize = 0;
    while i < named.len()
        invariant
            gv == groups_of(feat@),
            kind@ == "exceed"@,
            gv.contains("hist"@),
            forall|j: int| 0 <= j < gv.len() ==> is_group(#[trigger] gv[j]),
            nv == text::views(named@),
            nv == lake_in(gv),
            lv == text::views(lake_list@),
            i <= named@.len(),
            forall|j: int| 0 <= j < i ==> lv.contains(#[trigger] nv[j]),
        decreases named@.len() - i,
    {
        assert(nv[i as int] == named@[i as int]@);
        if !has_text(&lake_list, named[i].as_str()) {
            assert(!lv.contains(nv[i as int]));
            return Err(LayoutError::LakeList);
        }
        i = i + 1;
    }
    let mut i: usize = 0;
    while i < lake_list.len()
        invariant
            gv == groups_of(feat@),
            kind@ == "exceed"@,
            gv.contains("hist"@),
            forall|j: int| 0 <= j < gv.len() ==> is_group(#[trigger] gv[j]),
            nv == lake_in(gv),
            lv == text::views(lake_list@),
            lv.len() == nv.len(),
            forall|j: int| 0 <= j < nv.len() ==> lv.contains(#[trigger] nv[j]),
            i <= lake_list@.len(),
            forall|j: int| 0 <= j < i ==> is_lake_name(#[trigger] lv[j]),
        decreases lake_list@.len() - i,
    {
        assert(lv[i as int] == lake_list@[i as int]@);
        if !known_lake(lake_list[i].as_str()) {
            assert(!is_lake_name(lv[i as int]));
            return Err(LayoutError::LakeName);
        }
        i = i + 1;
    }
    let book = book_groups(&groups);
    let expect: u128 = 2 * lags.len() as u128 + book.len() as u128 + lake_list.len() as u128 + 5;
    if expect != nf as u128 {
        return Err(LayoutError::Count);
    }
    Ok(Layout { lags, book, lake: lake_list })
}

/// A bar feature of a model that was accepted is always told.
pub proof fn law_accepted_names_are_known(bars: Seq<Bar>, i: int, n: Seq<char>)
    ensures
        is_lake_name(n) == (lake::term_of(bars, i, n) is Some),
{
}

/// The rule's settings. Scores are in billionths, prices in micro-units.
#[derive(Debug)]
pub struct ExceedCfg {
    pub model_path: String,
    pub reference: String,
    /// The instrument whose deep book the bars read.
    pub depth_instrument: String,
    /// How large a score has to be.
    pub cut: i64,
    /// How small it has to become again.
    pub rearm_eps: i64,
    /// Which prices count: "tails" (outside the range), "band" (inside it), or all.
    pub px_mode: String,
    pub px_lo: i64,
    pub px_hi: i64,
    pub entry_min_tte_ns: i64,
    pub entry_max_tte_ns: i64,
    pub max_entries_per_event: u32,
    pub stale_ms: i64,
    pub max_spread: i64,
    pub ref_max_age_ms: i64,
    pub hold_ms: u64,
    pub ttl_ms: u64,
    /// How far apart two looks at one market are at least.
    pub eval_min_ms: i64,
}

impl Default for ExceedCfg {
    fn default() -> (r: ExceedCfg)
        ensures
            r.model_path@ == "models/exceed-1s-x1-rs-btc.json"@,
            r.reference@ == "binance.usdt_perp.BTCUSDT"@,
            r.depth_instrument@ == "binance.usdt_perp.BTCUSDT.depth"@,
            r.cut == 480_000_000,
            r.rearm_eps == 200_000_000,
            r.px_mode@ == "tails"@,
            r.px_lo == 100_000,
            r.px_hi == 900_000,
            r.entry_min_tte_ns == 60_000_000_000,
            r.entry_max_tte_ns == 300_000_000_000,
            r.max_entries_per_event == 255,
            r.stale_ms == 1500,
            r.max_spread == 150_000,
            r.ref_max_age_ms == 5000,
            r.hold_ms == 0,
            r.ttl_ms == 500,
            r.eval_min_ms == 50,
    {
        ExceedCfg {
            model_path: "models/exceed-1s-x1-rs-btc.json".to_string(),
            reference: "binance.usdt_perp.BTCUSDT".to_string(),
            depth_instrument: "binance.usdt_perp.BTCUSDT.depth".to_string(),
            cut: 480_000_000,
            rearm_eps: 200_000_000,
            px_mode: "tails".to_string(),
            px_lo: 100_000,
            px_hi: 900_000,
            entry_min_tte_ns: 60_000_000_000,
            entry_max_tte_ns: 300_000_000_000,
            max_entries_per_event: 255,
            stale_ms: 1500,
            max_spread: 150_000,
            ref_max_age_ms: 5000,
            hold_ms: 0,
            ttl_ms: 500,
            eval_min_ms: 50,
        }
    }
}

/// Whether a mid counts; it is in halves of a micro-unit.
pub open spec fn in_region(cfg: ExceedCfg, mid: i64) -> bool {
    if cfg.px_mode@ == "tails"@ {
        mid < 2 * cfg.px_lo || mid > 2 * cfg.px_hi
    } else if cfg.px_mode@ == "band"@ {
        2 * cfg.px_lo <= mid <= 2 * cfg.px_hi
    } else {
        true
    }
}

/// One market that is watched.
#[derive(Clone, Copy, Debug, PartialEq, Eq, Structural)]
pub struct Watch {
    pub armed: bool,
    /// Which way the last signal went.
    pub dir: i8,
    pub entries: u32,
    pub last_eval_ns: i64,
}

/// A market that is new.
pub open spec fn fresh() -> Watch {
    Watch { armed: true, dir: 0, entries: 0, last_eval_ns: 0 }
}

/// One look at a market.
#[derive(Clone, Copy, Debug, PartialEq, Eq, Structural)]
pub struct Row {
    pub now: i64,
    pub tte_ns: i64,
    pub bid: i64,
    pub ask: i64,
    pub bid_sz: i64,
    pub ask_sz: i64,
    /// The mid of the reference, in halves of a micro-unit.
    pub px: i64,
    pub px_bid_sz: i64,
    pub px_ask_sz: i64,
}

impl Row {
    /// The mid of the market, in halves of a micro-unit.
    pub open spec fn mid_spec(self) -> i64 {
        fixed::clamp64(self.bid + self.ask) as i64
    }

    /// The mid of the market, in halves of a micro-unit.
    pub fn mid(&self) -> (r: i64)
        ensures
            r == self.mid_spec(),
    {
        sat(self.bid as i128 + self.ask as i128)
    }
}

/// What the model is asked: the lags, the bars, and the books.
#[derive(Debug)]
pub struct Inputs {
    pub row: Row,
    pub lags: Lags,
    pub lake: Vec<Term>,
}

/// The markets that are watched.
pub struct ExceedRule {
    cfg: ExceedCfg,
    lags: Vec<u32>,
    lake_names: Vec<String>,
    hist: Hist,
    lake: LakeFeats,
    evs: StrMap<Watch>,
}

/// The markets that are watched, as the contracts see them.
#[verifier::ext_equal]
pub struct ExceedV {
    pub cfg: ExceedCfg,
    pub lags: Seq<u32>,
    pub lake_names: Seq<Seq<char>>,
    pub hist: HistV,
    pub lake: LakeV,
    pub evs: Map<Seq<char>, Watch>,
}

impl View for ExceedRule {
    type V = ExceedV;

    closed spec fn view(&self) -> ExceedV {
        ExceedV {
            cfg: self.cfg,
            lags: self.lags@,
            lake_names: text::views(self.lake_names@),
            hist: self.hist@,
            lake: self.lake@,
            evs: self.evs@,
        }
    }
}

/// What a look at a market finds.
pub enum GateV {
    Nothing,
    Over,
    Open(Row),
}

/// Whether a book is fit to trade against.
pub open spec fn good_book(t: InstrumentV, cfg: ExceedCfg, now: i64) -> bool {
    &&& 0 < t.best_bid < t.best_ask
    &&& t.best_ask - t.best_bid <= cfg.max_spread
    &&& now - t.recv_ts_ns <= cfg.stale_ms * 1_000_000
}

/// What a look at a market finds: a market that is watched is open in its time, with fresh
/// and narrow books, if the last look is long enough ago.
pub open spec fn gate(r: ExceedV, m: MarketStateV, inst: Seq<char>, now: i64) -> GateV {
    match (state::known_in(m, inst), state::known_in(m, r.cfg.reference@)) {
        (Some(t), Some(p)) => match t.expiry_ts_ns {
            Some(expiry) => {
                let tte = expiry - now;
                if tte <= 0 {
                    GateV::Over
                } else if !r.evs.contains_key(inst) || !(r.cfg.entry_min_tte_ns < tte
                    <= r.cfg.entry_max_tte_ns) || p.mid is None || p.mid->0 <= 0 || now
                    - p.recv_ts_ns > r.cfg.ref_max_age_ms * 1_000_000 || !good_book(t, r.cfg, now)
                    || now - r.evs[inst].last_eval_ns < r.cfg.eval_min_ms * 1_000_000 {
                    GateV::Nothing
                } else {
                    GateV::Open(
                        Row {
                            now,
                            tte_ns: fixed::clamp64(tte) as i64,
                            bid: t.best_bid,
                            ask: t.best_ask,
                            bid_sz: t.bid_sz,
                            ask_sz: t.ask_sz,
                            px: p.mid->0,
                            px_bid_sz: p.bid_sz,
                            px_ask_sz: p.ask_sz,
                        },
                    )
                }
            },
            None => GateV::Nothing,
        },
        _ => GateV::Nothing,
    }
}

/// The state after a look at a market, and what the model is asked: the row, the lags and the
/// bars, where all of them can be told.
pub open spec fn scanned(r: ExceedV, m: MarketStateV, inst: Seq<char>, now: i64) -> (
    ExceedV,
    Option<(Row, LagsV, Seq<Term>)>,
) {
    match gate(r, m, inst, now) {
        GateV::Nothing => (r, None),
        GateV::Over => (
            ExceedV {
                evs: r.evs.remove(inst),
                hist: HistV { yes: r.hist.yes.remove(inst), ..r.hist },
                ..r
            },
            None,
        ),
        GateV::Open(row) => {
            let evs = r.evs.insert(inst, Watch { last_eval_ns: now, ..r.evs[inst] });
            let h = hist::read_up_to(r.hist, now + 1);
            let a = ExceedV { evs, hist: h, ..r };
            match hist::lags_of(h, inst, now, r.lags) {
                Some(l) => {
                    let bar = lake::bar_of(now);
                    if lake::is_gone(r.lake, bar) {
                        (a, None)
                    } else {
                        let k = lake::reaching(r.lake, bar);
                        let b = ExceedV { lake: k, ..a };
                        match lake::terms_of(k.bars, bar - k.first, r.lake_names) {
                            Some(ts) => (b, Some((row, l, ts))),
                            None => (b, None),
                        }
                    }
                },
                None => (a, None),
            }
        },
    }
}

/// The score that counts: zero outside the range of prices.
pub open spec fn counted(cfg: ExceedCfg, mid: i64, s: i64) -> i64 {
    if in_region(cfg, mid) {
        s
    } else {
        0
    }
}

/// A market after a score, and which way it signals, if it does.
pub open spec fn decided(w: Watch, cfg: ExceedCfg, mid: i64, s: i64) -> (Watch, Option<i8>) {
    let sig = counted(cfg, mid, s);
    if !w.armed {
        if sig * w.dir <= cfg.rearm_eps {
            (Watch { armed: true, ..w }, None)
        } else {
            (w, None)
        }
    } else if w.entries >= cfg.max_entries_per_event || fixed::magnitude(sig as int) < cfg.cut {
        (w, None)
    } else {
        let d = fair_ride::way(sig as int);
        (Watch { entries: (w.entries + 1) as u32, armed: false, dir: d, ..w }, Some(d))
    }
}

/// What a reader is told of a score: the score and the odds of the two ways, the mid, the
/// time left, the price of the reference, and the number of the entry.
pub open spec fn score_reason(sig: i64, odds: (i64, i64), row: Row, entry: u32) -> Seq<char> {
    "s="@ + numeral::places(sig as int, 100_000, 10_000, 4, true) + " pup="@ + numeral::places(
        odds.0 as int,
        100_000,
        10_000,
        4,
        false,
    ) + " pdn="@ + numeral::places(odds.1 as int, 100_000, 10_000, 4, false) + " mid="@
        + numeral::places(row.mid_spec() as int, 200, 10_000, 4, false) + " tte="@
        + numeral::places(row.tte_ns as int, 100_000_000, 10, 1, false) + "s px="@
        + numeral::places(row.px as int, 20_000, 100, 2, false) + " entry#"@ + numeral::dec(
        entry as nat,
    )
}

fn score_text(sig: i64, odds: (i64, i64), row: &Row, entry: u32) -> (r: String)
    ensures
        r@ == score_reason(sig, odds, *row, entry),
{
    let mut s = String::new();
    s.append("s=");
    push_places(&mut s, sig, 100_000, 10_000, 4, true);
    s.append(" pup=");
    push_places(&mut s, odds.0, 100_000, 10_000, 4, false);
    s.append(" pdn=");
    push_places(&mut s, odds.1, 100_000, 10_000, 4, false);
    s.append(" mid=");
    push_places(&mut s, row.mid(), 200, 10_000, 4, false);
    s.append(" tte=");
    push_places(&mut s, row.tte_ns, 100_000_000, 10, 1, false);
    s.append("s px=");
    push_places(&mut s, row.px, 20_000, 100, 2, false);
    s.append(" entry#");
    push_u64(&mut s, entry as u64);
    assert(s@ =~= score_reason(sig, odds, *row, entry));
    s
}

/// Whether a signal is that of a score.
pub open spec fn is_signal(
    s: TradeSignal,
    cfg: ExceedCfg,
    inst: Seq<char>,
    row: Row,
    sig: i64,
    odds: (i64, i64),
    entry: u32,
    way: i8,
) -> bool {
    &&& s.strategy@ == "exceed"@
    &&& s.ts_ns == row.now
    &&& s.reason@ == score_reason(sig, odds, row, entry)
    &&& s.reference@ == cfg.reference@
    &&& s.target@ == inst
    &&& s.direction == way
    &&& s.trigger.move_bps == fixed::toward_zero(sig as int, 10)
    &&& s.trigger.window_ms == 1000
    &&& s.trigger.yes_price == (if way > 0 {
        fixed::clamp64(2 * row.ask)
    } else {
        fixed::clamp64(2 * (1_000_000 - row.bid))
    })
    &&& s.trigger.target_move_c is None
    &&& s.hold_ms == cfg.hold_ms
    &&& s.ttl_ms == cfg.ttl_ms
}

/// The state after an event.
pub open spec fn after_event(r: ExceedV, ev: Event) -> ExceedV {
    match ev.payload {
        Payload::Book(b) => if b.instrument@ == r.cfg.reference@ {
            match fair_ride::top_of(b.bids@, b.asks@) {
                Some((mid, _, _)) => ExceedV {
                    hist: hist::after_perp(r.hist, b.recv_ts_ns, mid),
                    ..r
                },
                None => r,
            }
        } else if b.instrument@ == r.cfg.depth_instrument@ {
            ExceedV { lake: lake::after_depth(r.lake, b.recv_ts_ns, b.bids@, b.asks@), ..r }
        } else if text::has_suffix(b.instrument@, ".YES"@) {
            match fair_ride::top_of(b.bids@, b.asks@) {
                Some((mid, _, _)) => ExceedV {
                    hist: hist::after_yes(r.hist, b.instrument@, b.recv_ts_ns, mid),
                    ..r
                },
                None => r,
            }
        } else {
            r
        },
        Payload::Trade(t) => if t.instrument@ == r.cfg.reference@ + ".vol"@ {
            ExceedV { lake: lake::after_vol(r.lake, t.recv_ts_ns, t.qty), ..r }
        } else if t.instrument@ == r.cfg.reference@ + ".volb"@ {
            ExceedV { lake: lake::after_volb(r.lake, t.recv_ts_ns, t.qty, t.price), ..r }
        } else {
            r
        },
        Payload::Meta(m) => if m.status == MarketStatus::Expired || m.status
            == MarketStatus::Resolved {
            ExceedV {
                evs: r.evs.remove(m.instrument@),
                hist: HistV { yes: r.hist.yes.remove(m.instrument@), ..r.hist },
                ..r
            }
        } else if m.strike is Some && !r.evs.contains_key(m.instrument@) {
            ExceedV { evs: r.evs.insert(m.instrument@, fresh()), ..r }
        } else {
            r
        },
        _ => r,
    }
}

/// Whether these are the markets to look at after an event: all of them when the reference
/// moves, a market when its own book does.
pub open spec fn are_looks(v: Seq<Seq<char>>, r: ExceedV, ev: Event) -> bool {
    match ev.payload {
        Payload::Book(b) => if b.instrument@ == r.cfg.reference@ {
            strmap::lists_keys(v, r.evs.dom())
        } else if b.instrument@ != r.cfg.depth_instrument@ && text::has_suffix(
            b.instrument@,
            ".YES"@,
        ) {
            v == seq![b.instrument@]
        } else {
            v.len() == 0
        },
        _ => v.len() == 0,
    }
}

impl ExceedRule {
    /// Whether the histories and the bars are sound.
    pub closed spec fn wf(&self) -> bool {
        &&& self.hist.wf()
        &&& self.lake.wf()
        &&& forall|k: Seq<char>| #[trigger]
            self.evs@.contains_key(k) ==> -1 <= self.evs@[k].dir <= 1
    }

    /// No markets.
    pub fn new(cfg: ExceedCfg, layout: Layout) -> (r: ExceedRule)
        ensures
            r.wf(),
            r@.cfg == cfg,
            r@.lags == layout.lags@,
            r@.lake_names == text::views(layout.lake@),
            r@.hist == hist::nothing_seen(),
            r@.lake == lake::no_bars(),
            r@.evs == Map::<Seq<char>, Watch>::empty(),
    {
        ExceedRule {
            cfg,
            lags: layout.lags,
            lake_names: layout.lake,
            hist: Hist::new(),
            lake: LakeFeats::new(),
            evs: StrMap::new(),
        }
    }

    /// Looks at a market; gives what the model is asked, where all of it can be told.
    pub fn scan(&mut self, inst: &str, state: &MarketState, now: i64) -> (r: Option<Inputs>)
        requires
            old(self).wf(),
        ensures
            final(self).wf(),
            final(self)@ == scanned(old(self)@, state@, inst@, now).0,
            match r {
                Some(x) => scanned(old(self)@, state@, inst@, now).1 == Some(
                    (x.row, x.lags@, x.lake@),
                ),
                None => scanned(old(self)@, state@, inst@, now).1 is None,
            },
    {
        let (t, p) = match (state.get(inst), state.get(self.cfg.reference.as_str())) {
            (Some(t), Some(p)) => (t, p),
            _ => {
                return None;
            },
        };
        let expiry: i64 = match t.expiry_ts_ns {
            Some(e) => e,
            None => {
                return None;
            },
        };
        let tte: i128 = expiry as i128 - now as i128;
        if tte <= 0 {
            let _ = self.evs.remove(inst);
            self.hist.remove(inst);
            return None;
        }
        let w: Watch = match self.evs.get(inst) {
            Some(w) => *w,
            None => {
                return None;
            },
        };
        if !(tte > self.cfg.entry_min_tte_ns as i128 && tte <= self.cfg.entry_max_tte_ns as i128) {
            return None;
        }
        let px: i64 = match p.mid {
            Some(m) => m,
            None => {
                return None;
            },
        };
        if px <= 0 || now as i128 - p.recv_ts_ns as i128 > self.cfg.ref_max_age_ms as i128
            * 1_000_000 {
            return None;
        }
        if !(t.best_bid > 0 && t.best_ask > t.best_bid && t.best_ask as i128 - t.best_bid as i128
            <= self.cfg.max_spread as i128) || now as i128 - t.recv_ts_ns as i128
            > self.cfg.stale_ms as i128 * 1_000_000 {
            return None;
        }
        if (now as i128 - w.last_eval_ns as i128) < self.cfg.eval_min_ms as i128 * 1_000_000 {
            return None;
        }
        self.evs.insert(inst.to_string(), Watch { last_eval_ns: now, ..w });
        let row = Row {
            now,
            tte_ns: sat(tte),
            bid: t.best_bid,
            ask: t.best_ask,
            bid_sz: t.bid_sz,
            ask_sz: t.ask_sz,
            px,
            px_bid_sz: p.bid_sz,
            px_ask_sz: p.ask_sz,
        };
        let lags = match self.hist.hist_block(inst, now, &self.lags, px) {
            Some(l) => l,
            None => {
                return None;
            },
        };
        match self.lake.features(now, &self.lake_names) {
            Some(ts) => Some(Inputs { row, lags, lake: ts }),
            None => None,
        }
    }

    fn counts(&self, mid: i64) -> (r: bool)
        ensures
            r == in_region(self@.cfg, mid),
    {
        let lo: i128 = 2 * self.cfg.px_lo as i128;
        let hi: i128 = 2 * self.cfg.px_hi as i128;
        if same(self.cfg.px_mode.as_str(), "tails") {
            (mid as i128) < lo || mid as i128 > hi
        } else if same(self.cfg.px_mode.as_str(), "band") {
            lo <= mid as i128 && mid as i128 <= hi
        } else {
            true
        }
    }

    /// Decides on a score: one signal for each episode, and no more than their number. The
    /// odds of the two ways are what the score comes from, and are only told to a reader.
    pub fn decide(&mut self, inst: &str, row: &Row, s: i64, odds: (i64, i64)) -> (r: Option<
        TradeSignal,
    >)
        requires
            old(self).wf(),
        ensures
            final(self).wf(),
            ({
                let v = old(self)@;
                if v.evs.contains_key(inst@) {
                    let (w, way) = decided(v.evs[inst@], v.cfg, row.mid_spec(), s);
                    &&& final(self)@ == (ExceedV { evs: v.evs.insert(inst@, w), ..v })
                    &&& r is Some == way is Some
                    &&& r matches Some(x) ==> is_signal(
                        x,
                        v.cfg,
                        inst@,
                        *row,
                        counted(v.cfg, row.mid_spec(), s),
                        odds,
                        w.entries,
                        way->0,
                    )
                } else {
                    r is None && final(self)@ == v
                }
            }),
    {
        let mut w: Watch = match self.evs.get(inst) {
            Some(w) => *w,
            None => {
                return None;
            },
        };
        let mid = row.mid();
        let sig: i64 = if self.counts(mid) {
            s
        } else {
            0
        };
        if !w.armed {
            let signed: i128 = if w.dir > 0 {
                sig as i128
            } else if w.dir < 0 {
                -(sig as i128)
            } else {
                0
            };
            proof {
                let d = w.dir as int;
                let x = sig as int;
                assert(x * d == if d > 0 {
                    x
                } else if d < 0 {
                    -x
                } else {
                    0
                }) by (nonlinear_arith)
                    requires
                        -1 <= d <= 1,
                ;
            }
            if signed <= self.cfg.rearm_eps as i128 {
                w.armed = true;
            }
            self.evs.insert(inst.to_string(), w);
            return None;
        }
        if w.entries >= self.cfg.max_entries_per_event || abs64(sig) < self.cfg.cut as i128 {
            self.evs.insert(inst.to_string(), w);
            return None;
        }
        let d: i8 = if sig > 0 {
            1
        } else {
            -1
        };
        w.entries = w.entries + 1;
        w.armed = false;
        w.dir = d;
        self.evs.insert(inst.to_string(), w);
        Some(
            TradeSignal {
                strategy: "exceed".to_string(),
                ts_ns: row.now,
                reason: score_text(sig, odds, row, w.entries),
                reference: self.cfg.reference.clone(),
                target: inst.to_string(),
                direction: d,
                trigger: Trigger {
                    move_bps: div_toward_zero(sig, 10),
                    window_ms: 1000,
                    yes_price: if d > 0 {
                        sat(2 * row.ask as i128)
                    } else {
                        sat(2 * (1_000_000 - row.bid as i128))
                    },
                    target_move_c: None,
                },
                hold_ms: self.cfg.hold_ms,
                ttl_ms: self.cfg.ttl_ms,
            },
        )
    }

    /// Takes an event in, and gives the markets to look at.
    pub fn on_event(&mut self, ev: &Event) -> (r: Vec<String>)
        requires
            old(self).wf(),
        ensures
            final(self).wf(),
            final(self)@ == after_event(old(self)@, *ev),
            are_looks(text::views(r@), old(self)@, *ev),
    {
        let mut out: Vec<String> = Vec::new();
        match &ev.payload {
            Payload::Book(b) => {
                if same(b.instrument.as_str(), self.cfg.reference.as_str()) {
                    if let Some((mid, _, _)) = read_top(&b.bids, &b.asks) {
                        self.hist.on_perp(b.recv_ts_ns, mid);
                    }
                    out = self.evs.keys();
                } else if same(b.instrument.as_str(), self.cfg.depth_instrument.as_str()) {
                    self.lake.on_depth(b.recv_ts_ns, &b.bids, &b.asks);
                } else if ends_with(b.instrument.as_str(), ".YES") {
                    if let Some((mid, _, _)) = read_top(&b.bids, &b.asks) {
                        self.hist.on_yes(b.instrument.as_str(), b.recv_ts_ns, mid);
                    }
                    out.push(b.instrument.clone());
                    assert(text::views(out@) =~= seq![b.instrument@]);
                }
            },
            Payload::Trade(t) => {
                let vol = joined(self.cfg.reference.as_str(), ".vol");
                let volb = joined(self.cfg.reference.as_str(), ".volb");
                if same(t.instrument.as_str(), vol.as_str()) {
                    self.lake.on_vol(t.recv_ts_ns, t.qty);
                } else if same(t.instrument.as_str(), volb.as_str()) {
                    self.lake.on_volb(t.recv_ts_ns, t.qty, t.price);
                }
            },
            Payload::Meta(m) => {
                let over: bool = match m.status {
                    MarketStatus::Expired => true,
                    MarketStatus::Resolved => true,
                    _ => false,
                };
                if over {
                    let _ = self.evs.remove(m.instrument.as_str());
                    self.hist.remove(m.instrument.as_str());
                } else if m.strike.is_some() && !self.evs.contains(m.instrument.as_str()) {
                    self.evs.insert(
                        m.instrument.clone(),
                        Watch { armed: true, dir: 0, entries: 0, last_eval_ns: 0 },
                    );
                }
            },
            _ => {},
        }
        out
    }
}

/// One signal for each episode: a signal disarms the market, and a market that is not armed
/// gives none.
pub proof fn law_signals_disarm(w: Watch, cfg: ExceedCfg, mid: i64, s: i64)
    ensures
        decided(w, cfg, mid, s).1 is Some ==> w.armed && !decided(w, cfg, mid, s).0.armed,
        !w.armed ==> decided(w, cfg, mid, s).1 is None,
        w.entries <= cfg.max_entries_per_event ==> decided(w, cfg, mid, s).0.entries
            <= cfg.max_entries_per_event,
{
}

/// Outside the range of prices nothing is signalled, and a market rearms.
pub proof fn law_the_range_is_kept(w: Watch, cfg: ExceedCfg, mid: i64, s: i64)
    requires
        !in_region(cfg, mid),
        cfg.cut > 0,
        cfg.rearm_eps >= 0,
    ensures
        decided(w, cfg, mid, s).1 is None,
        decided(w, cfg, mid, s).0.armed,
{
    assert(0 * w.dir == 0) by (nonlinear_arith);
}

/// An armed market signals exactly where its entries are not used up, its mid is in the
/// range, and the score is at least the cut, up or down; the signal goes the way of the
/// score. One that is not armed rearms where the score has come back to within the
/// hysteresis, seen the way of its last signal.
pub proof fn law_scores_past_the_cut_signal(w: Watch, cfg: ExceedCfg, mid: i64, s: i64)
    requires
        cfg.cut > 0,
        w.dir == 1 || w.dir == -1 || w.armed,
    ensures
        ({
            let (u, d) = decided(w, cfg, mid, s);
            let tails = cfg.px_mode@ == "tails"@;
            let in_band = cfg.px_mode@ == "band"@ && cfg.px_mode@ != "tails"@;
            let fit = (tails ==> mid < 2 * cfg.px_lo || 2 * cfg.px_hi < mid) && (in_band ==> 2
                * cfg.px_lo <= mid && mid <= 2 * cfg.px_hi);
            &&& w.armed ==> (d is Some <==> w.entries < cfg.max_entries_per_event && fit && (s
                >= cfg.cut || s <= -cfg.cut))
            &&& w.armed && d is Some ==> (s > 0 <==> d == Some(1i8)) && (s < 0 <==> d == Some(
                -1i8,
            )) && u.entries == w.entries + 1 && !u.armed && Some(u.dir) == d
            &&& w.armed && d is None ==> u == w
            &&& !w.armed && fit && w.dir == 1 ==> (u.armed <==> s <= cfg.rearm_eps)
            &&& !w.armed && fit && w.dir == -1 ==> (u.armed <==> -s <= cfg.rearm_eps)
            &&& !w.armed ==> u.entries == w.entries && u.dir == w.dir
            &&& u.last_eval_ns == w.last_eval_ns
        }),
{
}

/// A signal goes the way it was decided, at the ask where it goes up, and at what the other
/// side costs, one less the bid, where it goes down.
pub proof fn law_scores_buy_the_side_they_favour(
    s: TradeSignal,
    cfg: ExceedCfg,
    inst: Seq<char>,
    row: Row,
    sig: i64,
    odds: (i64, i64),
    entry: u32,
    way: i8,
)
    requires
        is_signal(s, cfg, inst, row, sig, odds, entry, way),
        0 <= row.bid <= row.ask <= 1_000_000,
    ensures
        s.direction == way,
        s.target@ == inst,
        s.ts_ns == row.now,
        way == 1 ==> s.trigger.yes_price == 2 * row.ask,
        way == -1 ==> s.trigger.yes_price == 2_000_000 - 2 * row.bid,
        sig >= 0 ==> s.trigger.move_bps * 10 <= sig < s.trigger.move_bps * 10 + 10,
{
}

/// A look asks exactly where the market is watched and in its time, both books are fresh, the
/// market's is two-sided within the widest spread, and the last look is long enough ago.
pub proof fn law_what_a_look_asks_about(r: ExceedV, m: MarketStateV, inst: Seq<char>, now: i64)
    requires
        m.instruments.contains_key(inst),
        m.instruments.contains_key(r.cfg.reference@),
        r.evs.contains_key(inst),
        m.instruments[inst].expiry_ts_ns is Some,
    ensures
        ({
            let t = m.instruments[inst];
            let p = m.instruments[r.cfg.reference@];
            let left = t.expiry_ts_ns->0 - now;
            let g = gate(r, m, inst, now);
            &&& g is Over <==> left <= 0
            &&& g is Open <==> left > 0 && left > r.cfg.entry_min_tte_ns && left
                <= r.cfg.entry_max_tte_ns && (p.mid is Some && p.mid->0 > 0) && now - p.recv_ts_ns
                <= r.cfg.ref_max_age_ms * 1_000_000 && 0 < t.best_bid && t.best_bid < t.best_ask
                && t.best_ask - t.best_bid <= r.cfg.max_spread && now - t.recv_ts_ns
                <= r.cfg.stale_ms * 1_000_000 && now - r.evs[inst].last_eval_ns
                >= r.cfg.eval_min_ms * 1_000_000
            &&& g matches GateV::Open(row) ==> {
                &&& row.now == now && row.bid == t.best_bid && row.ask == t.best_ask
                &&& row.bid_sz == t.bid_sz && row.ask_sz == t.ask_sz && row.px == p.mid->0
                &&& row.px_bid_sz == p.bid_sz && row.px_ask_sz == p.ask_sz
                &&& left <= i64::MAX ==> row.tte_ns == left
            }
        }),
{
}

/// Which event goes where: books of the reference to its history, of the depth instrument and
/// the two volumes to the bars, of a market to its history; a market that is over is let go.
pub proof fn law_events_go_where_they_belong(r: ExceedV, ev: Event)
    ensures
        ({
            let n = after_event(r, ev);
            &&& ev.payload matches Payload::Book(b) ==> n.evs == r.evs && (b.instrument@
                == r.cfg.reference@ ==> n.lake == r.lake && n.hist.yes == r.hist.yes) && (
            b.instrument@ == r.cfg.depth_instrument@ && b.instrument@ != r.cfg.reference@ ==> n.hist
                == r.hist) && (b.instrument@ != r.cfg.reference@ ==> n.hist.perp == r.hist.perp)
            &&& ev.payload matches Payload::Trade(t) ==> n.hist == r.hist && n.evs == r.evs
            &&& ev.payload matches Payload::Meta(m) ==> n.lake == r.lake && (m.status
                == MarketStatus::Expired || m.status == MarketStatus::Resolved
                ==> !n.evs.contains_key(m.instrument@) && !n.hist.yes.contains_key(m.instrument@))
                && (m.status == MarketStatus::Live && m.strike is Some ==> n.evs.contains_key(
                m.instrument@,
            ))
        }),
{
    if let Payload::Book(b) = ev.payload {
        if b.instrument@ == r.cfg.reference@ {
            if let Some(t) = fair_ride::top_of(b.bids@, b.asks@) {
                hist::law_readings_are_of_what_held(r.hist, b.recv_ts_ns, t.0);
            }
        }
    }
}

/// A look reads the grid up to its instant, that instant included, and notes when it was.
pub proof fn law_looks_read_the_grid(r: ExceedV, m: MarketStateV, inst: Seq<char>, now: i64)
    requires
        gate(r, m, inst, now) is Open,
        r.hist.grid is Some,
    ensures
        scanned(r, m, inst, now).0.hist.grid matches Some(g) && g.next_ns > now,
        scanned(r, m, inst, now).0.evs.contains_key(inst),
        scanned(r, m, inst, now).0.evs[inst].last_eval_ns == now,
        r.evs.contains_key(inst) ==> scanned(r, m, inst, now).0.evs[inst].armed == r.evs[inst].armed
            && scanned(r, m, inst, now).0.evs[inst].entries == r.evs[inst].entries,
        scanned(r, m, inst, now).1 matches Some(x) ==> gate(r, m, inst, now) == GateV::Open(x.0),
{
    hist::law_grids_are_read_up_to_the_instant(r.hist.grid->0, now + 1, r.hist.perp_last);
}

/// A market that is over is let go, and a look that finds nothing changes nothing.
pub proof fn law_looks_let_go_of_what_is_over(r: ExceedV, m: MarketStateV, inst: Seq<char>, now: i64)
    ensures
        gate(r, m, inst, now) is Over ==> !scanned(r, m, inst, now).0.evs.contains_key(inst)
            && !scanned(r, m, inst, now).0.hist.yes.contains_key(inst) && scanned(
            r,
            m,
            inst,
            now,
        ).1 is None,
        gate(r, m, inst, now) is Nothing ==> scanned(r, m, inst, now) == (
            r,
            None::<(Row, LagsV, Seq<Term>)>,
        ),
{
}

/// The columns that a model names are taken in their own order, whatever the order of the
/// groups, and a model is accepted only where its inputs are two for each lag, one for each
/// column and feature, and five more.
pub proof fn law_models_name_their_inputs(
    kind: Seq<char>,
    feat: Seq<char>,
    n_lags: int,
    lake_list: Seq<Seq<char>>,
    nf: int,
    i: int,
)
    requires
        layout_error(kind, feat, n_lags, lake_list, nf) is None,
    ensures
        kind == "exceed"@,
        groups_of(feat).contains("hist"@),
        0 <= i < groups_of(feat).len() ==> is_group(groups_of(feat)[i]),
        0 <= i < lake_list.len() ==> is_lake_name(lake_list[i]),
        2 * n_lags + cols_in(groups_of(feat), cols()).len() + lake_list.len() + 5 == nf,
        lake_list.len() == lake_in(groups_of(feat)).len(),
{
}

/// What the model is asked: the lags at the instant of the look, and the features of the bar
/// of that instant.
pub proof fn law_looks_ask_about_their_instant(r: ExceedV, m: MarketStateV, inst: Seq<char>, now: i64)
    ensures
        scanned(r, m, inst, now).1 matches Some(x) ==> {
            let n = scanned(r, m, inst, now).0;
            &&& lake::terms_of(n.lake.bars, now as int / 100_000_000 - n.lake.first, r.lake_names)
                == Some(x.2)
            &&& hist::lags_of(n.hist, inst, now, r.lags) == Some(x.1)
        },
{
}

/// A group is a book column exactly where it has the name of one.
pub proof fn law_book_columns_by_name(g: Seq<char>)
    ensures
        is_col(g) <==> g == col_name(BookCol::BidSize) || g == col_name(BookCol::AskSize) || g
            == col_name(BookCol::Imbalance) || g == col_name(BookCol::MicroPrice) || g == col_name(
            BookCol::RefBidSize,
        ) || g == col_name(BookCol::RefAskSize),
{
}

} // verus!
