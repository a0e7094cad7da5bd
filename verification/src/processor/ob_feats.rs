//! The flow of an order book in bars of a tenth of a second: what is counted in each bar, and
//! what the counters come to over a second, ten seconds and a minute. Logarithms and moving
//! averages are taken outside, from the bars that are closed.
use vstd::prelude::*;
use std::collections::VecDeque;
use crate::fixed;
use crate::fixed::{div_toward_zero, sat};
use crate::text;
use crate::text::same;

verus! {

/// The best quotes: bid and its size, ask and its size.
#[derive(Clone, Copy, Debug, PartialEq, Eq, Structural)]
pub struct Best {
    pub bid: i64,
    pub bid_sz: i64,
    pub ask: i64,
    pub ask_sz: i64,
}

/// What came to one side: all of a new better level, less all of a level that is gone, or the
/// change of a level that stayed.
pub open spec fn side_flow(better: bool, worse: bool, sz: i64, before: i64) -> int {
    if better {
        sz as int
    } else if worse {
        -before
    } else {
        sz - before
    }
}

/// The order flow between two tops of book: what came to the bid less what came to the ask.
pub open spec fn flow_of(a: Best, b: Best) -> int {
    side_flow(b.bid > a.bid, b.bid < a.bid, b.bid_sz, a.bid_sz) - side_flow(
        b.ask < a.ask,
        b.ask > a.ask,
        b.ask_sz,
        a.ask_sz,
    )
}

fn one_side(better: bool, worse: bool, sz: i64, before: i64) -> (r: i128)
    ensures
        r == side_flow(better, worse, sz, before),
        -20_000_000_000_000_000_000 <= r <= 20_000_000_000_000_000_000,
{
    if better {
        sz as i128
    } else if worse {
        -(before as i128)
    } else {
        sz as i128 - before as i128
    }
}

fn order_flow(a: &Best, b: &Best) -> (r: i128)
    ensures
        r == flow_of(*a, *b),
        -40_000_000_000_000_000_000 <= r <= 40_000_000_000_000_000_000,
{
    one_side(b.bid > a.bid, b.bid < a.bid, b.bid_sz, a.bid_sz) - one_side(
        b.ask < a.ask,
        b.ask > a.ask,
        b.ask_sz,
        a.ask_sz,
    )
}

/// A count that goes on by `d`, cut to its range.
pub open spec fn plus(x: i64, d: int) -> i64 {
    fixed::clamp64(x + d) as i64
}

fn go_on(x: i64, d: i128) -> (r: i64)
    requires
        -40_000_000_000_000_000_000 <= d <= 40_000_000_000_000_000_000,
    ensures
        r == plus(x, d as int),
{
    sat(x as i128 + d)
}

/// What was traded in a bar.
#[derive(Clone, Copy, Debug, PartialEq, Eq)]
pub struct Traded {
    /// All that was traded.
    pub vol: i64,
    /// What was bought, and how many trades there were; nothing where that feed was not there
    /// yet when the bar began.
    pub flow: Option<(i64, i64)>,
}

/// What one bar adds to the counters of the windows.
#[derive(Clone, Copy, Debug, PartialEq, Eq, Structural)]
pub struct Added {
    /// The order flow of the deep book.
    pub ofi: i64,
    /// How often a best price changed.
    pub moves: i64,
    pub vol: i64,
    pub buy: i64,
    pub cnt: i64,
    /// What was traded in large prints.
    pub big: i64,
    /// Whether the bar had a volume but no flow: what was bought in it cannot be told.
    pub no_flow: bool,
}

/// What the counters come to.
#[derive(Clone, Copy, Debug, PartialEq, Eq, Structural)]
pub struct Sums {
    pub ofi: i128,
    pub moves: i128,
    pub vol: i128,
    pub buy: i128,
    pub cnt: i128,
    pub big: i128,
}

/// The sum of the last `n` bars, bar by bar.
pub open spec fn last_sums(s: Seq<Added>, n: int) -> (int, int, int, int, int, int)
    decreases n,
{
    if n <= 0 || s.len() == 0 {
        (0, 0, 0, 0, 0, 0)
    } else {
        let a = s.last();
        let (o, m, v, b, c, g) = last_sums(s.drop_last(), n - 1);
        (o + a.ofi, m + a.moves, v + a.vol, b + a.buy, c + a.cnt, g + a.big)
    }
}

/// Whether the sums are those of the last `n` bars.
pub open spec fn are_sums(x: Sums, s: Seq<Added>, n: int) -> bool {
    last_sums(s, n) == (
        x.ofi as int,
        x.moves as int,
        x.vol as int,
        x.buy as int,
        x.cnt as int,
        x.big as int,
    )
}

/// One bar that is closed.
#[derive(Debug)]
pub struct ClosedBar {
    pub bar: i64,
    /// Whether the top of book is known and not stale.
    pub valid: bool,
    /// The order flow of the top of book.
    pub ofi: i64,
    /// The flow of the first five levels; nothing before the first deep book.
    pub ofl5: Option<i64>,
    /// What was traded; nothing before both feeds are there.
    pub trades: Option<Traded>,
    /// How many tops of book there were.
    pub updates: i64,
    /// Twice the mid, in micro-units; nothing before the first top of book.
    pub mid: Option<i128>,
    /// How many bars the mid has stood, 600 at most.
    pub stood: i64,
    /// The order flow of the deep book; nothing before the first deep book.
    pub dofi: Option<i64>,
    /// The largest step of the volume; nothing before the feed is there.
    pub largest: Option<i64>,
    /// The mids between which the deep book moved, from and to.
    pub moves: Vec<(i64, i64)>,
}

/// A bar that is closed, as the contracts see it.
pub struct ClosedV {
    pub bar: i64,
    pub valid: bool,
    pub ofi: i64,
    pub ofl5: Option<i64>,
    pub trades: Option<Traded>,
    pub updates: i64,
    pub mid: Option<i128>,
    pub stood: i64,
    pub dofi: Option<i64>,
    pub largest: Option<i64>,
    pub moves: Seq<(i64, i64)>,
}

impl View for ClosedBar {
    type V = ClosedV;

    open spec fn view(&self) -> ClosedV {
        ClosedV {
            bar: self.bar,
            valid: self.valid,
            ofi: self.ofi,
            ofl5: self.ofl5,
            trades: self.trades,
            updates: self.updates,
            mid: self.mid,
            stood: self.stood,
            dofi: self.dofi,
            largest: self.largest,
            moves: self.moves@,
        }
    }
}

/// The views of a run of bars.
pub open spec fn bar_views(s: Seq<ClosedBar>) -> Seq<ClosedV> {
    Seq::new(s.len(), |i: int| s[i]@)
}

/// The sum of the sizes of some levels.
pub open spec fn size_total(s: Seq<(i64, i64)>) -> int
    decreases s.len(),
{
    if s.len() == 0 {
        0
    } else {
        size_total(s.drop_last()) + s.last().1
    }
}

/// The size of the first five levels of a side.
pub fn five_sizes(levels: &Vec<(i64, i64)>) -> (r: i64)
    ensures
        r == fixed::clamp64(
            size_total(levels@.take(fixed::smaller(levels@.len() as int, 5))),
        ),
{
    let n: usize = if levels.len() < 5 {
        levels.len()
    } else {
        5
    };
    let mut sum: i128 = 0;
    let mut i: usize = 0;
    assert(levels@.take(0) =~= Seq::<(i64, i64)>::empty());
    while i < n
        invariant
            i <= n <= levels@.len(),
            n <= 5,
            sum == size_total(levels@.take(i as int)),
            -9223372036854775808 * i <= sum <= 9223372036854775807 * i,
        decreases n - i,
    {
        assert(levels@.take(i + 1).drop_last() =~= levels@.take(i as int));
        sum = sum + levels[i].1 as i128;
        i = i + 1;
    }
    sat(sum)
}

/// The bar clock and everything that is counted.
pub struct ObFeats {
    top: Option<Best>,
    deep5: Option<(i64, i64)>,
    deep: Option<Best>,
    vol: Option<i64>,
    buys: Option<(i64, i64)>,
    opening: Option<i64>,
    opening_buys: Option<(i64, i64)>,
    bar: Option<i64>,
    ofi: i64,
    ofl5: i64,
    updates: i64,
    dofi: i64,
    largest: i64,
    stale: i64,
    stood: i64,
    last_mid: Option<i128>,
    ready: bool,
    moved: i64,
    big: i64,
    moves: Vec<(i64, i64)>,
    deep_mid: Option<i64>,
    deep_spread: Option<i64>,
    held: Option<(i64, i64)>,
    spread_time: i64,
    added: VecDeque<Added>,
    mids: VecDeque<Option<i64>>,
    spreads: VecDeque<i64>,
    spread_sum: i128,
}

/// The bar clock and everything that is counted, as the contracts see it.
#[verifier::ext_equal]
pub struct ObV {
    /// The last top of book.
    pub top: Option<Best>,
    /// The sizes of the first five levels of the last deep book.
    pub deep5: Option<(i64, i64)>,
    /// The best quotes of the last deep book.
    pub deep: Option<Best>,
    /// The counters as they were last seen.
    pub vol: Option<i64>,
    pub buys: Option<(i64, i64)>,
    /// The counters when the bar began.
    pub opening: Option<i64>,
    pub opening_buys: Option<(i64, i64)>,
    /// The bar that is open.
    pub bar: Option<i64>,
    /// What is counted in it.
    pub ofi: i64,
    pub ofl5: i64,
    pub updates: i64,
    pub dofi: i64,
    pub largest: i64,
    /// How many bars had no top of book.
    pub stale: i64,
    /// How many bars the mid has stood, and what it was.
    pub stood: i64,
    pub last_mid: Option<i128>,
    /// Whether there was ever a valid bar.
    pub ready: bool,
    pub moved: i64,
    pub big: i64,
    pub moves: Seq<(i64, i64)>,
    /// The mid of the deep book, in halves of a micro-unit, as of its last move.
    pub deep_mid: Option<i64>,
    /// The spread of the deep book.
    pub deep_spread: Option<i64>,
    /// The instant and the spread from which the spread is held.
    pub held: Option<(i64, i64)>,
    /// The spread over time in this bar: micro-units times nanoseconds.
    pub spread_time: i64,
    /// The last 601 bars: what they added, and the mid at their end.
    pub added: Seq<Added>,
    pub mids: Seq<Option<i64>>,
    /// The spread over time in the last 18000 bars.
    pub spreads: Seq<i64>,
}

impl View for ObFeats {
    type V = ObV;

    closed spec fn view(&self) -> ObV {
        ObV {
            top: self.top,
            deep5: self.deep5,
            deep: self.deep,
            vol: self.vol,
            buys: self.buys,
            opening: self.opening,
            opening_buys: self.opening_buys,
            bar: self.bar,
            ofi: self.ofi,
            ofl5: self.ofl5,
            updates: self.updates,
            dofi: self.dofi,
            largest: self.largest,
            stale: self.stale,
            stood: self.stood,
            last_mid: self.last_mid,
            ready: self.ready,
            moved: self.moved,
            big: self.big,
            moves: self.moves@,
            deep_mid: self.deep_mid,
            deep_spread: self.deep_spread,
            held: self.held,
            spread_time: self.spread_time,
            added: self.added@,
            mids: self.mids@,
            spreads: self.spreads@,
        }
    }
}

/// `s` with one more, and without its first where there are then more than `cap`.
pub open spec fn capped<T>(s: Seq<T>, x: T, cap: int) -> Seq<T> {
    if s.len() + 1 > cap {
        s.push(x).skip(1)
    } else {
        s.push(x)
    }
}

/// What was traded in the bar: nothing can be told before both feeds are there, and the first
/// bar that the volume is there for counts nothing. Where the volume came first, the bar in
/// which the other feed comes has no flow.
pub open spec fn trades_of(v: ObV) -> Option<Traded> {
    match (v.vol, v.buys) {
        (Some(vol), Some((buy, cnt))) => Some(
            match v.opening {
                Some(vol0) => Traded {
                    vol: fixed::clamp64(vol - vol0) as i64,
                    flow: match v.opening_buys {
                        Some((buy0, cnt0)) => Some(
                            (
                                fixed::clamp64(buy - buy0) as i64,
                                fixed::clamp64(cnt - cnt0) as i64,
                            ),
                        ),
                        None => None,
                    },
                },
                None => Traded { vol: 0, flow: Some((0, 0)) },
            },
        ),
        _ => None,
    }
}

/// Whether the bar has a volume but no flow.
pub open spec fn loses_flow(v: ObV) -> bool {
    trades_of(v) matches Some(t) && t.flow is None
}

/// How many bars have had no top of book, this one counted.
pub open spec fn stale_after(v: ObV) -> i64 {
    if v.updates == 0 {
        plus(v.stale, 1)
    } else {
        0
    }
}

/// Whether the bar counts: the top of book is known, and at most twenty bars old.
pub open spec fn is_valid(v: ObV) -> bool {
    v.top is Some && stale_after(v) <= 20
}

/// Twice the mid of the top of book.
pub open spec fn mid_of(v: ObV) -> Option<i128> {
    match v.top {
        Some(t) => Some((t.bid + t.ask) as i128),
        None => None,
    }
}

/// Whether the mid is a new one.
pub open spec fn is_new_mid(v: ObV) -> bool {
    is_valid(v) && v.last_mid != mid_of(v)
}

/// How many bars the mid has stood, this one counted.
pub open spec fn stood_after(v: ObV) -> i64 {
    if is_new_mid(v) {
        0
    } else {
        fixed::smaller(v.stood + 1, 600) as i64
    }
}

/// What the bar adds to the windows.
pub open spec fn added_of(v: ObV) -> Added {
    let t = trades_of(v);
    Added {
        ofi: if v.deep is Some {
            v.dofi
        } else {
            0
        },
        moves: v.moved,
        vol: match t {
            Some(c) => c.vol,
            None => 0,
        },
        buy: match t {
            Some(Traded { vol, flow: Some((buy, cnt)) }) => buy,
            _ => 0,
        },
        cnt: match t {
            Some(Traded { vol, flow: Some((buy, cnt)) }) => cnt,
            _ => 0,
        },
        big: v.big,
        no_flow: loses_flow(v),
    }
}

/// The bar that is open, as it is closed.
pub open spec fn closing(v: ObV, bar: i64) -> ClosedV {
    ClosedV {
        bar,
        valid: is_valid(v),
        ofi: v.ofi,
        ofl5: if v.deep5 is Some {
            Some(v.ofl5)
        } else {
            None
        },
        trades: trades_of(v),
        updates: v.updates,
        mid: mid_of(v),
        stood: stood_after(v),
        dofi: if v.deep is Some {
            Some(v.dofi)
        } else {
            None
        },
        largest: if v.buys is Some {
            Some(v.largest)
        } else {
            None
        },
        moves: v.moves,
    }
}

/// The state once the bar is closed: the counts begin anew.
pub open spec fn closed_bar(v: ObV) -> ObV {
    ObV {
        opening: v.vol,
        opening_buys: v.buys,
        bar: match v.bar {
            Some(b) => Some(plus(b, 1)),
            None => None,
        },
        ofi: 0,
        ofl5: 0,
        updates: 0,
        dofi: 0,
        largest: 0,
        stale: stale_after(v),
        stood: stood_after(v),
        last_mid: if is_new_mid(v) {
            mid_of(v)
        } else {
            v.last_mid
        },
        ready: v.ready || is_valid(v),
        moved: 0,
        big: 0,
        moves: Seq::empty(),
        spread_time: 0,
        added: capped(v.added, added_of(v), 601),
        mids: capped(v.mids, v.deep_mid, 601),
        spreads: capped(v.spreads, v.spread_time, 18000),
        ..v
    }
}

/// How many bars are to be closed.
pub open spec fn behind(v: ObV, bar: int) -> nat {
    match v.bar {
        Some(b) => if b < bar {
            (bar - b) as nat
        } else {
            0
        },
        None => 0,
    }
}

/// The state at a bar, and the bars that were closed on the way.
pub open spec fn rolled(v: ObV, bar: i64) -> (ObV, Seq<ClosedV>)
    decreases behind(v, bar as int),
{
    match v.bar {
        None => (ObV { bar: Some(bar), ..v }, Seq::empty()),
        Some(b) => if b < bar {
            let (u, s) = rolled(closed_bar(v), bar);
            (u, seq![closing(v, b)] + s)
        } else {
            (v, Seq::empty())
        },
    }
}

/// The bar of an instant.
pub open spec fn bar_of(ts_ns: i64) -> i64 {
    fixed::toward_zero(ts_ns as int, 100_000_000) as i64
}

/// The state after a top of book, in its bar.
pub open spec fn after_top(v: ObV, b: Best) -> ObV {
    ObV {
        ofi: match v.top {
            Some(a) => plus(v.ofi, flow_of(a, b)),
            None => v.ofi,
        },
        top: Some(b),
        updates: plus(v.updates, 1),
        ..v
    }
}

/// The state after the sizes of the first five levels, in their bar.
pub open spec fn after_deep5(v: ObV, b5: i64, a5: i64) -> ObV {
    ObV {
        ofl5: match v.deep5 {
            Some((b, a)) => plus(v.ofl5, (b5 - b) - (a5 - a)),
            None => v.ofl5,
        },
        deep5: Some((b5, a5)),
        ..v
    }
}

/// How much spread was held over how much time, since it was last looked at.
pub open spec fn held_since(v: ObV, ts_ns: i64) -> int {
    match v.held {
        Some((t, s)) => if ts_ns > t {
            fixed::clamp64(s * fixed::clamp64(ts_ns - t))
        } else {
            0
        },
        None => 0,
    }
}

/// The state after the best quotes of a deep book, in their bar. Only a change of price counts
/// as a move.
pub open spec fn after_deep(v: ObV, ts_ns: i64, b: Best) -> ObV {
    let mid = fixed::clamp64(b.bid + b.ask) as i64;
    let spread = (b.ask - b.bid) as i64;
    match v.deep {
        Some(a) => {
            let changed = a.bid != b.bid || a.ask != b.ask;
            ObV {
                deep: Some(b),
                dofi: plus(v.dofi, flow_of(a, b)),
                spread_time: plus(v.spread_time, held_since(v, ts_ns)),
                held: Some((ts_ns, spread)),
                deep_spread: Some(spread),
                moves: if changed && v.deep_mid is Some {
                    v.moves.push((v.deep_mid->0, mid))
                } else {
                    v.moves
                },
                moved: if changed {
                    plus(v.moved, 1)
                } else {
                    v.moved
                },
                deep_mid: if changed || v.deep_mid is None {
                    Some(mid)
                } else {
                    v.deep_mid
                },
                ..v
            }
        },
        None => ObV {
            deep: Some(b),
            deep_mid: if v.deep_mid is None {
                Some(mid)
            } else {
                v.deep_mid
            },
            deep_spread: if v.deep_mid is None {
                Some(spread)
            } else {
                v.deep_spread
            },
            ..v
        },
    }
}

/// The state after a reading of the volume, in its bar. A step of a whole unit or more is a
/// large print.
pub open spec fn after_vol(v: ObV, cum: i64) -> ObV {
    match v.vol {
        Some(p) => if cum > p {
            let d = fixed::clamp64(cum - p) as i64;
            ObV {
                vol: Some(cum),
                largest: fixed::larger(v.largest as int, d as int) as i64,
                big: if d >= 1_000_000 {
                    plus(v.big, d as int)
                } else {
                    v.big
                },
                ..v
            }
        } else {
            ObV { vol: Some(cum), ..v }
        },
        None => ObV { vol: Some(cum), ..v },
    }
}

/// The sum of the spreads over time.
pub open spec fn spread_total(s: Seq<i64>) -> int
    decreases s.len(),
{
    if s.len() == 0 {
        0
    } else {
        spread_total(s.drop_last()) + s.last()
    }
}

proof fn lemma_spread_bound(s: Seq<i64>)
    ensures
        -10_000_000_000_000_000_000 * s.len() <= spread_total(s) <= 10_000_000_000_000_000_000
            * s.len(),
    decreases s.len(),
{
    if s.len() > 0 {
        lemma_spread_bound(s.drop_last());
    }
}

proof fn lemma_spread_front(s: Seq<i64>)
    requires
        s.len() > 0,
    ensures
        spread_total(s) == s[0] + spread_total(s.skip(1)),
    decreases s.len(),
{
    if s.len() == 1 {
        assert(s.drop_last() =~= Seq::<i64>::empty());
        assert(s.skip(1) =~= Seq::<i64>::empty());
    } else {
        lemma_spread_front(s.drop_last());
        assert(s.drop_last().skip(1) =~= s.skip(1).drop_last());
        assert(s.skip(1).last() == s.last());
    }
}

/// What the windows of a second, of ten and of sixty come to, with the mids at both ends.
#[derive(Clone, Copy, Debug, PartialEq, Eq, Structural)]
pub struct Window {
    pub sums: Sums,
    pub mid_then: i64,
    pub mid_now: i64,
}

/// The three windows, and the spread of the deep book.
#[derive(Clone, Copy, Debug, PartialEq, Eq, Structural)]
pub struct Windows {
    pub second: Window,
    pub ten: Window,
    pub minute: Window,
    pub spread: i64,
}

/// Whether a window is that of the last `n` bars.
pub open spec fn is_window(w: Window, v: ObV, n: int) -> bool {
    &&& are_sums(w.sums, v.added, n)
    &&& v.mids[v.mids.len() - 1 - n] == Some(w.mid_then)
    &&& v.mids.last() == Some(w.mid_now)
}

/// Whether the windows can be told: a minute of bars is there, with the mids at all their
/// ends, and what was bought in each.
pub open spec fn has_windows(v: ObV) -> bool {
    &&& v.added.len() > 600
    &&& forall|i: int|
        v.added.len() - 600 <= i < v.added.len() ==> !(#[trigger] v.added[i]).no_flow
    &&& v.mids.len() > 600
    &&& v.mids.last() is Some
    &&& v.mids[v.mids.len() - 11] is Some
    &&& v.mids[v.mids.len() - 101] is Some
    &&& v.mids[v.mids.len() - 601] is Some
    &&& v.deep_spread is Some
}

/// Whether the mean spread of half an hour can be told: 18000 bars are there, in which the
/// book was seen.
pub open spec fn has_spread_mean(v: ObV) -> bool {
    v.spreads.len() >= 18000 && spread_total(v.spreads) > 0
}

/// The state before anything was seen.
pub open spec fn fresh() -> ObV {
    ObV {
        top: None,
        deep5: None,
        deep: None,
        vol: None,
        buys: None,
        opening: None,
        opening_buys: None,
        bar: None,
        ofi: 0,
        ofl5: 0,
        updates: 0,
        dofi: 0,
        largest: 0,
        stale: 0,
        stood: 0,
        last_mid: None,
        ready: false,
        moved: 0,
        big: 0,
        moves: Seq::empty(),
        deep_mid: None,
        deep_spread: None,
        held: None,
        spread_time: 0,
        added: Seq::empty(),
        mids: Seq::empty(),
        spreads: Seq::empty(),
    }
}

impl ObFeats {
    /// Whether the sum that is carried along is right, and no more is kept than should be.
    pub closed spec fn wf(&self) -> bool {
        &&& self.spread_sum == spread_total(self.spreads@)
        &&& self.spreads@.len() <= 18000
        &&& self.added@.len() <= 601
        &&& self.mids@.len() <= 601
        &&& 0 <= self.stood <= 600
        &&& self.bar matches Some(b) ==> -92_233_720_368 <= b <= 92_233_720_368
        &&& self.deep matches Some(d) ==> 0 < d.bid < d.ask
        &&& self.held matches Some(h) ==> h.1 > 0
    }

    /// Nothing seen yet.
    pub fn new() -> (r: ObFeats)
        ensures
            r.wf(),
            r@ == fresh(),
    {
        let r = ObFeats {
            top: None,
            deep5: None,
            deep: None,
            vol: None,
            buys: None,
            opening: None,
            opening_buys: None,
            bar: None,
            ofi: 0,
            ofl5: 0,
            updates: 0,
            dofi: 0,
            largest: 0,
            stale: 0,
            stood: 0,
            last_mid: None,
            ready: false,
            moved: 0,
            big: 0,
            moves: Vec::new(),
            deep_mid: None,
            deep_spread: None,
            held: None,
            spread_time: 0,
            added: VecDeque::new(),
            mids: VecDeque::new(),
            spreads: VecDeque::new(),
            spread_sum: 0,
        };
        assert(r@.moves =~= Seq::<(i64, i64)>::empty());
        assert(r@.added =~= Seq::<Added>::empty());
        assert(r@.mids =~= Seq::<Option<i64>>::empty());
        assert(r@.spreads =~= Seq::<i64>::empty());
        r
    }

    fn push_spread(&mut self)
        requires
            old(self).wf(),
        ensures
            final(self).wf(),
            final(self)@ == (ObV {
                spreads: capped(old(self)@.spreads, old(self)@.spread_time, 18000),
                spread_time: 0,
                ..old(self)@
            }),
    {
        let x: i64 = self.spread_time;
        let ghost s0 = self.spreads@;
        proof {
            lemma_spread_bound(s0);
        }
        self.spreads.push_back(x);
        assert(self.spreads@.drop_last() =~= s0);
        self.spread_sum = self.spread_sum + x as i128;
        if self.spreads.len() > 18000 {
            let ghost s1 = self.spreads@;
            proof {
                lemma_spread_front(s1);
            }
            let y: i64 = self.spreads[0];
            let _ = self.spreads.pop_front();
            assert(self.spreads@ =~= s1.skip(1));
            self.spread_sum = self.spread_sum - y as i128;
        }
        self.spread_time = 0;
    }

    fn push_window(&mut self, a: Added)
        requires
            old(self).wf(),
        ensures
            final(self).wf(),
            final(self)@ == (ObV {
                added: capped(old(self)@.added, a, 601),
                mids: capped(old(self)@.mids, old(self)@.deep_mid, 601),
                ..old(self)@
            }),
    {
        self.added.push_back(a);
        if self.added.len() > 601 {
            let ghost s = self.added@;
            let _ = self.added.pop_front();
            assert(self.added@ =~= s.skip(1));
        }
        let m = self.deep_mid;
        self.mids.push_back(m);
        if self.mids.len() > 601 {
            let ghost s = self.mids@;
            let _ = self.mids.pop_front();
            assert(self.mids@ =~= s.skip(1));
        }
    }

    fn traded(&self) -> (r: Option<Traded>)
        ensures
            r == trades_of(self@),
    {
        match (self.vol, self.buys) {
            (Some(vol), Some((buy, cnt))) => Some(
                match self.opening {
                    Some(vol0) => Traded {
                        vol: sat(vol as i128 - vol0 as i128),
                        flow: match self.opening_buys {
                            Some((buy0, cnt0)) => Some(
                                (
                                    sat(buy as i128 - buy0 as i128),
                                    sat(cnt as i128 - cnt0 as i128),
                                ),
                            ),
                            None => None,
                        },
                    },
                    None => Traded { vol: 0, flow: Some((0, 0)) },
                },
            ),
            _ => None,
        }
    }

    fn close_bar(&mut self, bar: i64) -> (r: ClosedBar)
        requires
            old(self).wf(),
            old(self)@.bar == Some(bar),
            bar < 92_233_720_368,
        ensures
            final(self).wf(),
            final(self)@ == closed_bar(old(self)@),
            r@ == closing(old(self)@, bar),
    {
        let ghost v = self@;
        let trades = self.traded();
        let stale: i64 = if self.updates == 0 {
            go_on(self.stale, 1)
        } else {
            0
        };
        let valid: bool = self.top.is_some() && stale <= 20;
        let mid: Option<i128> = match self.top {
            Some(t) => Some(t.bid as i128 + t.ask as i128),
            None => None,
        };
        let new_mid: bool = valid && match (self.last_mid, mid) {
            (Some(a), Some(b)) => a != b,
            (None, None) => false,
            _ => true,
        };
        let stood: i64 = if new_mid {
            0
        } else if self.stood + 1 > 600 {
            600
        } else {
            self.stood + 1
        };
        let mut moves: Vec<(i64, i64)> = Vec::new();
        std::mem::swap(&mut moves, &mut self.moves);
        let out = ClosedBar {
            bar,
            valid,
            ofi: self.ofi,
            ofl5: if self.deep5.is_some() {
                Some(self.ofl5)
            } else {
                None
            },
            trades,
            updates: self.updates,
            mid,
            stood,
            dofi: if self.deep.is_some() {
                Some(self.dofi)
            } else {
                None
            },
            largest: if self.buys.is_some() {
                Some(self.largest)
            } else {
                None
            },
            moves,
        };
        let (vol, buy, cnt): (i64, i64, i64) = match trades {
            Some(t) => match t.flow {
                Some((buy, cnt)) => (t.vol, buy, cnt),
                None => (t.vol, 0, 0),
            },
            None => (0, 0, 0),
        };
        let lost: bool = match trades {
            Some(t) => t.flow.is_none(),
            None => false,
        };
        let a = Added {
            ofi: if self.deep.is_some() {
                self.dofi
            } else {
                0
            },
            moves: self.moved,
            vol,
            buy,
            cnt,
            big: self.big,
            no_flow: lost,
        };
        assert(a == added_of(v));
        self.push_window(a);
        self.push_spread();
        if new_mid {
            self.last_mid = mid;
        }
        self.stale = stale;
        self.stood = stood;
        self.ready = self.ready || valid;
        self.opening = self.vol;
        self.opening_buys = self.buys;
        self.ofi = 0;
        self.ofl5 = 0;
        self.updates = 0;
        self.dofi = 0;
        self.largest = 0;
        self.moved = 0;
        self.big = 0;
        self.bar = Some(bar + 1);
        assert(self@ =~= closed_bar(v));
        out
    }

    /// Moves the clock on: closes every bar that is over.
    pub fn roll(&mut self, now_ns: i64) -> (r: Vec<ClosedBar>)
        requires
            old(self).wf(),
        ensures
            final(self).wf(),
            final(self)@ == rolled(old(self)@, bar_of(now_ns)).0,
            bar_views(r@) == rolled(old(self)@, bar_of(now_ns)).1,
    {
        let bar: i64 = div_toward_zero(now_ns, 100_000_000);
        let mut out: Vec<ClosedBar> = Vec::new();
        let ghost v = self@;
        assert(bar_views(out@) =~= Seq::<ClosedV>::empty());
        let mut at: i64 = match self.bar {
            Some(b) => b,
            None => {
                self.bar = Some(bar);
                assert(self@ =~= rolled(v, bar).0);
                return out;
            },
        };
        assert(bar_views(out@) + rolled(self@, bar).1 =~= rolled(v, bar).1);
        while at < bar
            invariant
                self.wf(),
                self@.bar == Some(at),
                -92_233_720_368 <= bar <= 92_233_720_368,
                rolled(self@, bar).0 == rolled(v, bar).0,
                bar_views(out@) + rolled(self@, bar).1 == rolled(v, bar).1,
            decreases bar - at,
        {
            let ghost before = self@;
            let ghost o0 = out@;
            let c = self.close_bar(at);
            let ghost cv = c@;
            out.push(c);
            assert(bar_views(out@) =~= bar_views(o0).push(cv));
            assert(bar_views(o0) + (seq![cv] + rolled(self@, bar).1) =~= bar_views(o0).push(cv)
                + rolled(self@, bar).1);
            at = at + 1;
        }
        assert(bar_views(out@) + rolled(self@, bar).1 =~= bar_views(out@));
        out
    }

    /// Takes a top of book in.
    pub fn on_tob(&mut self, ts_ns: i64, b: &Best) -> (r: Vec<ClosedBar>)
        requires
            old(self).wf(),
        ensures
            final(self).wf(),
            ({
                let (v, s) = rolled(old(self)@, bar_of(ts_ns));
                if b.bid > 0 && b.ask > 0 {
                    final(self)@ == after_top(v, *b) && bar_views(r@) == s
                } else {
                    final(self)@ == old(self)@ && r@.len() == 0
                }
            }),
    {
        if !(b.bid > 0 && b.ask > 0) {
            return Vec::new();
        }
        let out = self.roll(ts_ns);
        if let Some(a) = self.top {
            self.ofi = go_on(self.ofi, order_flow(&a, b));
        }
        self.top = Some(*b);
        self.updates = go_on(self.updates, 1);
        out
    }

    /// Takes the sizes of the first five levels of a deep book in.
    pub fn on_depth5(&mut self, ts_ns: i64, b5: i64, a5: i64) -> (r: Vec<ClosedBar>)
        requires
            old(self).wf(),
        ensures
            final(self).wf(),
            ({
                let (v, s) = rolled(old(self)@, bar_of(ts_ns));
                final(self)@ == after_deep5(v, b5, a5) && bar_views(r@) == s
            }),
    {
        let out = self.roll(ts_ns);
        if let Some((b, a)) = self.deep5 {
            let d: i128 = (b5 as i128 - b as i128) - (a5 as i128 - a as i128);
            self.ofl5 = go_on(self.ofl5, d);
        }
        self.deep5 = Some((b5, a5));
        out
    }

    /// Takes the best quotes of a deep book in.
    pub fn on_depth_best(&mut self, ts_ns: i64, b: &Best) -> (r: Vec<ClosedBar>)
        requires
            old(self).wf(),
        ensures
            final(self).wf(),
            ({
                let (v, s) = rolled(old(self)@, bar_of(ts_ns));
                if 0 < b.bid < b.ask {
                    final(self)@ == after_deep(v, ts_ns, *b) && bar_views(r@) == s
                } else {
                    final(self)@ == old(self)@ && r@.len() == 0
                }
            }),
    {
        if !(b.bid > 0 && b.bid < b.ask) {
            return Vec::new();
        }
        let out = self.roll(ts_ns);
        let ghost v = self@;
        let mid = sat(b.bid as i128 + b.ask as i128);
        let spread: i64 = b.ask - b.bid;
        if let Some(a) = self.deep {
            self.dofi = go_on(self.dofi, order_flow(&a, b));
            if let Some((t, s)) = self.held {
                if ts_ns > t {
                    let dt = sat(ts_ns as i128 - t as i128);
                    let area = sat(fixed::product(s, dt));
                    self.spread_time = go_on(self.spread_time, area as i128);
                }
            }
            self.held = Some((ts_ns, spread));
            self.deep_spread = Some(spread);
            if a.bid != b.bid || a.ask != b.ask {
                if let Some(m) = self.deep_mid {
                    self.moves.push((m, mid));
                }
                self.deep_mid = Some(mid);
                self.moved = go_on(self.moved, 1);
            }
        }
        if self.deep_mid.is_none() {
            self.deep_mid = Some(mid);
            self.deep_spread = Some(spread);
        }
        self.deep = Some(*b);
        assert(self@ =~= after_deep(v, ts_ns, *b));
        out
    }

    /// Takes a reading of all that was traded in.
    pub fn on_vol(&mut self, ts_ns: i64, cum_vol: i64) -> (r: Vec<ClosedBar>)
        requires
            old(self).wf(),
        ensures
            final(self).wf(),
            ({
                let (v, s) = rolled(old(self)@, bar_of(ts_ns));
                final(self)@ == after_vol(v, cum_vol) && bar_views(r@) == s
            }),
    {
        let out = self.roll(ts_ns);
        if let Some(p) = self.vol {
            if cum_vol > p {
                let d = sat(cum_vol as i128 - p as i128);
                if d > self.largest {
                    self.largest = d;
                }
                if d >= 1_000_000 {
                    self.big = go_on(self.big, d as i128);
                }
            }
        }
        self.vol = Some(cum_vol);
        out
    }

    /// Takes a reading of what was bought and of the number of trades in.
    pub fn on_volb(&mut self, ts_ns: i64, cum_buy: i64, cum_cnt: i64) -> (r: Vec<ClosedBar>)
        requires
            old(self).wf(),
        ensures
            final(self).wf(),
            ({
                let (v, s) = rolled(old(self)@, bar_of(ts_ns));
                final(self)@ == (ObV { buys: Some((cum_buy, cum_cnt)), ..v }) && bar_views(r@) == s
            }),
    {
        let out = self.roll(ts_ns);
        self.buys = Some((cum_buy, cum_cnt));
        out
    }

    fn window(&self, n: usize, mid_then: i64, mid_now: i64) -> (r: Window)
        requires
            self.wf(),
            n <= 600,
            n < self.added@.len(),
        ensures
            are_sums(r.sums, self@.added, n as int),
            r.mid_then == mid_then,
            r.mid_now == mid_now,
    {
        let len: usize = self.added.len();
        let ghost s = self.added@;
        let mut x = Sums { ofi: 0, moves: 0, vol: 0, buy: 0, cnt: 0, big: 0 };
        let mut i: usize = len - n;
        assert(are_sums(x, s.take(i as int), 0));
        while i < len
            invariant
                len == s.len(),
                s == self.added@,
                n <= 600,
                len - n <= i <= len,
                n <= len,
                are_sums(x, s.take(i as int), i - (len - n)),
                -10_000_000_000_000_000_000 * (i - (len - n)) <= x.ofi <= 10_000_000_000_000_000_000
                    * (i - (len - n)),
                -10_000_000_000_000_000_000 * (i - (len - n)) <= x.moves
                    <= 10_000_000_000_000_000_000 * (i - (len - n)),
                -10_000_000_000_000_000_000 * (i - (len - n)) <= x.vol <= 10_000_000_000_000_000_000
                    * (i - (len - n)),
                -10_000_000_000_000_000_000 * (i - (len - n)) <= x.buy <= 10_000_000_000_000_000_000
                    * (i - (len - n)),
                -10_000_000_000_000_000_000 * (i - (len - n)) <= x.cnt <= 10_000_000_000_000_000_000
                    * (i - (len - n)),
                -10_000_000_000_000_000_000 * (i - (len - n)) <= x.big <= 10_000_000_000_000_000_000
                    * (i - (len - n)),
            decreases len - i,
        {
            assert(s.take(i + 1).drop_last() =~= s.take(i as int));
            assert(s.take(i + 1).last() == s[i as int]);
            let a: Added = self.added[i];
            x =
            Sums {
                ofi: x.ofi + a.ofi as i128,
                moves: x.moves + a.moves as i128,
                vol: x.vol + a.vol as i128,
                buy: x.buy + a.buy as i128,
                cnt: x.cnt + a.cnt as i128,
                big: x.big + a.big as i128,
            };
            i = i + 1;
        }
        assert(s.take(s.len() as int) =~= s);
        Window { sums: x, mid_then, mid_now }
    }

    /// What the windows come to; nothing until a minute of bars is there, nor while one of
    /// them had no flow.
    pub fn window_feats(&self) -> (r: Option<Windows>)
        requires
            self.wf(),
        ensures
            r is Some == has_windows(self@),
            r matches Some(w) ==> {
                &&& is_window(w.second, self@, 10)
                &&& is_window(w.ten, self@, 100)
                &&& is_window(w.minute, self@, 600)
                &&& self@.deep_spread == Some(w.spread)
            },
    {
        if self.added.len() <= 600 || self.mids.len() <= 600 {
            return None;
        }
        let k: usize = self.added.len();
        let mut i: usize = k - 600;
        while i < k
            invariant
                k == self.added@.len(),
                600 < k,
                k - 600 <= i <= k,
                forall|j: int| k - 600 <= j < i ==> !(#[trigger] self@.added[j]).no_flow,
            decreases k - i,
        {
            if self.added[i].no_flow {
                assert(self@.added[i as int].no_flow);
                return None;
            }
            i = i + 1;
        }
        let n: usize = self.mids.len();
        match (
            self.mids[n - 1],
            self.mids[n - 11],
            self.mids[n - 101],
            self.mids[n - 601],
            self.deep_spread,
        ) {
            (Some(now), Some(a), Some(b), Some(c), Some(spread)) => Some(
                Windows {
                    second: self.window(10, a, now),
                    ten: self.window(100, b, now),
                    minute: self.window(600, c, now),
                    spread,
                },
            ),
            _ => None,
        }
    }

    /// What the windows come to, with the spread over time of the last half hour; nothing
    /// until half an hour of bars is there, nor while the book was not seen.
    pub fn window_feats_b4(&self) -> (r: Option<(Windows, i128)>)
        requires
            self.wf(),
        ensures
            r is Some == (has_windows(self@) && has_spread_mean(self@)),
            r matches Some((w, s)) ==> {
                &&& is_window(w.second, self@, 10)
                &&& is_window(w.ten, self@, 100)
                &&& is_window(w.minute, self@, 600)
                &&& self@.deep_spread == Some(w.spread)
                &&& s == spread_total(self@.spreads)
            },
    {
        if self.spreads.len() < 18000 || self.spread_sum <= 0 {
            return None;
        }
        match self.window_feats() {
            Some(w) => Some((w, self.spread_sum)),
            None => None,
        }
    }

    /// Whether there was ever a valid bar.
    pub fn ready(&self) -> (r: bool)
        ensures
            r == self@.ready,
    {
        self.ready
    }
}

impl Default for ObFeats {
    fn default() -> (r: ObFeats)
        ensures
            r.wf(),
            r@ == fresh(),
    {
        ObFeats::new()
    }
}

/// Which columns a net reads.
#[derive(Clone, Copy, Debug, PartialEq, Eq, Structural)]
pub enum ObNetKind {
    /// Columns of single bars, in any order.
    Legacy,
    /// The windows and the spread against its mean.
    Window4,
    /// The windows and the spread.
    Window,
}

/// The columns of the windows, in their order.
pub open spec fn window_names() -> Seq<Seq<char>> {
    seq![
        "tfifrac_1s"@,
        "ofin_1s"@,
        "retstd_1s"@,
        "ltv_1s"@,
        "lnt_1s"@,
        "bigfrac_1s"@,
        "lqupd_1s"@,
        "tfifrac_10s"@,
        "ofin_10s"@,
        "retstd_10s"@,
        "ltv_10s"@,
        "lnt_10s"@,
        "bigfrac_10s"@,
        "lqupd_10s"@,
        "tfifrac_60s"@,
        "ofin_60s"@,
        "retstd_60s"@,
        "ltv_60s"@,
        "lnt_60s"@,
        "bigfrac_60s"@,
        "lqupd_60s"@,
    ]
}

/// The columns of a bar, in their order.
pub open spec fn bar_names() -> Seq<Seq<char>> {
    seq![
        "ob_ofi"@,
        "ob_ofi_e2"@,
        "ob_ofi_e10"@,
        "ob_ofi_e60"@,
        "ob_ofl5"@,
        "ob_tfi"@,
        "ob_tfi_e2"@,
        "ob_tfi_e10"@,
        "ob_tfi_e60"@,
        "ob_tv_e10"@,
        "ob_nt"@,
        "ob_upd"@,
        "ob_ret1"@,
        "ob_ret10"@,
        "ob_ret100"@,
        "ob_ret600"@,
        "ob_rv100"@,
        "ob_tslc"@,
        "ob_dofi"@,
        "ob_dofi_e2"@,
        "ob_dofi_e10"@,
        "ob_dofi_e60"@,
        "ob_bigtr"@,
    ]
}

/// The views of a run of texts.
pub open spec fn strs(s: Seq<&'static str>) -> Seq<Seq<char>> {
    Seq::new(s.len(), |i: int| s[i]@)
}

/// The columns of the windows, in their order.
pub fn ob_w_feats() -> (r: Vec<&'static str>)
    ensures
        strs(r@) == window_names(),
{
    let mut v: Vec<&'static str> = Vec::new();
    v.push("tfifrac_1s");
    v.push("ofin_1s");
    v.push("retstd_1s");
    v.push("ltv_1s");
    v.push("lnt_1s");
    v.push("bigfrac_1s");
    v.push("lqupd_1s");
    v.push("tfifrac_10s");
    v.push("ofin_10s");
    v.push("retstd_10s");
    v.push("ltv_10s");
    v.push("lnt_10s");
    v.push("bigfrac_10s");
    v.push("lqupd_10s");
    v.push("tfifrac_60s");
    v.push("ofin_60s");
    v.push("retstd_60s");
    v.push("ltv_60s");
    v.push("lnt_60s");
    v.push("bigfrac_60s");
    v.push("lqupd_60s");
    assert(strs(v@) =~= window_names());
    v
}

/// The columns of a bar, in their order.
pub fn ob_feats() -> (r: Vec<&'static str>)
    ensures
        strs(r@) == bar_names(),
{
    let mut v: Vec<&'static str> = Vec::new();
    v.push("ob_ofi");
    v.push("ob_ofi_e2");
    v.push("ob_ofi_e10");
    v.push("ob_ofi_e60");
    v.push("ob_ofl5");
    v.push("ob_tfi");
    v.push("ob_tfi_e2");
    v.push("ob_tfi_e10");
    v.push("ob_tfi_e60");
    v.push("ob_tv_e10");
    v.push("ob_nt");
    v.push("ob_upd");
    v.push("ob_ret1");
    v.push("ob_ret10");
    v.push("ob_ret100");
    v.push("ob_ret600");
    v.push("ob_rv100");
    v.push("ob_tslc");
    v.push("ob_dofi");
    v.push("ob_dofi_e2");
    v.push("ob_dofi_e10");
    v.push("ob_dofi_e60");
    v.push("ob_bigtr");
    assert(strs(v@) =~= bar_names());
    v
}

/// The kind of a net that reads these columns.
pub open spec fn kind_of(cols: Seq<Seq<char>>) -> ObNetKind {
    if cols == window_names().push("spnorm"@) {
        ObNetKind::Window4
    } else if cols == window_names().push("spread_bps"@) {
        ObNetKind::Window
    } else {
        ObNetKind::Legacy
    }
}

/// The first place of a name, from `i` on.
pub open spec fn place_from(names: Seq<Seq<char>>, n: Seq<char>, i: int) -> Option<int>
    decreases names.len() - i,
{
    if i >= names.len() {
        None
    } else if names[i] == n {
        Some(i)
    } else {
        place_from(names, n, i + 1)
    }
}

/// The places of some names; nothing where one of them is not known.
pub open spec fn places_of(cols: Seq<Seq<char>>) -> Option<Seq<int>>
    decreases cols.len(),
{
    if cols.len() == 0 {
        Some(Seq::empty())
    } else {
        match (places_of(cols.drop_last()), place_from(bar_names(), cols.last(), 0)) {
            (Some(s), Some(p)) => Some(s.push(p)),
            _ => None,
        }
    }
}

fn begins_with(cols: &Vec<String>, names: &Vec<&'static str>) -> (r: bool)
    ensures
        r == (text::views(cols@).len() == strs(names@).len() + 1 && text::views(cols@).take(
            strs(names@).len() as int,
        ) == strs(names@)),
{
    if cols.len() == 0 || cols.len() - 1 != names.len() {
        return false;
    }
    let ghost cv = text::views(cols@);
    let ghost nv = strs(names@);
    let mut i: usize = 0;
    while i < names.len()
        invariant
            cv == text::views(cols@),
            nv == strs(names@),
            cv.len() == nv.len() + 1,
            i <= nv.len(),
            forall|j: int| 0 <= j < i ==> cv[j] == nv[j],
        decreases names@.len() - i,
    {
        assert(cv[i as int] == cols@[i as int]@ && nv[i as int] == names@[i as int]@);
        if !same(cols[i].as_str(), names[i]) {
            assert(cv.take(nv.len() as int)[i as int] != nv[i as int]);
            return false;
        }
        i = i + 1;
    }
    assert(cv.take(nv.len() as int) =~= nv);
    true
}

/// The kind of a net that reads these columns.
pub fn net_kind(cols: &Vec<String>) -> (r: ObNetKind)
    ensures
        r == kind_of(text::views(cols@)),
{
    let names = ob_w_feats();
    let ghost cv = text::views(cols@);
    let ghost nv = window_names();
    let windows = begins_with(cols, &names);
    proof {
        if windows {
            assert(cv =~= nv.push(cv.last()));
            assert(cv.last() == cols@[cols@.len() - 1]@);
            assert(nv.push("spnorm"@).last() == "spnorm"@);
            assert(nv.push("spread_bps"@).last() == "spread_bps"@);
        } else {
            assert(nv.push("spnorm"@).take(nv.len() as int) =~= nv);
            assert(nv.push("spread_bps"@).take(nv.len() as int) =~= nv);
        }
    }
    if windows {
        let last = cols[cols.len() - 1].as_str();
        if same(last, "spnorm") {
            return ObNetKind::Window4;
        }
        if same(last, "spread_bps") {
            return ObNetKind::Window;
        }
    }
    ObNetKind::Legacy
}

/// The places of the columns of a net among the columns of a bar; nothing where one of them
/// is not known.
pub fn legacy_places(cols: &Vec<String>) -> (r: Option<Vec<usize>>)
    ensures
        match r {
            Some(v) => places_of(text::views(cols@)) == Some(
                Seq::new(v@.len(), |i: int| v@[i] as int),
            ),
            None => places_of(text::views(cols@)) is None,
        },
{
    let names = ob_feats();
    let ghost cv = text::views(cols@);
    let ghost nv = bar_names();
    let mut out: Vec<usize> = Vec::new();
    let mut i: usize = 0;
    assert(cv.take(0) =~= Seq::<Seq<char>>::empty());
    assert(Seq::new(out@.len(), |i: int| out@[i] as int) =~= Seq::<int>::empty());
    while i < cols.len()
        invariant
            cv == text::views(cols@),
            nv == bar_names(),
            nv == strs(names@),
            i <= cols@.len(),
            places_of(cv.take(i as int)) == Some(Seq::new(out@.len(), |k: int| out@[k] as int)),
        decreases cols@.len() - i,
    {
        assert(cv.take(i + 1).drop_last() =~= cv.take(i as int));
        assert(cv.take(i + 1).last() == cols@[i as int]@);
        let mut k: usize = 0;
        let mut found: bool = false;
        while k < names.len() && !found
            invariant
                nv == strs(names@),
                i < cols@.len(),
                k <= nv.len(),
                !found ==> place_from(nv, cols@[i as int]@, 0) == place_from(
                    nv,
                    cols@[i as int]@,
                    k as int,
                ),
                found ==> place_from(nv, cols@[i as int]@, 0) == Some(k as int),
            decreases names@.len() - k, !found as int,
        {
            assert(nv[k as int] == names@[k as int]@);
            if same(names[k], cols[i].as_str()) {
                found = true;
            } else {
                k = k + 1;
            }
        }
        if !found {
            proof {
                assert(cv[i as int] == cols@[i as int]@);
                lemma_no_place(cv, i as int);
            }
            return None;
        }
        let ghost o0 = out@;
        out.push(k);
        assert(Seq::new(out@.len(), |j: int| out@[j] as int) =~= Seq::new(
            o0.len(),
            |j: int| o0[j] as int,
        ).push(k as int));
        i = i + 1;
    }
    assert(cv.take(cv.len() as int) =~= cv);
    Some(out)
}

proof fn lemma_no_place(cols: Seq<Seq<char>>, i: int)
    requires
        0 <= i < cols.len(),
        place_from(bar_names(), cols[i], 0) is None,
    ensures
        places_of(cols) is None,
    decreases cols.len(),
{
    if i < cols.len() - 1 {
        assert(cols.drop_last()[i] == cols[i]);
        lemma_no_place(cols.drop_last(), i);
    }
}

/// Every bar is closed once and in its turn, however far the clock moves.
pub proof fn law_bars_close_in_turn(v: ObV, bar: i64)
    requires
        v.bar matches Some(b) ==> -92_233_720_368 <= b <= bar <= 92_233_720_368,
    ensures
        ({
            let (u, s) = rolled(v, bar);
            &&& u.bar == Some(bar)
            &&& v.bar is None ==> s.len() == 0
            &&& v.bar matches Some(b) ==> s.len() == bar - b && forall|i: int|
                0 <= i < s.len() ==> (#[trigger] s[i]).bar == b + i
        }),
    decreases behind(v, bar as int),
{
    if let Some(b) = v.bar {
        if b < bar {
            law_bars_close_in_turn(closed_bar(v), bar);
            let s = rolled(closed_bar(v), bar).1;
            let t = rolled(v, bar).1;
            assert(t =~= seq![closing(v, b)] + s);
            assert forall|i: int| 0 <= i < t.len() implies (#[trigger] t[i]).bar == b + i by {
                if i > 0 {
                    assert(t[i] == s[i - 1]);
                }
            }
        }
    }
}

/// A clock that moves in two steps closes the same bars as one that moves in one.
pub proof fn law_rolling_can_be_split(v: ObV, a: i64, b: i64)
    requires
        v.bar matches Some(c) ==> -92_233_720_368 <= c <= 92_233_720_368,
        v.bar is Some,
        a <= b <= 92_233_720_368,
    ensures
        ({
            let (x, s) = rolled(v, a);
            let (y, t) = rolled(x, b);
            rolled(v, b) == (y, s + t)
        }),
    decreases behind(v, a as int),
{
    let c = v.bar->0;
    if c < a {
        law_rolling_can_be_split(closed_bar(v), a, b);
        let (x, s) = rolled(closed_bar(v), a);
        let (y, t) = rolled(x, b);
        assert(seq![closing(v, c)] + (s + t) =~= (seq![closing(v, c)] + s) + t);
    } else {
        let (y, t) = rolled(v, b);
        assert(Seq::<ClosedV>::empty() + t =~= t);
    }
}

/// A bar in which nothing happens adds nothing to the windows.
pub proof fn law_quiet_bars_add_nothing(v: ObV)
    requires
        v.dofi == 0 && v.moved == 0 && v.big == 0,
        v.opening == v.vol,
        v.opening_buys == v.buys,
    ensures
        added_of(v) == (Added {
            ofi: 0,
            moves: 0,
            vol: 0,
            buy: 0,
            cnt: 0,
            big: 0,
            no_flow: false,
        }),
{
}

/// The order flow between two tops. With the ask as it was, a higher bid adds its new size, a
/// lower one takes off the old size, and one that stayed adds the change of its size; with
/// the bid as it was, a lower ask takes off its new size, a higher one adds the old size, and
/// one that stayed takes off the change of its size.
pub proof fn law_flow_comes_to_the_better_side(a: Best, b: Best)
    ensures
        a.ask == b.ask && a.ask_sz == b.ask_sz ==> {
            &&& b.bid > a.bid ==> flow_of(a, b) == b.bid_sz
            &&& b.bid < a.bid ==> flow_of(a, b) == -a.bid_sz
            &&& b.bid == a.bid ==> flow_of(a, b) == b.bid_sz - a.bid_sz
        },
        a.bid == b.bid && a.bid_sz == b.bid_sz ==> {
            &&& b.ask < a.ask ==> flow_of(a, b) == -b.ask_sz
            &&& b.ask > a.ask ==> flow_of(a, b) == a.ask_sz
            &&& b.ask == a.ask ==> flow_of(a, b) == a.ask_sz - b.ask_sz
        },
        flow_of(a, b) == flow_of(a, Best { ask: a.ask, ask_sz: a.ask_sz, ..b }) + flow_of(
            a,
            Best { bid: a.bid, bid_sz: a.bid_sz, ..b },
        ),
        flow_of(b, a) == -flow_of(a, b),
{
}

/// The flow of a bar grows by the flow of each top from the one before it; the first top of
/// all brings none. The flow over five levels grows by what came to the bids less what came
/// to the asks.
pub proof fn law_bars_add_up_their_flow(v: ObV, b: Best, b5: i64, a5: i64)
    ensures
        v.top is None ==> after_top(v, b).ofi == v.ofi,
        v.top matches Some(a) ==> (i64::MIN <= v.ofi + flow_of(a, b) <= i64::MAX ==> after_top(
            v,
            b,
        ).ofi == v.ofi + flow_of(a, b)),
        after_top(v, b).top == Some(b),
        v.updates < i64::MAX ==> after_top(v, b).updates == v.updates + 1,
        v.deep5 is None ==> after_deep5(v, b5, a5).ofl5 == v.ofl5,
        v.deep5 matches Some(p) ==> (i64::MIN <= v.ofl5 + b5 - p.0 - a5 + p.1 <= i64::MAX
            ==> after_deep5(v, b5, a5).ofl5 == v.ofl5 + b5 - p.0 - a5 + p.1),
        after_deep5(v, b5, a5).deep5 == Some((b5, a5)),
{
}

/// A deep book counts a move exactly where a price of it changed, adds its flow, and holds
/// its spread from then on: a spread counts for as long as it was held.
pub proof fn law_deep_books_count_moves_of_price(v: ObV, ts_ns: i64, a: Best, b: Best)
    requires
        v.deep == Some(a),
        0 < b.bid < b.ask,
        b.bid + b.ask <= i64::MAX,
        v.moved < i64::MAX,
    ensures
        ({
            let u = after_deep(v, ts_ns, b);
            let changed = a.bid != b.bid || a.ask != b.ask;
            &&& u.deep == Some(b)
            &&& u.moved == v.moved + (if changed {
                1int
            } else {
                0
            })
            &&& changed ==> u.deep_mid == Some((b.bid + b.ask) as i64)
            &&& !changed ==> u.moves == v.moves && (v.deep_mid is Some ==> u.deep_mid
                == v.deep_mid)
            &&& changed && v.deep_mid is Some ==> u.moves == v.moves.push(
                (v.deep_mid->0, (b.bid + b.ask) as i64),
            )
            &&& u.deep_spread == Some((b.ask - b.bid) as i64)
            &&& u.held == Some((ts_ns, (b.ask - b.bid) as i64))
            &&& i64::MIN <= v.dofi + flow_of(a, b) <= i64::MAX ==> u.dofi == v.dofi + flow_of(a, b)
            &&& v.held matches Some(h) ==> (ts_ns > h.0 && ts_ns - h.0 <= i64::MAX && i64::MIN
                <= h.1 * (ts_ns - h.0) <= i64::MAX && i64::MIN <= v.spread_time + h.1 * (ts_ns
                - h.0) <= i64::MAX ==> u.spread_time == v.spread_time + h.1 * (ts_ns - h.0))
            &&& v.held matches Some(h) ==> (ts_ns <= h.0 ==> u.spread_time == v.spread_time)
            &&& v.held is None ==> u.spread_time == v.spread_time
        }),
{
}

/// A step of the volume is a print: the largest is kept, and those of a whole unit or more
/// are added up. A reading that is no higher is no print.
pub proof fn law_large_prints_are_counted(v: ObV, p: i64, cum: i64)
    requires
        v.vol == Some(p),
        0 <= p,
        0 <= v.big <= 0x4000_0000_0000_0000,
        cum <= 0x3fff_ffff_ffff_ffff,
    ensures
        after_vol(v, cum).vol == Some(cum),
        cum <= p ==> after_vol(v, cum).largest == v.largest && after_vol(v, cum).big == v.big,
        cum > p && cum - p >= v.largest ==> after_vol(v, cum).largest == cum - p,
        cum > p && cum - p < v.largest ==> after_vol(v, cum).largest == v.largest,
        cum - p >= 1_000_000 ==> after_vol(v, cum).big == v.big + (cum - p),
        cum - p < 1_000_000 ==> after_vol(v, cum).big == v.big,
{
}

/// A bar that is closed tells what it counted, and the next begins from nothing: what was
/// traded in it is how far the totals came since it opened. It counts while the top of book
/// is known and at most twenty bars old.
pub proof fn law_bars_tell_what_they_counted(v: ObV, bar: i64)
    requires
        v.stale < i64::MAX,
    ensures
        ({
            let c = closing(v, bar);
            let u = closed_bar(v);
            let age = if v.updates == 0 {
                v.stale + 1
            } else {
                0
            };
            &&& c.bar == bar && c.ofi == v.ofi && c.updates == v.updates && c.moves == v.moves
            &&& c.valid <==> v.top is Some && age <= 20
            &&& u.stale == age
            &&& v.top matches Some(t) ==> c.mid == Some((t.bid + t.ask) as i128)
            &&& c.ofl5 is Some <==> v.deep5 is Some
            &&& c.ofl5 is Some ==> c.ofl5->0 == v.ofl5
            &&& c.dofi is Some <==> v.deep is Some
            &&& c.dofi is Some ==> c.dofi->0 == v.dofi
            &&& u.ofi == 0 && u.ofl5 == 0 && u.updates == 0 && u.dofi == 0 && u.largest == 0
                && u.moved == 0 && u.big == 0 && u.moves.len() == 0 && u.spread_time == 0
            &&& u.opening == v.vol && u.opening_buys == v.buys
            &&& u.top == v.top && u.deep == v.deep && u.deep5 == v.deep5 && u.held == v.held
            &&& v.vol is Some && v.opening is Some && v.buys is Some && i64::MIN <= v.vol->0
                - v.opening->0 <= i64::MAX ==> c.trades is Some && (c.trades->0).vol == v.vol->0
                - v.opening->0
            &&& v.vol is None || v.buys is None ==> c.trades is None
            &&& v.buys matches Some(y) ==> (v.opening_buys matches Some(y0) ==> (v.vol is Some
                && v.opening is Some && i64::MIN <= y.0 - y0.0 <= i64::MAX && i64::MIN <= y.1
                - y0.1 <= i64::MAX ==> c.trades is Some && (c.trades->0).flow == Some(
                ((y.0 - y0.0) as i64, (y.1 - y0.1) as i64),
            )))
            &&& c.valid && v.last_mid != c.mid ==> c.stood == 0 && u.last_mid == c.mid
            &&& !(c.valid && v.last_mid != c.mid) && v.stood < 600 ==> c.stood == v.stood + 1
                && u.last_mid == v.last_mid
            &&& u.stood == c.stood
        }),
{
}

/// The sums over a window are those of its bars: a bar that comes in adds what it counted.
pub proof fn law_windows_add_up_their_bars(s: Seq<Added>, a: Added, n: int)
    requires
        n >= 0,
    ensures
        ({
            let x = last_sums(s, n);
            last_sums(s.push(a), n + 1) == (
                x.0 + a.ofi,
                x.1 + a.moves,
                x.2 + a.vol,
                x.3 + a.buy,
                x.4 + a.cnt,
                x.5 + a.big,
            )
        }),
        last_sums(s, 0) == (0int, 0int, 0int, 0int, 0int, 0int),
{
    assert(s.push(a).drop_last() =~= s);
}

/// A bar is a tenth of a second.
pub proof fn law_bars_are_tenths_of_a_second(ts_ns: i64)
    requires
        ts_ns >= 0,
    ensures
        bar_of(ts_ns) * 100_000_000 <= ts_ns < (bar_of(ts_ns) + 1) * 100_000_000,
{
}

/// The columns of a bar are found by their names.
pub proof fn law_columns_are_found_by_name(cols: Seq<Seq<char>>)
    ensures
        places_of(cols) matches Some(p) ==> p.len() == cols.len() && forall|i: int|
            0 <= i < p.len() ==> 0 <= #[trigger] p[i] < bar_names().len() && bar_names()[p[i]]
                == cols[i],
        places_of(cols) is None ==> exists|i: int|
            0 <= i < cols.len() && !bar_names().contains(#[trigger] cols[i]),
    decreases cols.len(),
{
    if cols.len() > 0 {
        let c = cols.drop_last();
        law_columns_are_found_by_name(c);
        lemma_place(bar_names(), cols.last(), 0);
        if places_of(c) is None {
            let i = choose|i: int| 0 <= i < c.len() && !bar_names().contains(#[trigger] c[i]);
            assert(cols[i] == c[i]);
        } else if places_of(cols) is None {
            assert(cols[cols.len() - 1] == cols.last());
        }
    }
}

/// The place found is one of the name; where none is found there is none.
proof fn lemma_place(names: Seq<Seq<char>>, n: Seq<char>, i: int)
    requires
        0 <= i <= names.len(),
    ensures
        place_from(names, n, i) matches Some(p) ==> i <= p < names.len() && names[p] == n,
        place_from(names, n, i) is None ==> forall|j: int| i <= j < names.len() ==> names[j] != n,
    decreases names.len() - i,
{
    if i < names.len() && names[i] != n {
        lemma_place(names, n, i + 1);
    }
}

/// A window compares the mid at its end with the one so many bars before, and adds up the bars
/// between; it can be told once a minute of bars is there.
pub proof fn law_windows_compare_their_ends(w: Window, v: ObV, n: int)
    ensures
        is_window(w, v, n) ==> {
            &&& v.mids[v.mids.len() - 1] == Some(w.mid_now) || v.mids.len() == 0
            &&& v.mids[v.mids.len() - 1 - n] == Some(w.mid_then)
            &&& last_sums(v.added, n).0 == w.sums.ofi && last_sums(v.added, n).2 == w.sums.vol
            &&& last_sums(v.added, n).1 == w.sums.moves && last_sums(v.added, n).3 == w.sums.buy
            &&& last_sums(v.added, n).4 == w.sums.cnt && last_sums(v.added, n).5 == w.sums.big
        },
        v.added.len() <= 600 || v.mids.len() <= 600 || v.deep_spread is None ==> !has_windows(v),
        has_windows(v) ==> v.mids[v.mids.len() - 11] is Some && v.mids[v.mids.len() - 101] is Some
            && v.mids[v.mids.len() - 601] is Some,
        v.spreads.len() < 18000 ==> !has_spread_mean(v),
        v.spreads.len() >= 18000 && spread_total(v.spreads) > 0 ==> has_spread_mean(v),
        spread_total(v.spreads) <= 0 ==> !has_spread_mean(v),
{
}

/// Before anything is seen, nothing is counted.
pub proof fn law_nothing_is_counted_at_first()
    ensures
        ({
            let v = fresh();
            &&& v.ofi == 0 && v.ofl5 == 0 && v.updates == 0 && v.dofi == 0 && v.largest == 0
            &&& v.stale == 0 && v.stood == 0 && v.moved == 0 && v.big == 0 && v.spread_time == 0
            &&& v.top is None && v.deep is None && v.deep5 is None && v.vol is None && v.buys is None
            &&& v.bar is None && !v.ready && v.added.len() == 0 && v.mids.len() == 0
                && v.spreads.len() == 0 && v.moves.len() == 0
            &&& v.opening is None && v.opening_buys is None && v.last_mid is None && v.held is None
                && v.deep_mid is None && v.deep_spread is None
        }),
{
}

} // verus!
