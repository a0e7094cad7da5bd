//! Trades and depth of the reference in bars of a tenth of a second, and what is read off
//! them.
use vstd::prelude::*;
use std::collections::VecDeque;
use crate::fixed;
use crate::fixed::{div_floor, sat};
use crate::processor::features::Ratio;
use crate::text;
use crate::text::same;

verus! {

/// A number that a model reads: a quotient, a difference of two quotients, or the logarithm
/// of one and an amount in micro-units.
#[derive(Clone, Copy, Debug, PartialEq, Eq, Structural)]
pub enum Term {
    Zero,
    Quotient(Ratio),
    Difference(Ratio, Ratio),
    Log1p(i128),
}

/// The shape of a deep book.
#[derive(Clone, Copy, Debug, PartialEq, Eq, Structural)]
pub struct DepthStats {
    /// The spread, in basis points of the mid.
    pub spread_bps: Ratio,
    /// How much heavier the bids are, over the first five levels.
    pub imb5: Ratio,
    /// The same over all levels within 5, 10 and 25 basis points of the mid.
    pub band5: Ratio,
    pub band10: Ratio,
    pub band25: Ratio,
    /// The size within 10 basis points of the mid.
    pub depth10: i128,
}

/// The sizes of the first `n` levels.
pub open spec fn size_of(s: Seq<(i64, i64)>, n: int) -> int
    decreases n,
{
    if n <= 0 {
        0
    } else {
        size_of(s, n - 1) + (if n - 1 < s.len() {
            s[n - 1].1 as int
        } else {
            0
        })
    }
}

/// Whether a price is within `w` basis points of the mid; `twice` is twice the mid.
pub open spec fn within(p: i64, twice: int, w: int, bid: bool) -> bool {
    if bid {
        20_000 * p >= twice * (10_000 - w)
    } else {
        20_000 * p <= twice * (10_000 + w)
    }
}

/// The sizes of those of the first `n` levels that are within `w` basis points of the mid.
pub open spec fn band_size(s: Seq<(i64, i64)>, n: int, twice: int, w: int, bid: bool) -> int
    decreases n,
{
    if n <= 0 {
        0
    } else {
        band_size(s, n - 1, twice, w, bid) + (if n - 1 < s.len() && within(
            s[n - 1].0,
            twice,
            w,
            bid,
        ) {
            s[n - 1].1 as int
        } else {
            0
        })
    }
}

/// How much heavier one side is, as a share of both.
pub open spec fn imbalance(b: int, a: int) -> Ratio {
    Ratio {
        num: (b - a) as i128,
        den: fixed::larger(b + a, 1) as i128,
    }
}

/// The imbalance within `w` basis points of the mid, over the first sixty levels.
pub open spec fn band(bids: Seq<(i64, i64)>, asks: Seq<(i64, i64)>, w: int) -> Ratio {
    let twice = bids[0].0 + asks[0].0;
    imbalance(band_size(bids, 60, twice, w, true), band_size(asks, 60, twice, w, false))
}

/// The shape of a book; nothing where a side is empty or the book is crossed.
pub open spec fn stats_of(bids: Seq<(i64, i64)>, asks: Seq<(i64, i64)>) -> Option<DepthStats> {
    if bids.len() == 0 || asks.len() == 0 || !(0 < bids[0].0 < asks[0].0) {
        None
    } else {
        let twice = bids[0].0 + asks[0].0;
        Some(
            DepthStats {
                spread_bps: Ratio {
                    num: (20_000 * (asks[0].0 - bids[0].0)) as i128,
                    den: twice as i128,
                },
                imb5: imbalance(size_of(bids, 5), size_of(asks, 5)),
                band5: band(bids, asks, 5),
                band10: band(bids, asks, 10),
                band25: band(bids, asks, 25),
                depth10: (band_size(bids, 60, twice, 10, true) + band_size(
                    asks,
                    60,
                    twice,
                    10,
                    false,
                )) as i128,
            },
        )
    }
}

fn first_sizes(v: &Vec<(i64, i64)>) -> (r: i128)
    ensures
        r == size_of(v@, 5),
        -50_000_000_000_000_000_000 <= r <= 50_000_000_000_000_000_000,
{
    let mut r: i128 = 0;
    let mut i: usize = 0;
    while i < 5
        invariant
            i <= 5,
            r == size_of(v@, i as int),
            -10_000_000_000_000_000_000 * i <= r <= 10_000_000_000_000_000_000 * i,
        decreases 5 - i,
    {
        if i < v.len() {
            r = r + v[i].1 as i128;
        }
        i = i + 1;
    }
    r
}

fn sizes_within(v: &Vec<(i64, i64)>, twice: i128, w: i128, bid: bool) -> (r: i128)
    requires
        0 <= w <= 25,
        0 < twice <= 0x1_0000_0000_0000_0000,
    ensures
        r == band_size(v@, 60, twice as int, w as int, bid),
        -600_000_000_000_000_000_000 <= r <= 600_000_000_000_000_000_000,
{
    let edge: i128 = if bid {
        10_000 - w
    } else {
        10_000 + w
    };
    assert(0 <= twice * edge <= 0x1_0000_0000_0000_0000 * 11_000) by (nonlinear_arith)
        requires
            0 < twice <= 0x1_0000_0000_0000_0000,
            0 < edge <= 11_000,
    ;
    let bound: i128 = twice * edge;
    let mut r: i128 = 0;
    let mut i: usize = 0;
    while i < 60
        invariant
            i <= 60,
            edge == (if bid {
                10_000 - w
            } else {
                10_000 + w
            }),
            bound == twice * edge,
            r == band_size(v@, i as int, twice as int, w as int, bid),
            -10_000_000_000_000_000_000 * i <= r <= 10_000_000_000_000_000_000 * i,
        decreases 60 - i,
    {
        if i < v.len() {
            let p: i128 = 20_000 * v[i].0 as i128;
            if (bid && p >= bound) || (!bid && p <= bound) {
                r = r + v[i].1 as i128;
            }
        }
        i = i + 1;
    }
    r
}

fn share(b: i128, a: i128) -> (r: Ratio)
    requires
        -600_000_000_000_000_000_000 <= b <= 600_000_000_000_000_000_000,
        -600_000_000_000_000_000_000 <= a <= 600_000_000_000_000_000_000,
    ensures
        r == imbalance(b as int, a as int),
{
    let s: i128 = b + a;
    Ratio {
        num: b - a,
        den: if s >= 1 {
            s
        } else {
            1
        },
    }
}

/// The shape of a book.
pub fn depth_stats(bids: &Vec<(i64, i64)>, asks: &Vec<(i64, i64)>) -> (r: Option<DepthStats>)
    ensures
        r == stats_of(bids@, asks@),
{
    if bids.len() == 0 || asks.len() == 0 {
        return None;
    }
    let (bp, ap): (i64, i64) = (bids[0].0, asks[0].0);
    if !(bp > 0 && ap > bp) {
        return None;
    }
    let twice: i128 = bp as i128 + ap as i128;
    let (b5, a5): (i128, i128) = (
        sizes_within(bids, twice, 5, true),
        sizes_within(asks, twice, 5, false),
    );
    let (b10, a10): (i128, i128) = (
        sizes_within(bids, twice, 10, true),
        sizes_within(asks, twice, 10, false),
    );
    let (b25, a25): (i128, i128) = (
        sizes_within(bids, twice, 25, true),
        sizes_within(asks, twice, 25, false),
    );
    Some(
        DepthStats {
            spread_bps: Ratio { num: 20_000 * (ap as i128 - bp as i128), den: twice },
            imb5: share(first_sizes(bids), first_sizes(asks)),
            band5: share(b5, a5),
            band10: share(b10, a10),
            band25: share(b25, a25),
            depth10: b10 + a10,
        },
    )
}

/// One bar: what was bought and traded in all, how many trades there were, and the last book.
#[derive(Clone, Copy, Debug, PartialEq, Eq, Structural)]
pub struct Bar {
    pub buy: i64,
    pub tot: i64,
    pub cnt: i64,
    pub depth: Option<DepthStats>,
}

/// A bar in which nothing has happened.
pub open spec fn empty_bar() -> Bar {
    Bar { buy: 0, tot: 0, cnt: 0, depth: None }
}

fn no_bar() -> (r: Bar)
    ensures
        r == empty_bar(),
{
    Bar { buy: 0, tot: 0, cnt: 0, depth: None }
}

/// The last bars, one behind the other.
#[derive(Debug)]
pub struct LakeFeats {
    first_bar: i64,
    bars: VecDeque<Bar>,
    last_tot: Option<i64>,
    last_buy: Option<i64>,
    last_cnt: Option<i64>,
    n_depth: u64,
    n_vol: u64,
}

/// The last bars, as the contracts see them.
#[verifier::ext_equal]
pub struct LakeV {
    /// The number of the first bar.
    pub first: int,
    pub bars: Seq<Bar>,
    /// The counters as they were last seen.
    pub last_tot: Option<i64>,
    pub last_buy: Option<i64>,
    pub last_cnt: Option<i64>,
    /// How many books and how many readings of all that was traded were taken in.
    pub n_depth: u64,
    pub n_vol: u64,
}

/// The bars before anything is seen.
pub open spec fn no_bars() -> LakeV {
    LakeV {
        first: 0,
        bars: Seq::empty(),
        last_tot: None,
        last_buy: None,
        last_cnt: None,
        n_depth: 0,
        n_vol: 0,
    }
}

impl View for LakeFeats {
    type V = LakeV;

    closed spec fn view(&self) -> LakeV {
        LakeV {
            first: self.first_bar as int,
            bars: self.bars@,
            last_tot: self.last_tot,
            last_buy: self.last_buy,
            last_cnt: self.last_cnt,
            n_depth: self.n_depth,
            n_vol: self.n_vol,
        }
    }
}

/// One more, as far as that can be counted.
pub open spec fn once_more(n: u64) -> u64 {
    if n < u64::MAX {
        (n + 1) as u64
    } else {
        n
    }
}

/// The bar of an instant.
pub open spec fn bar_of(ts_ns: i64) -> int {
    ts_ns as int / 100_000_000
}

/// The bars, reaching up to `bar`: 340 are kept.
pub open spec fn reaching(l: LakeV, bar: int) -> LakeV {
    if l.bars.len() == 0 {
        LakeV { first: bar, bars: seq![empty_bar()], ..l }
    } else if bar < l.first + l.bars.len() {
        l
    } else {
        let all = l.bars + Seq::new(
            (bar - l.first - l.bars.len() + 1) as nat,
            |i: int| empty_bar(),
        );
        if all.len() > 340 {
            LakeV { first: bar - 339, bars: all.skip(all.len() - 340), ..l }
        } else {
            LakeV { bars: all, ..l }
        }
    }
}

/// Whether a bar is too old to be kept.
pub open spec fn is_gone(l: LakeV, bar: int) -> bool {
    l.bars.len() > 0 && bar < l.first
}

/// The bars with one of them changed; those that are too old are left alone.
pub open spec fn with_bar(l: LakeV, ts_ns: i64, f: spec_fn(Bar) -> Bar) -> LakeV {
    let bar = bar_of(ts_ns);
    if is_gone(l, bar) {
        l
    } else {
        let r = reaching(l, bar);
        let i = bar - r.first;
        LakeV { bars: r.bars.update(i, f(r.bars[i])), ..r }
    }
}

/// How far a counter went on; nothing at its first reading and after it was set back.
pub open spec fn step(last: Option<i64>, cum: i64) -> int {
    match last {
        Some(p) => if cum >= p {
            fixed::clamp64(cum - p)
        } else {
            0
        },
        None => 0,
    }
}

/// The bars after a book.
pub open spec fn after_depth(
    l: LakeV,
    ts_ns: i64,
    bids: Seq<(i64, i64)>,
    asks: Seq<(i64, i64)>,
) -> LakeV {
    match stats_of(bids, asks) {
        Some(st) => with_bar(
            if is_gone(l, bar_of(ts_ns)) {
                l
            } else {
                LakeV { n_depth: once_more(l.n_depth), ..l }
            },
            ts_ns,
            |b: Bar| Bar { depth: Some(st), ..b },
        ),
        None => l,
    }
}

/// The bars after a reading of all that was traded.
pub open spec fn after_vol(l: LakeV, ts_ns: i64, cum: i64) -> LakeV {
    let d = step(l.last_tot, cum);
    with_bar(
        LakeV {
            last_tot: Some(cum),
            n_vol: if is_gone(l, bar_of(ts_ns)) {
                l.n_vol
            } else {
                once_more(l.n_vol)
            },
            ..l
        },
        ts_ns,
        |b: Bar| Bar { tot: fixed::clamp64(b.tot + d) as i64, ..b },
    )
}

/// The bars after a reading of what was bought and of the number of trades.
pub open spec fn after_volb(l: LakeV, ts_ns: i64, cum_buy: i64, cum_cnt: i64) -> LakeV {
    let db = step(l.last_buy, cum_buy);
    let dc = step(l.last_cnt, cum_cnt);
    with_bar(
        LakeV { last_buy: Some(cum_buy), last_cnt: Some(cum_cnt), ..l },
        ts_ns,
        |b: Bar|
            Bar {
                buy: fixed::clamp64(b.buy + db) as i64,
                cnt: fixed::clamp64(b.cnt + dc) as i64,
                ..b
            },
    )
}

/// What was bought, traded and counted in the `w` bars that end with bar `i`.
pub open spec fn sums_of(bars: Seq<Bar>, i: int, w: int) -> (int, int, int)
    decreases w,
{
    if w <= 0 || i < 0 {
        (0, 0, 0)
    } else {
        let (b, t, c) = sums_of(bars, i - 1, w - 1);
        (b + bars[i].buy, t + bars[i].tot, c + bars[i].cnt)
    }
}

/// The book that held in bar `i`: the last one of it and the bars before, `n` of them at most.
pub open spec fn depth_at(bars: Seq<Bar>, i: int, n: int) -> Option<DepthStats>
    decreases n,
{
    if i < 0 {
        None
    } else if bars[i].depth is Some {
        bars[i].depth
    } else if n <= 0 {
        None
    } else {
        depth_at(bars, i - 1, n - 1)
    }
}

/// The book that held so many bars ago: it may be twenty bars old.
pub open spec fn depth_ago(bars: Seq<Bar>, i: int, ago: int) -> Option<DepthStats> {
    depth_at(bars, i - ago, 20)
}

/// How much more was bought than sold, as a share of both; what was sold is what was traded
/// and not bought.
pub open spec fn flow(bars: Seq<Bar>, i: int, w: int) -> Ratio {
    let (b, t, _) = sums_of(bars, i, w);
    let s = fixed::larger(t - b, 0);
    Ratio { num: (b - s) as i128, den: fixed::larger(b + s, 1) as i128 }
}

/// What was bought and sold.
pub open spec fn volume(bars: Seq<Bar>, i: int, w: int) -> int {
    let (b, t, _) = sums_of(bars, i, w);
    b + fixed::larger(t - b, 0)
}

/// The change of a quotient between two books.
pub open spec fn change(a: Option<Ratio>, b: Option<Ratio>) -> Term {
    match (a, b) {
        (Some(x), Some(y)) => Term::Difference(x, y),
        _ => Term::Zero,
    }
}

/// A quotient of a book, or zero without one.
pub open spec fn of_book(a: Option<Ratio>) -> Term {
    match a {
        Some(x) => Term::Quotient(x),
        None => Term::Zero,
    }
}

/// The first imbalance of a book.
pub open spec fn imb5_of(d: Option<DepthStats>) -> Option<Ratio> {
    match d {
        Some(x) => Some(x.imb5),
        None => None,
    }
}

/// The imbalance of a book within ten basis points.
pub open spec fn band10_of(d: Option<DepthStats>) -> Option<Ratio> {
    match d {
        Some(x) => Some(x.band10),
        None => None,
    }
}

/// What a name stands for in bar `i`; nothing where it is not known.
pub open spec fn term_of(bars: Seq<Bar>, i: int, name: Seq<char>) -> Option<Term> {
    let d = depth_ago(bars, i, 0);
    if name == "flow_tfi_1s"@ {
        Some(Term::Quotient(flow(bars, i, 10)))
    } else if name == "flow_tfi_5s"@ {
        Some(Term::Quotient(flow(bars, i, 50)))
    } else if name == "flow_tfi_30s"@ {
        Some(Term::Quotient(flow(bars, i, 300)))
    } else if name == "flow_vol_1s"@ {
        Some(Term::Log1p(volume(bars, i, 10) as i128))
    } else if name == "flow_n_1s"@ {
        Some(
            Term::Quotient(
                Ratio { num: sums_of(bars, i, 10).2 as i128, den: 1_000_000 },
            ),
        )
    } else if name == "flow_n_5s"@ {
        Some(
            Term::Quotient(
                Ratio { num: sums_of(bars, i, 50).2 as i128, den: 1_000_000 },
            ),
        )
    } else if name == "depth_spread_bps"@ {
        Some(
            of_book(
                match d {
                    Some(x) => Some(x.spread_bps),
                    None => None,
                },
            ),
        )
    } else if name == "depth_depth10"@ {
        Some(
            match d {
                Some(x) => Term::Log1p(x.depth10),
                None => Term::Zero,
            },
        )
    } else if name == "depth_band5"@ {
        Some(
            of_book(
                match d {
                    Some(x) => Some(x.band5),
                    None => None,
                },
            ),
        )
    } else if name == "depth_band10"@ {
        Some(of_book(band10_of(d)))
    } else if name == "depth_band25"@ {
        Some(
            of_book(
                match d {
                    Some(x) => Some(x.band25),
                    None => None,
                },
            ),
        )
    } else if name == "depth_dimb5_1s"@ {
        Some(change(imb5_of(d), imb5_of(depth_ago(bars, i, 10))))
    } else if name == "depth_dimb5_5s"@ {
        Some(change(imb5_of(d), imb5_of(depth_ago(bars, i, 50))))
    } else if name == "depth_dband10_1s"@ {
        Some(change(band10_of(d), band10_of(depth_ago(bars, i, 10))))
    } else {
        None
    }
}

/// What these names stand for; nothing where one of them is not known.
pub open spec fn terms_of(bars: Seq<Bar>, i: int, names: Seq<Seq<char>>) -> Option<Seq<Term>>
    decreases names.len(),
{
    if names.len() == 0 {
        Some(Seq::empty())
    } else {
        match (terms_of(bars, i, names.drop_last()), term_of(bars, i, names.last())) {
            (Some(s), Some(t)) => Some(s.push(t)),
            _ => None,
        }
    }
}

fn bar_at(ts_ns: i64) -> (r: i64)
    ensures
        r == bar_of(ts_ns),
        -92_233_720_369 <= r <= 92_233_720_368,
{
    div_floor(ts_ns as i128, 100_000_000) as i64
}

fn went_on(last: Option<i64>, cum: i64) -> (r: i64)
    ensures
        r == step(last, cum),
{
    match last {
        Some(p) => if cum >= p {
            sat(cum as i128 - p as i128)
        } else {
            0
        },
        None => 0,
    }
}

impl LakeFeats {
    /// Whether the bars are no more than are kept.
    pub closed spec fn wf(&self) -> bool {
        self.bars@.len() <= 340 && -92_233_720_369 - 340 <= self.first_bar <= 92_233_720_368
    }

    /// No bars.
    pub fn new() -> (r: LakeFeats)
        ensures
            r.wf(),
            r@ == no_bars(),
    {
        let r = LakeFeats {
            first_bar: 0,
            bars: VecDeque::new(),
            last_tot: None,
            last_buy: None,
            last_cnt: None,
            n_depth: 0,
            n_vol: 0,
        };
        assert(r@ =~= (LakeV {
            first: 0,
            bars: Seq::empty(),
            last_tot: None,
            last_buy: None,
            last_cnt: None,
            n_depth: 0,
            n_vol: 0,
        }));
        r
    }

    /// Reaches up to a bar, and gives its place.
    fn advance(&mut self, bar: i64) -> (r: Option<usize>)
        requires
            old(self).wf(),
            -92_233_720_369 <= bar <= 92_233_720_368,
        ensures
            final(self).wf(),
            r is None == is_gone(old(self)@, bar as int),
            match r {
                Some(i) => {
                    &&& final(self)@ == reaching(old(self)@, bar as int)
                    &&& i < final(self).bars@.len()
                    &&& i == bar - final(self)@.first
                },
                None => final(self)@ == old(self)@,
            },
    {
        let ghost l = self@;
        if self.bars.len() == 0 {
            self.first_bar = bar;
            self.bars.push_back(no_bar());
            assert(self@ =~= reaching(l, bar as int));
            return Some(0);
        }
        if bar < self.first_bar {
            return None;
        }
        let n0: usize = self.bars.len();
        let mut last: i64 = self.first_bar + n0 as i64 - 1;
        let ghost last0 = last;
        let ghost mut all = l.bars;
        while last < bar
            invariant
                self.wf(),
                self.bars@.len() > 0,
                n0 == l.bars.len(),
                n0 <= 340,
                last0 == l.first + n0 - 1,
                l.first - 1 <= last0 <= last,
                bar >= l.first,
                last <= bar || last == last0,
                -92_233_720_369 <= bar <= 92_233_720_368,
                self@ == (LakeV { first: self@.first, bars: self@.bars, ..l }),
                last == self.first_bar + self.bars@.len() - 1,
                all == l.bars + Seq::new((last - last0) as nat, |i: int| empty_bar()),
                self.bars@ == (if all.len() > 340 {
                    all.skip(all.len() - 340)
                } else {
                    all
                }),
                self.first_bar == (if all.len() > 340 {
                    last - 339
                } else {
                    l.first
                }),
            decreases bar - last,
        {
            let ghost before = all;
            let ghost b0 = self.bars@;
            self.bars.push_back(no_bar());
            last = last + 1;
            proof {
                all = l.bars + Seq::new((last - last0) as nat, |i: int| empty_bar());
                assert(all =~= before.push(empty_bar()));
            }
            if self.bars.len() > 340 {
                let ghost b1 = self.bars@;
                let _ = self.bars.pop_front();
                self.first_bar = self.first_bar + 1;
                assert(self.bars@ =~= b1.skip(1));
                assert(self.bars@ =~= all.skip(all.len() - 340));
            } else {
                assert(self.bars@ =~= all);
            }
        }
        proof {
            if bar > last0 {
                assert(last == bar);
            } else {
                assert(all =~= l.bars);
            }
        }
        assert(self@ =~= reaching(l, bar as int));
        Some((bar - self.first_bar) as usize)
    }

    fn put(&mut self, i: usize, b: Bar)
        requires
            old(self).wf(),
            i < old(self).bars@.len(),
        ensures
            final(self).wf(),
            final(self)@ == (LakeV { bars: old(self)@.bars.update(i as int, b), ..old(self)@ }),
    {
        let _ = self.bars.remove(i);
        self.bars.insert(i, b);
        assert(self.bars@ =~= old(self).bars@.update(i as int, b));
    }

    /// How many books were taken in.
    pub fn n_depth(&self) -> (r: u64)
        ensures
            r == self@.n_depth,
    {
        self.n_depth
    }

    /// How many readings of all that was traded were taken in.
    pub fn n_vol(&self) -> (r: u64)
        ensures
            r == self@.n_vol,
    {
        self.n_vol
    }

    /// Takes a book in.
    pub fn on_depth(&mut self, ts_ns: i64, bids: &Vec<(i64, i64)>, asks: &Vec<(i64, i64)>)
        requires
            old(self).wf(),
        ensures
            final(self).wf(),
            final(self)@ == after_depth(old(self)@, ts_ns, bids@, asks@),
    {
        if let Some(st) = depth_stats(bids, asks) {
            if let Some(i) = self.advance(bar_at(ts_ns)) {
                let b: Bar = self.bars[i];
                self.put(i, Bar { depth: Some(st), ..b });
                self.n_depth = self.n_depth.saturating_add(1);
            }
        }
    }

    /// Takes a reading of all that was traded in.
    pub fn on_vol(&mut self, ts_ns: i64, cum_tot: i64)
        requires
            old(self).wf(),
        ensures
            final(self).wf(),
            final(self)@ == after_vol(old(self)@, ts_ns, cum_tot),
    {
        let d: i64 = went_on(self.last_tot, cum_tot);
        self.last_tot = Some(cum_tot);
        if let Some(i) = self.advance(bar_at(ts_ns)) {
            let b: Bar = self.bars[i];
            self.put(i, Bar { tot: sat(b.tot as i128 + d as i128), ..b });
            self.n_vol = self.n_vol.saturating_add(1);
        }
    }

    /// Takes a reading of what was bought and of the number of trades in.
    pub fn on_volb(&mut self, ts_ns: i64, cum_buy: i64, cum_cnt: i64)
        requires
            old(self).wf(),
        ensures
            final(self).wf(),
            final(self)@ == after_volb(old(self)@, ts_ns, cum_buy, cum_cnt),
    {
        let db: i64 = went_on(self.last_buy, cum_buy);
        let dc: i64 = went_on(self.last_cnt, cum_cnt);
        self.last_buy = Some(cum_buy);
        self.last_cnt = Some(cum_cnt);
        if let Some(i) = self.advance(bar_at(ts_ns)) {
            let b: Bar = self.bars[i];
            self.put(
                i,
                Bar {
                    buy: sat(b.buy as i128 + db as i128),
                    cnt: sat(b.cnt as i128 + dc as i128),
                    ..b
                },
            );
        }
    }

    fn depth_before(&self, i: usize, ago: usize) -> (r: Option<DepthStats>)
        requires
            self.wf(),
            i < self.bars@.len(),
        ensures
            r == depth_ago(self.bars@, i as int, ago as int),
    {
        if i < ago {
            return None;
        }
        let mut k: usize = i - ago;
        let mut n: usize = 20;
        loop
            invariant
                k <= i,
                i < self.bars@.len(),
                depth_at(self.bars@, k as int, n as int) == depth_ago(
                    self.bars@,
                    i as int,
                    ago as int,
                ),
            decreases n,
        {
            if self.bars[k].depth.is_some() {
                return self.bars[k].depth;
            }
            if n == 0 || k == 0 {
                proof {
                    reveal_with_fuel(depth_at, 2);
                }
                return None;
            }
            k = k - 1;
            n = n - 1;
        }
    }

    fn sums(&self, i: usize, w: usize) -> (r: (i128, i128, i128))
        requires
            self.wf(),
            i < self.bars@.len(),
            w <= 300,
        ensures
            (r.0 as int, r.1 as int, r.2 as int) == sums_of(self.bars@, i as int, w as int),
            -3_400_000_000_000_000_000_000 <= r.0 <= 3_400_000_000_000_000_000_000,
            -3_400_000_000_000_000_000_000 <= r.1 <= 3_400_000_000_000_000_000_000,
            -3_400_000_000_000_000_000_000 <= r.2 <= 3_400_000_000_000_000_000_000,
    {
        let lo: usize = if w > i {
            0
        } else {
            i + 1 - w
        };
        let mut b: i128 = 0;
        let mut t: i128 = 0;
        let mut c: i128 = 0;
        let mut k: usize = lo;
        assert(sums_of(self.bars@, lo - 1, w - (i + 1 - lo)) == (0int, 0int, 0int));
        while k <= i
            invariant
                self.wf(),
                i < self.bars@.len(),
                w <= 300,
                lo <= k <= i + 1,
                i + 1 - lo <= w,
                (b as int, t as int, c as int) == sums_of(
                    self.bars@,
                    k - 1,
                    w - (i + 1 - k),
                ),
                -10_000_000_000_000_000_000 * (k - lo) <= b <= 10_000_000_000_000_000_000 * (k - lo),
                -10_000_000_000_000_000_000 * (k - lo) <= t <= 10_000_000_000_000_000_000 * (k - lo),
                -10_000_000_000_000_000_000 * (k - lo) <= c <= 10_000_000_000_000_000_000 * (k - lo),
            decreases i + 1 - k,
        {
            b = b + self.bars[k].buy as i128;
            t = t + self.bars[k].tot as i128;
            c = c + self.bars[k].cnt as i128;
            k = k + 1;
        }
        (b, t, c)
    }

    fn flow_over(&self, i: usize, w: usize) -> (r: Ratio)
        requires
            self.wf(),
            i < self.bars@.len(),
            w <= 300,
        ensures
            r == flow(self.bars@, i as int, w as int),
    {
        let (b, t, _) = self.sums(i, w);
        let s: i128 = if t - b > 0 {
            t - b
        } else {
            0
        };
        Ratio {
            num: b - s,
            den: if b + s >= 1 {
                b + s
            } else {
                1
            },
        }
    }

    fn term(&self, i: usize, name: &str) -> (r: Option<Term>)
        requires
            self.wf(),
            i < self.bars@.len(),
        ensures
            r == term_of(self.bars@, i as int, name@),
    {
        if same(name, "flow_tfi_1s") {
            return Some(Term::Quotient(self.flow_over(i, 10)));
        }
        if same(name, "flow_tfi_5s") {
            return Some(Term::Quotient(self.flow_over(i, 50)));
        }
        if same(name, "flow_tfi_30s") {
            return Some(Term::Quotient(self.flow_over(i, 300)));
        }
        if same(name, "flow_vol_1s") {
            let (b, t, _) = self.sums(i, 10);
            let s: i128 = if t - b > 0 {
                t - b
            } else {
                0
            };
            return Some(Term::Log1p(b + s));
        }
        if same(name, "flow_n_1s") {
            return Some(Term::Quotient(Ratio { num: self.sums(i, 10).2, den: 1_000_000 }));
        }
        if same(name, "flow_n_5s") {
            return Some(Term::Quotient(Ratio { num: self.sums(i, 50).2, den: 1_000_000 }));
        }
        self.depth_term(i, name)
    }

    fn depth_term(&self, i: usize, name: &str) -> (r: Option<Term>)
        requires
            self.wf(),
            i < self.bars@.len(),
            name@ != "flow_tfi_1s"@ && name@ != "flow_tfi_5s"@ && name@ != "flow_tfi_30s"@,
            name@ != "flow_vol_1s"@ && name@ != "flow_n_1s"@ && name@ != "flow_n_5s"@,
        ensures
            r == term_of(self.bars@, i as int, name@),
    {
        let d = self.depth_before(i, 0);
        if same(name, "depth_spread_bps") {
            return Some(
                match d {
                    Some(x) => Term::Quotient(x.spread_bps),
                    None => Term::Zero,
                },
            );
        }
        if same(name, "depth_depth10") {
            return Some(
                match d {
                    Some(x) => Term::Log1p(x.depth10),
                    None => Term::Zero,
                },
            );
        }
        if same(name, "depth_band5") {
            return Some(
                match d {
                    Some(x) => Term::Quotient(x.band5),
                    None => Term::Zero,
                },
            );
        }
        if same(name, "depth_band10") {
            return Some(
                match d {
                    Some(x) => Term::Quotient(x.band10),
                    None => Term::Zero,
                },
            );
        }
        if same(name, "depth_band25") {
            return Some(
                match d {
                    Some(x) => Term::Quotient(x.band25),
                    None => Term::Zero,
                },
            );
        }
        if same(name, "depth_dimb5_1s") {
            return Some(
                match (d, self.depth_before(i, 10)) {
                    (Some(x), Some(y)) => Term::Difference(x.imb5, y.imb5),
                    _ => Term::Zero,
                },
            );
        }
        if same(name, "depth_dimb5_5s") {
            return Some(
                match (d, self.depth_before(i, 50)) {
                    (Some(x), Some(y)) => Term::Difference(x.imb5, y.imb5),
                    _ => Term::Zero,
                },
            );
        }
        if same(name, "depth_dband10_1s") {
            return Some(
                match (d, self.depth_before(i, 10)) {
                    (Some(x), Some(y)) => Term::Difference(x.band10, y.band10),
                    _ => Term::Zero,
                },
            );
        }
        None
    }

    /// What these names stand for at an instant; nothing where one of them is not known or the
    /// instant is before the first bar.
    pub fn features(&mut self, now_ns: i64, names: &Vec<String>) -> (r: Option<Vec<Term>>)
        requires
            old(self).wf(),
        ensures
            final(self).wf(),
            ({
                let bar = bar_of(now_ns);
                let gone = is_gone(old(self)@, bar);
                let l = reaching(old(self)@, bar);
                &&& final(self)@ == (if gone {
                    old(self)@
                } else {
                    l
                })
                &&& match r {
                    Some(v) => !gone && terms_of(l.bars, bar - l.first, text::views(names@))
                        == Some(v@),
                    None => gone || terms_of(l.bars, bar - l.first, text::views(names@)) is None,
                }
            }),
    {
        let i: usize = match self.advance(bar_at(now_ns)) {
            Some(i) => i,
            None => {
                return None;
            },
        };
        let ghost nv = text::views(names@);
        let mut out: Vec<Term> = Vec::new();
        let mut k: usize = 0;
        assert(nv.take(0) =~= Seq::<Seq<char>>::empty());
        while k < names.len()
            invariant
                self.wf(),
                i < self.bars@.len(),
                !is_gone(old(self)@, bar_of(now_ns)),
                self@ == reaching(old(self)@, bar_of(now_ns)),
                i == bar_of(now_ns) - self@.first,
                nv == text::views(names@),
                k <= names@.len(),
                terms_of(self.bars@, i as int, nv.take(k as int)) == Some(out@),
            decreases names@.len() - k,
        {
            assert(nv.take(k + 1).drop_last() =~= nv.take(k as int));
            assert(nv.take(k + 1).last() == names@[k as int]@);
            match self.term(i, names[k].as_str()) {
                Some(t) => out.push(t),
                None => {
                    proof {
                        assert(nv[k as int] == names@[k as int]@);
                        lemma_unknown(self.bars@, i as int, nv, k as int);
                    }
                    return None;
                },
            }
            k = k + 1;
        }
        assert(nv.take(nv.len() as int) =~= nv);
        Some(out)
    }
}

impl Default for LakeFeats {
    fn default() -> (r: LakeFeats)
        ensures
            r.wf(),
            r@ == no_bars(),
    {
        LakeFeats::new()
    }
}

proof fn lemma_unknown(bars: Seq<Bar>, i: int, names: Seq<Seq<char>>, k: int)
    requires
        0 <= k < names.len(),
        term_of(bars, i, names[k]) is None,
    ensures
        terms_of(bars, i, names) is None,
    decreases names.len(),
{
    if k < names.len() - 1 {
        assert(names.drop_last()[k] == names[k]);
        lemma_unknown(bars, i, names.drop_last(), k);
    }
}

/// Whatever is taken in, the bars stay one behind the other: a bar that is kept keeps its
/// number.
pub proof fn law_bars_keep_their_numbers(l: LakeV, bar: int, n: int)
    requires
        0 < l.bars.len() <= 340,
        l.first <= n < l.first + l.bars.len(),
        reaching(l, bar).first <= n,
    ensures
        n < reaching(l, bar).first + reaching(l, bar).bars.len(),
        reaching(l, bar).bars[n - reaching(l, bar).first] == l.bars[n - l.first],
{
}

/// A book that is more than twenty bars old is not read any more.
pub proof fn law_old_books_are_not_read(bars: Seq<Bar>, i: int)
    requires
        0 <= i < bars.len(),
        forall|k: int| i - 20 <= k <= i && 0 <= k ==> (#[trigger] bars[k]).depth is None,
    ensures
        depth_ago(bars, i, 0) is None,
{
    lemma_no_depth(bars, i, 20);
}

proof fn lemma_no_depth(bars: Seq<Bar>, i: int, n: int)
    requires
        0 <= n,
        forall|k: int| i - n <= k <= i && 0 <= k ==> (#[trigger] bars[k]).depth is None,
    ensures
        depth_at(bars, i, n) is None,
    decreases n,
{
    if i >= 0 {
        assert(bars[i].depth is None);
        if n > 0 {
            lemma_no_depth(bars, i - 1, n - 1);
        }
    }
}

/// The shape of a book: it is told exactly where both sides are there and not crossed. The
/// spread is over the mid, in basis points; an imbalance is positive where the bids are the
/// heavier, as a share of both sides.
pub proof fn law_shapes_of_books(bids: Seq<(i64, i64)>, asks: Seq<(i64, i64)>, b: int, a: int)
    requires
        0 <= b <= 0x1_0000_0000_0000_0000_0000,
        0 <= a <= 0x1_0000_0000_0000_0000_0000,
        b + a > 0,
    ensures
        stats_of(bids, asks) is Some <==> bids.len() > 0 && asks.len() > 0 && 0 < bids[0].0
            && bids[0].0 < asks[0].0,
        stats_of(bids, asks) matches Some(s) ==> {
            &&& s.spread_bps.num == 20_000 * (asks[0].0 - bids[0].0)
            &&& s.spread_bps.den == bids[0].0 + asks[0].0
            &&& s.imb5 == imbalance(size_of(bids, 5), size_of(asks, 5))
            &&& s.band5 == band(bids, asks, 5) && s.band10 == band(bids, asks, 10) && s.band25
                == band(bids, asks, 25)
        },
        imbalance(b, a).num == b - a,
        imbalance(b, a).den == b + a,
        b > a ==> imbalance(b, a).num > 0,
        b < a ==> imbalance(b, a).num < 0,
{
}

/// The sizes of the first levels add up; levels that are not there count nothing. A level is
/// in a band where it is no further than so many basis points from the mid, below it for a
/// bid and above it for an ask.
pub proof fn law_sizes_of_levels_add_up(
    s: Seq<(i64, i64)>,
    x: (i64, i64),
    n: int,
    bid: i64,
    ask: i64,
    w: int,
)
    requires
        n >= s.len(),
        0 < bid,
        bid < ask,
    ensures
        size_of(s.push(x), n + 1) == size_of(s, n) + x.1,
        size_of(Seq::empty(), n) == 0,
        within(x.0, bid + ask, w, true) <==> (bid + ask - 2 * x.0) * 10_000 <= w * (bid + ask),
        within(x.0, bid + ask, w, false) <==> (2 * x.0 - bid - ask) * 10_000 <= w * (bid + ask),
        forall|up: bool|
            #[trigger] band_size(s.push(x), n + 1, bid + ask, w, up) == band_size(
                s,
                n,
                bid + ask,
                w,
                up,
            ) + (if within(x.0, bid + ask, w, up) {
                x.1 as int
            } else {
                0
            }),
{
    lemma_size_beyond(s, s.push(x), s.len() as int);
    lemma_size_rest(s, n);
    lemma_size_rest(s.push(x), n + 1);
    lemma_size_rest(Seq::empty(), n);
    let t = bid + ask;
    assert(t * (10_000 - w) == t * 10_000 - w * t && t * (10_000 + w) == t * 10_000 + w * t)
        by (nonlinear_arith);
    assert forall|up: bool|
        #[trigger] band_size(s.push(x), n + 1, t, w, up) == band_size(s, n, t, w, up) + (if within(
            x.0,
            t,
            w,
            up,
        ) {
            x.1 as int
        } else {
            0
        }) by {
        lemma_band_same(s, s.push(x), s.len() as int, t, w, up);
        lemma_band_rest(s, n, t, w, up);
        lemma_band_rest(s.push(x), n + 1, t, w, up);
    }
}

/// What is beyond the last level counts nothing.
proof fn lemma_size_rest(s: Seq<(i64, i64)>, n: int)
    requires
        n >= s.len(),
    ensures
        size_of(s, n) == size_of(s, s.len() as int),
    decreases n,
{
    if n > s.len() {
        lemma_size_rest(s, n - 1);
    }
}

/// Only the first levels count.
proof fn lemma_size_beyond(s: Seq<(i64, i64)>, t: Seq<(i64, i64)>, n: int)
    requires
        0 <= n <= s.len() <= t.len(),
        forall|i: int| 0 <= i < s.len() ==> s[i] == t[i],
    ensures
        size_of(s, n) == size_of(t, n),
    decreases n,
{
    if n > 0 {
        lemma_size_beyond(s, t, n - 1);
    }
}

/// What is beyond the last level counts nothing.
proof fn lemma_band_rest(s: Seq<(i64, i64)>, n: int, twice: int, w: int, bid: bool)
    requires
        n >= s.len(),
    ensures
        band_size(s, n, twice, w, bid) == band_size(s, s.len() as int, twice, w, bid),
    decreases n,
{
    if n > s.len() {
        lemma_band_rest(s, n - 1, twice, w, bid);
    }
}

/// Only the first levels count.
proof fn lemma_band_same(
    s: Seq<(i64, i64)>,
    t: Seq<(i64, i64)>,
    n: int,
    twice: int,
    w: int,
    bid: bool,
)
    requires
        0 <= n <= s.len() <= t.len(),
        forall|i: int| 0 <= i < s.len() ==> s[i] == t[i],
    ensures
        band_size(s, n, twice, w, bid) == band_size(t, n, twice, w, bid),
    decreases n,
{
    if n > 0 {
        lemma_band_same(s, t, n - 1, twice, w, bid);
    }
}

/// A counter counts how far it went on: its first reading, and one after it was set back,
/// count nothing.
pub proof fn law_counters_count_their_steps(p: i64, cum: i64)
    ensures
        step(None, cum) == 0,
        cum >= p && cum - p <= i64::MAX ==> step(Some(p), cum) == cum - p,
        cum < p ==> step(Some(p), cum) == 0,
{
}

/// A reading goes to the bar of its instant, and no other bar of those that are kept changes:
/// what was traded grows by the step, and so do what was bought and the count.
pub proof fn law_readings_go_to_their_bar(
    l: LakeV,
    ts_ns: i64,
    cum: i64,
    cum_buy: i64,
    cum_cnt: i64,
    k: int,
)
    requires
        0 < l.bars.len() <= 340,
        l.first <= ts_ns as int / 100_000_000 < l.first + l.bars.len(),
        0 <= k < l.bars.len(),
    ensures
        ({
            let i = ts_ns as int / 100_000_000 - l.first;
            let v = after_vol(l, ts_ns, cum);
            let w = after_volb(l, ts_ns, cum_buy, cum_cnt);
            &&& v.first == l.first && v.bars.len() == l.bars.len()
            &&& k != i ==> v.bars[k] == l.bars[k] && w.bars[k] == l.bars[k]
            &&& v.last_tot == Some(cum) && w.last_buy == Some(cum_buy) && w.last_cnt == Some(
                cum_cnt,
            )
            &&& v.bars[i].buy == l.bars[i].buy && v.bars[i].cnt == l.bars[i].cnt && v.bars[i].depth
                == l.bars[i].depth
            &&& i64::MIN <= l.bars[i].tot + step(l.last_tot, cum) <= i64::MAX ==> v.bars[i].tot
                == l.bars[i].tot + step(l.last_tot, cum)
            &&& w.bars[i].tot == l.bars[i].tot
            &&& i64::MIN <= l.bars[i].buy + step(l.last_buy, cum_buy) <= i64::MAX ==> w.bars[i].buy
                == l.bars[i].buy + step(l.last_buy, cum_buy)
            &&& i64::MIN <= l.bars[i].cnt + step(l.last_cnt, cum_cnt) <= i64::MAX ==> w.bars[i].cnt
                == l.bars[i].cnt + step(l.last_cnt, cum_cnt)
        }),
{
}

/// A book is noted in the bar of its instant, in place of the one before it.
pub proof fn law_books_are_noted_in_their_bar(
    l: LakeV,
    ts_ns: i64,
    bids: Seq<(i64, i64)>,
    asks: Seq<(i64, i64)>,
    k: int,
)
    requires
        0 < l.bars.len() <= 340,
        l.first <= ts_ns as int / 100_000_000 < l.first + l.bars.len(),
        0 <= k < l.bars.len(),
    ensures
        ({
            let i = ts_ns as int / 100_000_000 - l.first;
            let v = after_depth(l, ts_ns, bids, asks);
            &&& stats_of(bids, asks) is Some ==> v.bars[i].depth == stats_of(bids, asks)
                && v.bars[i].tot == l.bars[i].tot && v.bars[i].buy == l.bars[i].buy
            &&& k != i ==> v.bars[k] == l.bars[k]
            &&& stats_of(bids, asks) is None ==> v == l
        }),
{
}

/// The sums over the last bars add up, bar by bar; the flow is what was bought less what was
/// sold, over both.
pub proof fn law_flow_is_bought_less_sold(bars: Seq<Bar>, i: int, w: int)
    requires
        0 <= i < bars.len(),
        w > 0,
    ensures
        sums_of(bars, i, w) == (
            sums_of(bars, i - 1, w - 1).0 + bars[i].buy,
            sums_of(bars, i - 1, w - 1).1 + bars[i].tot,
            sums_of(bars, i - 1, w - 1).2 + bars[i].cnt,
        ),
        ({
            let b = sums_of(bars, i, w).0;
            let t = sums_of(bars, i, w).1;
            0 <= b <= t && 0 < t <= 0x1_0000_0000_0000_0000_0000 ==> {
                &&& flow(bars, i, w).num == b - (t - b)
                &&& flow(bars, i, w).den == t
                &&& volume(bars, i, w) == t
            }
        }),
{
}

/// The bar features by their names: flows over one, five and thirty seconds, and what is read
/// off the book that holds and those that held a second and five seconds ago.
pub proof fn law_bar_features_by_name(bars: Seq<Bar>, i: int)
    ensures
        term_of(bars, i, "flow_tfi_1s"@) == Some(Term::Quotient(flow(bars, i, 10))),
        term_of(bars, i, "flow_tfi_5s"@) == Some(Term::Quotient(flow(bars, i, 50))),
        term_of(bars, i, "flow_tfi_30s"@) == Some(Term::Quotient(flow(bars, i, 300))),
        term_of(bars, i, "flow_vol_1s"@) == Some(Term::Log1p(volume(bars, i, 10) as i128)),
        term_of(bars, i, "flow_n_1s"@) == Some(
            Term::Quotient(Ratio { num: sums_of(bars, i, 10).2 as i128, den: 1_000_000 }),
        ),
        term_of(bars, i, "flow_n_5s"@) == Some(
            Term::Quotient(Ratio { num: sums_of(bars, i, 50).2 as i128, den: 1_000_000 }),
        ),
        depth_ago(bars, i, 0) matches Some(d) ==> {
            &&& term_of(bars, i, "depth_spread_bps"@) == Some(Term::Quotient(d.spread_bps))
            &&& term_of(bars, i, "depth_depth10"@) == Some(Term::Log1p(d.depth10))
            &&& term_of(bars, i, "depth_band5"@) == Some(Term::Quotient(d.band5))
            &&& term_of(bars, i, "depth_band10"@) == Some(Term::Quotient(d.band10))
            &&& term_of(bars, i, "depth_band25"@) == Some(Term::Quotient(d.band25))
            &&& depth_ago(bars, i, 10) matches Some(e) ==> {
                &&& term_of(bars, i, "depth_dimb5_1s"@) == Some(Term::Difference(d.imb5, e.imb5))
                &&& term_of(bars, i, "depth_dband10_1s"@) == Some(
                    Term::Difference(d.band10, e.band10),
                )
            }
            &&& depth_ago(bars, i, 50) matches Some(e) ==> term_of(bars, i, "depth_dimb5_5s"@)
                == Some(Term::Difference(d.imb5, e.imb5))
        },
{
    reveal_strlit("flow_tfi_1s");
    reveal_strlit("flow_tfi_5s");
    reveal_strlit("flow_tfi_30s");
    reveal_strlit("flow_vol_1s");
    reveal_strlit("flow_n_1s");
    reveal_strlit("flow_n_5s");
    reveal_strlit("depth_spread_bps");
    reveal_strlit("depth_depth10");
    reveal_strlit("depth_band5");
    reveal_strlit("depth_band10");
    reveal_strlit("depth_band25");
    reveal_strlit("depth_dimb5_1s");
    reveal_strlit("depth_dimb5_5s");
    reveal_strlit("depth_dband10_1s");
    assert("flow_tfi_1s"@[9] != "flow_tfi_5s"@[9]);
    assert("flow_tfi_1s"@[5] != "flow_vol_1s"@[5]);
    assert("flow_tfi_5s"@[5] != "flow_vol_1s"@[5]);
    assert("flow_n_1s"@[7] != "flow_n_5s"@[7]);
    assert("depth_band5"@[0] != "flow_tfi_1s"@[0]);
    assert("depth_band5"@[0] != "flow_tfi_5s"@[0]);
    assert("depth_band5"@[0] != "flow_vol_1s"@[0]);
    assert("depth_band10"@[0] != "flow_tfi_30s"@[0]);
    assert("depth_band25"@[0] != "flow_tfi_30s"@[0]);
    assert("depth_band10"@[10] != "depth_band25"@[10]);
    assert("depth_dimb5_1s"@[12] != "depth_dimb5_5s"@[12]);
    assert("depth_depth10"@.len() == 13 && "depth_dband10_1s"@.len() == 16);
    assert("depth_dimb5_1s"@.len() == 14 && "depth_dimb5_5s"@.len() == 14);
    assert("depth_band5"@.len() == 11 && "depth_band10"@.len() == 12 && "depth_band25"@.len() == 12);
    assert("flow_tfi_1s"@.len() == 11 && "flow_tfi_30s"@.len() == 12 && "flow_n_1s"@.len() == 9);
    assert("depth_dband10_1s"@[6] != "depth_spread_bps"@[6]);
}

/// The bars reach up to the bar asked for, the new ones empty, and no more are kept than
/// should be.
pub proof fn law_bars_reach_the_instant(l: LakeV, bar: int, k: int)
    requires
        l.bars.len() <= 340,
        l.bars.len() > 0 ==> bar >= l.first,
    ensures
        ({
            let r = reaching(l, bar);
            &&& r.first <= bar < r.first + r.bars.len()
            &&& 0 < r.bars.len() <= 340
            &&& l.bars.len() > 0 && bar < l.first + l.bars.len() ==> r == l
            &&& l.bars.len() > 0 && l.first + l.bars.len() <= k <= bar && k >= r.first ==> r.bars[k
                - r.first] == empty_bar()
            &&& l.bars.len() == 0 ==> r.first == bar && r.bars.len() == 1 && r.bars[0]
                == empty_bar()
        }),
        empty_bar().buy == 0 && empty_bar().tot == 0 && empty_bar().cnt == 0 && empty_bar().depth
            is None,
        is_gone(l, k) <==> l.bars.len() > 0 && k < l.first,
        no_bars().bars.len() == 0,
{
}

} // verus!
