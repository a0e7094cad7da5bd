//! The recent past of the reference and of every market, on a grid and at lags.
use vstd::prelude::*;
use std::collections::VecDeque;
use crate::fixed;
use crate::fixed::sat;
use crate::ring;
use crate::ring::find_as_of;
use crate::strmap::StrMap;

verus! {

/// A price that holds until the next one, read off every fifth of a second. `vals` are the
/// last readings, and `moves` how far the price had moved over the second before each.
#[derive(Debug)]
pub struct Grid {
    next_ns: i128,
    vals: VecDeque<i64>,
    moves: VecDeque<i64>,
}

/// A grid, as the contracts see it.
#[verifier::ext_equal]
pub struct GridV {
    pub next_ns: int,
    pub vals: Seq<i64>,
    pub moves: Seq<i64>,
}

impl View for Grid {
    type V = GridV;

    closed spec fn view(&self) -> GridV {
        GridV { next_ns: self.next_ns as int, vals: self.vals@, moves: self.moves@ }
    }
}

/// `s` with one more, and without its first where there are then more than `cap`.
pub open spec fn capped(s: Seq<i64>, x: i64, cap: int) -> Seq<i64> {
    if s.push(x).len() > cap {
        s.push(x).skip(1)
    } else {
        s.push(x)
    }
}

/// A grid with one more reading: 606 are kept, and the last 600 moves.
pub open spec fn read(g: GridV, v: i64) -> GridV {
    let vals = capped(g.vals, v, 606);
    GridV {
        next_ns: g.next_ns + 200_000_000,
        vals,
        moves: if vals.len() > 5 {
            capped(g.moves, fixed::clamp64(v - vals[vals.len() - 6]) as i64, 600)
        } else {
            g.moves
        },
    }
}

/// How far ahead `end` is.
pub open spec fn ahead(next_ns: int, end: int) -> nat {
    if next_ns < end {
        (end - next_ns) as nat
    } else {
        0
    }
}

/// A grid with all readings before `end`.
pub open spec fn filled(g: GridV, end: int, v: i64) -> GridV
    decreases ahead(g.next_ns, end),
{
    if g.next_ns < end {
        filled(read(g, v), end, v)
    } else {
        g
    }
}

fn push_capped(q: &mut VecDeque<i64>, x: i64, cap: usize)
    requires
        cap > 0,
        old(q)@.len() <= cap,
    ensures
        final(q)@ == capped(old(q)@, x, cap as int),
        final(q)@.len() <= cap,
{
    q.push_back(x);
    if q.len() > cap {
        let ghost before = q@;
        let _ = q.pop_front();
        assert(q@ =~= before.skip(1));
    }
}

impl Grid {
    /// Whether the grid holds no more than it should.
    pub closed spec fn wf(&self) -> bool {
        self.vals@.len() <= 606 && self.moves@.len() <= 600
    }

    fn new(next_ns: i128) -> (r: Grid)
        ensures
            r.wf(),
            r@ == (GridV {
                next_ns: next_ns as int,
                vals: Seq::empty(),
                moves: Seq::empty(),
            }),
    {
        let r = Grid { next_ns, vals: VecDeque::new(), moves: VecDeque::new() };
        assert(r@ =~= (GridV {
            next_ns: next_ns as int,
            vals: Seq::empty(),
            moves: Seq::empty(),
        }));
        r
    }

    fn fill(&mut self, end: i128, v: i64)
        requires
            old(self).wf(),
            end <= 0x1_0000_0000_0000_0000,
        ensures
            final(self).wf(),
            final(self)@ == filled(old(self)@, end as int, v),
    {
        let ghost g = self@;
        while self.next_ns < end
            invariant
                self.wf(),
                end <= 0x1_0000_0000_0000_0000,
                filled(self@, end as int, v) == filled(g, end as int, v),
            decreases ahead(self.next_ns as int, end as int),
        {
            let ghost before = self@;
            push_capped(&mut self.vals, v, 606);
            let n: usize = self.vals.len();
            if n > 5 {
                let d = sat(v as i128 - self.vals[n - 6] as i128);
                push_capped(&mut self.moves, d, 600);
            }
            self.next_ns = self.next_ns + 200_000_000;
            assert(self@ =~= read(before, v));
        }
    }
}

/// What is left of a history: the newest sample that is at least eight seconds old stays, so
/// that what held then is still known.
pub open spec fn pruned(s: Seq<(i64, i64)>, now: i64) -> Seq<(i64, i64)>
    decreases s.len(),
{
    if s.len() >= 2 && s[1].0 <= now - 8_000_000_000 {
        pruned(s.skip(1), now)
    } else {
        s
    }
}

fn prune(q: &mut VecDeque<(i64, i64)>, now: i64)
    ensures
        final(q)@ == pruned(old(q)@, now),
{
    let cutoff: i128 = now as i128 - 8_000_000_000;
    let mut going: bool = true;
    while going
        invariant
            cutoff == now - 8_000_000_000,
            pruned(q@, now) == pruned(old(q)@, now),
            !going ==> q@ == pruned(q@, now),
        decreases q@.len(), going as int,
    {
        if q.len() >= 2 && q[1].0 as i128 <= cutoff {
            let ghost before = q@;
            let _ = q.pop_front();
            assert(q@ =~= before.skip(1));
        } else {
            going = false;
        }
    }
}

/// The histories of the reference and of the markets. Mids are in halves of a micro-unit.
pub struct Hist {
    perp: VecDeque<(i64, i64)>,
    perp_last: i64,
    grid: Option<Grid>,
    yes: StrMap<VecDeque<(i64, i64)>>,
}

/// The histories, as the contracts see them.
#[verifier::ext_equal]
pub struct HistV {
    pub perp: Seq<(i64, i64)>,
    pub perp_last: i64,
    pub grid: Option<GridV>,
    pub yes: Map<Seq<char>, Seq<(i64, i64)>>,
}

/// The histories before anything is seen.
pub open spec fn nothing_seen() -> HistV {
    HistV { perp: Seq::empty(), perp_last: 0, grid: None, yes: Map::empty() }
}

impl View for Hist {
    type V = HistV;

    closed spec fn view(&self) -> HistV {
        HistV {
            perp: self.perp@,
            perp_last: self.perp_last,
            grid: match self.grid {
                Some(g) => Some(g@),
                None => None,
            },
            yes: self.yes@.map_values(|q: VecDeque<(i64, i64)>| q@),
        }
    }
}

/// The histories with the grid read up to `end`.
pub open spec fn read_up_to(h: HistV, end: int) -> HistV {
    match h.grid {
        Some(g) => HistV { grid: Some(filled(g, end, h.perp_last)), ..h },
        None => h,
    }
}

/// The histories after a mid of the reference. The grid begins a second after the first.
pub open spec fn after_perp(h: HistV, ts: i64, mid: i64) -> HistV {
    if mid <= 0 {
        h
    } else {
        let g = match h.grid {
            Some(_) => h,
            None => HistV {
                grid: Some(
                    GridV { next_ns: ts + 1_000_000_000, vals: Seq::empty(), moves: Seq::empty() },
                ),
                perp_last: mid,
                ..h
            },
        };
        HistV {
            perp: pruned(h.perp.push((ts, mid)), ts),
            perp_last: mid,
            ..read_up_to(g, ts as int)
        }
    }
}

/// The history of a market.
pub open spec fn yes_in(h: HistV, inst: Seq<char>) -> Seq<(i64, i64)> {
    if h.yes.contains_key(inst) {
        h.yes[inst]
    } else {
        Seq::empty()
    }
}

/// The histories after a mid of a market.
pub open spec fn after_yes(h: HistV, inst: Seq<char>, ts: i64, mid: i64) -> HistV {
    if mid <= 0 {
        h
    } else {
        HistV { yes: h.yes.insert(inst, pruned(yes_in(h, inst).push((ts, mid)), ts)), ..h }
    }
}

/// What held so many grid steps ago.
pub open spec fn lagged(s: Seq<(i64, i64)>, now: i64, j: int) -> Option<i64> {
    match ring::as_of(s, now - 200_000_000 * j) {
        Some(x) => Some(x.1),
        None => None,
    }
}

/// What held at each of these lags; nothing where one of them is before the first sample.
pub open spec fn all_lagged(s: Seq<(i64, i64)>, now: i64, lags: Seq<u32>) -> Option<Seq<i64>>
    decreases lags.len(),
{
    if lags.len() == 0 {
        Some(Seq::empty())
    } else {
        match (all_lagged(s, now, lags.drop_last()), lagged(s, now, lags.last() as int)) {
            (Some(v), Some(x)) => Some(v.push(x)),
            _ => None,
        }
    }
}

/// The lagged mids of a market and of the reference.
#[derive(Debug)]
pub struct Lags {
    pub yes: Vec<i64>,
    pub perp: Vec<i64>,
    /// The moves of the reference over a second; nothing while there are fewer than 200.
    pub moves: Option<Vec<i64>>,
}

/// The lagged mids, as the contracts see them.
pub struct LagsV {
    pub yes: Seq<i64>,
    pub perp: Seq<i64>,
    pub moves: Option<Seq<i64>>,
}

impl View for Lags {
    type V = LagsV;

    open spec fn view(&self) -> LagsV {
        LagsV {
            yes: self.yes@,
            perp: self.perp@,
            moves: match self.moves {
                Some(m) => Some(m@),
                None => None,
            },
        }
    }
}

/// The moves that a spread can be told from: at least 200 of them.
pub open spec fn moves_of(g: GridV) -> Option<Seq<i64>> {
    if g.moves.len() < 200 {
        None
    } else {
        Some(g.moves)
    }
}

/// The lagged mids at an instant, once the grid is read up to it, the instant included.
pub open spec fn lags_of(h: HistV, inst: Seq<char>, now: i64, lags: Seq<u32>) -> Option<LagsV> {
    if h.yes.contains_key(inst) && h.grid is Some {
        match (all_lagged(h.yes[inst], now, lags), all_lagged(h.perp, now, lags)) {
            (Some(y), Some(p)) => Some(LagsV { yes: y, perp: p, moves: moves_of(h.grid->0) }),
            _ => None,
        }
    } else {
        None
    }
}

fn lag_all(q: &VecDeque<(i64, i64)>, now: i64, lags: &Vec<u32>) -> (r: Option<Vec<i64>>)
    ensures
        match r {
            Some(v) => all_lagged(q@, now, lags@) == Some(v@),
            None => all_lagged(q@, now, lags@) is None,
        },
{
    let mut v: Vec<i64> = Vec::new();
    let mut i: usize = 0;
    assert(lags@.take(0) =~= Seq::<u32>::empty());
    while i < lags.len()
        invariant
            i <= lags@.len(),
            all_lagged(q@, now, lags@.take(i as int)) == Some(v@),
        decreases lags@.len() - i,
    {
        assert(lags@.take(i + 1).drop_last() =~= lags@.take(i as int));
        assert(lags@.take(i + 1).last() == lags@[i as int]);
        match find_as_of(q, now as i128 - 200_000_000 * lags[i] as i128) {
            Some(k) => v.push(q[k].1),
            None => {
                proof {
                    lemma_missing(q@, now, lags@, i as int);
                }
                return None;
            },
        }
        i = i + 1;
    }
    assert(lags@.take(lags@.len() as int) =~= lags@);
    Some(v)
}

proof fn lemma_missing(s: Seq<(i64, i64)>, now: i64, lags: Seq<u32>, i: int)
    requires
        0 <= i < lags.len(),
        lagged(s, now, lags[i] as int) is None,
    ensures
        all_lagged(s, now, lags) is None,
    decreases lags.len(),
{
    if i < lags.len() - 1 {
        assert(lags.drop_last()[i] == lags[i]);
        lemma_missing(s, now, lags.drop_last(), i);
    }
}

impl Hist {
    /// Whether the grid holds no more than it should.
    pub closed spec fn wf(&self) -> bool {
        self.grid matches Some(g) ==> g.wf()
    }

    /// Nothing seen yet.
    pub fn new() -> (r: Hist)
        ensures
            r.wf(),
            r@ == nothing_seen(),
    {
        let r = Hist { perp: VecDeque::new(), perp_last: 0, grid: None, yes: StrMap::new() };
        assert(r@ =~= (HistV {
            perp: Seq::empty(),
            perp_last: 0,
            grid: None,
            yes: Map::empty(),
        }));
        r
    }

    fn read_up_to(&mut self, end: i128)
        requires
            old(self).wf(),
            end <= 0x1_0000_0000_0000_0000,
        ensures
            final(self).wf(),
            final(self)@ == read_up_to(old(self)@, end as int),
    {
        let mut slot: Option<Grid> = None;
        std::mem::swap(&mut slot, &mut self.grid);
        if let Some(mut g) = slot {
            g.fill(end, self.perp_last);
            self.grid = Some(g);
        }
    }

    /// Takes a mid of the reference in.
    pub fn on_perp(&mut self, ts_ns: i64, mid: i64)
        requires
            old(self).wf(),
        ensures
            final(self).wf(),
            final(self)@ == after_perp(old(self)@, ts_ns, mid),
    {
        if mid <= 0 {
            return;
        }
        if self.grid.is_none() {
            self.grid = Some(Grid::new(ts_ns as i128 + 1_000_000_000));
            self.perp_last = mid;
        }
        self.read_up_to(ts_ns as i128);
        self.perp_last = mid;
        self.perp.push_back((ts_ns, mid));
        prune(&mut self.perp, ts_ns);
    }

    /// Takes a mid of a market in.
    pub fn on_yes(&mut self, inst: &str, ts_ns: i64, mid: i64)
        requires
            old(self).wf(),
        ensures
            final(self).wf(),
            final(self)@ == after_yes(old(self)@, inst@, ts_ns, mid),
    {
        if mid <= 0 {
            return;
        }
        let mut q = match self.yes.remove(inst) {
            Some(q) => q,
            None => {
                let e: VecDeque<(i64, i64)> = VecDeque::new();
                assert(e@ =~= Seq::<(i64, i64)>::empty());
                e
            },
        };
        q.push_back((ts_ns, mid));
        prune(&mut q, ts_ns);
        let ghost v = q@;
        self.yes.insert(inst.to_string(), q);
        assert(self@.yes =~= old(self)@.yes.insert(inst@, v));
    }

    /// Forgets a market.
    pub fn remove(&mut self, inst: &str)
        requires
            old(self).wf(),
        ensures
            final(self).wf(),
            final(self)@ == (HistV { yes: old(self)@.yes.remove(inst@), ..old(self)@ }),
    {
        let _ = self.yes.remove(inst);
        assert(self@.yes =~= old(self)@.yes.remove(inst@));
    }

    /// The lagged mids at an instant; nothing while a history is too short.
    pub fn hist_block(&mut self, inst: &str, now: i64, lags: &Vec<u32>, perp_now: i64) -> (r: Option<
        Lags,
    >)
        requires
            old(self).wf(),
        ensures
            final(self).wf(),
            final(self)@ == (if perp_now > 0 {
                read_up_to(old(self)@, now + 1)
            } else {
                old(self)@
            }),
            match r {
                Some(l) => perp_now > 0 && lags_of(final(self)@, inst@, now, lags@) == Some(l@),
                None => perp_now > 0 ==> lags_of(final(self)@, inst@, now, lags@) is None,
            },
    {
        if perp_now <= 0 {
            return None;
        }
        self.read_up_to(now as i128 + 1);
        let g = match &self.grid {
            Some(g) => g,
            None => {
                return None;
            },
        };
        let q = match self.yes.get(inst) {
            Some(q) => q,
            None => {
                return None;
            },
        };
        let yes = match lag_all(q, now, lags) {
            Some(v) => v,
            None => {
                return None;
            },
        };
        let perp = match lag_all(&self.perp, now, lags) {
            Some(v) => v,
            None => {
                return None;
            },
        };
        let n: usize = g.moves.len();
        let moves: Option<Vec<i64>> = if n < 200 {
            None
        } else {
            let mut m: Vec<i64> = Vec::new();
            let mut i: usize = 0;
            while i < n
                invariant
                    n == g.moves@.len(),
                    i <= n,
                    m@ == g.moves@.take(i as int),
                decreases n - i,
            {
                m.push(g.moves[i]);
                assert(g.moves@.take(i + 1) =~= g.moves@.take(i as int).push(g.moves@[i as int]));
                i = i + 1;
            }
            assert(g.moves@.take(n as int) =~= g.moves@);
            Some(m)
        };
        Some(Lags { yes, perp, moves })
    }
}

impl Default for Hist {
    fn default() -> (r: Hist)
        ensures
            r.wf(),
            r@ == nothing_seen(),
    {
        Hist::new()
    }
}

/// A grid that is read in two goes is as if it were read in one.
pub proof fn law_reading_can_be_split(g: GridV, mid: int, end: int, v: i64)
    requires
        mid <= end,
    ensures
        filled(filled(g, mid, v), end, v) == filled(g, end, v),
    decreases ahead(g.next_ns, mid),
{
    if g.next_ns < mid {
        law_reading_can_be_split(read(g, v), mid, end, v);
    }
}

/// Pruning keeps what held at every instant of the last eight seconds.
pub proof fn law_pruning_keeps_the_lags(s: Seq<(i64, i64)>, now: i64, t: int)
    requires
        ring::in_order(s),
        t >= now - 8_000_000_000,
    ensures
        ring::as_of(pruned(s, now), t) == ring::as_of(s, t),
    decreases s.len(),
{
    if s.len() >= 2 && s[1].0 <= now - 8_000_000_000 {
        let u = s.skip(1);
        assert forall|a: int, b: int|
            #![trigger u[a], u[b]]
            0 <= a <= b < u.len() implies u[a].0 <= u[b].0 by {
            assert(s[a + 1].0 <= s[b + 1].0);
        }
        law_pruning_keeps_the_lags(u, now, t);
        assert(u[0].0 <= t);
        lemma_as_of_tail(s, t);
    }
}

proof fn lemma_as_of_tail(s: Seq<(i64, i64)>, t: int)
    requires
        s.len() >= 2,
        s[1].0 <= t,
    ensures
        ring::as_of(s.skip(1), t) == ring::as_of(s, t),
    decreases s.len(),
{
    assert(s.skip(1).last() == s.last());
    if s.last().0 > t {
        assert(s.skip(1).drop_last() =~= s.drop_last().skip(1));
        if s.len() > 2 {
            lemma_as_of_tail(s.drop_last(), t);
        }
    }
}

/// A grid is read five times a second; a move is how far a reading is above the one a second
/// before it. The last two minutes of moves are kept.
pub proof fn law_moves_are_over_a_second(g: GridV, v: i64)
    requires
        g.vals.len() <= 606,
        g.moves.len() <= 600,
    ensures
        ({
            let r = read(g, v);
            let n = g.vals.len() as int;
            &&& r.next_ns == g.next_ns + 200_000_000
            &&& r.vals.last() == v
            &&& n >= 5 && i64::MIN <= v - g.vals[n - 5] <= i64::MAX ==> r.moves.len() > 0
                && r.moves.last() == v - g.vals[n - 5]
            &&& n < 5 ==> r.moves == g.moves
            &&& n >= 5 && g.moves.len() < 600 ==> r.moves.len() == g.moves.len() + 1
            &&& r.moves.len() <= 600 && r.vals.len() <= 606
        }),
{
}

/// A grid that is read up to an instant has its next reading at or after it, and no later
/// than it has to be.
pub proof fn law_grids_are_read_up_to_the_instant(g: GridV, end: int, v: i64)
    ensures
        filled(g, end, v).next_ns >= end,
        g.next_ns >= end ==> filled(g, end, v) == g,
        g.next_ns < end ==> filled(g, end, v).next_ns < end + 200_000_000 && filled(
            g,
            end,
            v,
        ).vals.last() == v,
    decreases ahead(g.next_ns, end),
{
    if g.next_ns < end {
        law_grids_are_read_up_to_the_instant(read(g, v), end, v);
        assert(read(g, v).vals.last() == v);
    }
}

/// A mid of the reference is sampled, and holds from then on; up to it the grid reads the one
/// before. The grid begins a second after the first. A mid that is not positive changes
/// nothing.
pub proof fn law_readings_are_of_what_held(h: HistV, ts: i64, mid: i64)
    ensures
        mid <= 0 ==> after_perp(h, ts, mid) == h,
        mid > 0 ==> {
            let n = after_perp(h, ts, mid);
            &&& n.perp_last == mid
            &&& n.perp == pruned(h.perp.push((ts, mid)), ts)
            &&& h.grid matches Some(g) ==> n.grid == Some(filled(g, ts as int, h.perp_last))
            &&& h.grid is None ==> (n.grid matches Some(g) && g.next_ns == ts + 1_000_000_000
                && g.vals.len() == 0 && g.moves.len() == 0)
            &&& n.yes == h.yes
        },
{
}

/// A mid of a market goes to its own history; a lag is so many fifths of a second, and what
/// held then is the last sample before it.
pub proof fn law_markets_have_their_own_history(
    h: HistV,
    inst: Seq<char>,
    other: Seq<char>,
    ts: i64,
    mid: i64,
    s: Seq<(i64, i64)>,
    j: int,
    i: int,
)
    requires
        inst != other,
        mid > 0,
        0 <= i < s.len(),
        s[i].0 <= ts - j * 200_000_000,
        forall|l: int| i < l < s.len() ==> (#[trigger] s[l]).0 > ts - j * 200_000_000,
    ensures
        after_yes(h, inst, ts, mid).yes.contains_key(inst),
        after_yes(h, inst, ts, mid).yes[inst] == pruned(yes_in(h, inst).push((ts, mid)), ts),
        yes_in(after_yes(h, inst, ts, mid), other) == yes_in(h, other),
        after_yes(h, inst, ts, mid).perp == h.perp,
        after_yes(h, inst, ts, 0) == h,
        lagged(s, ts, j) == Some(s[i].1),
{
    ring::law_the_last_sample_holds(s, ts - j * 200_000_000, i);
}

/// The lags of a market come in the order of the list, of the market and of the reference;
/// one that is before the first sample leaves nothing. The moves need two hundred of them.
pub proof fn law_lags_are_told_in_order(h: HistV, inst: Seq<char>, now: i64, lags: Seq<u32>)
    ensures
        lags_of(h, inst, now, lags) matches Some(l) ==> {
            &&& l.yes.len() == lags.len() && l.perp.len() == lags.len()
            &&& forall|i: int|
                0 <= i < lags.len() ==> lagged(h.yes[inst], now, lags[i] as int) == Some(
                    #[trigger] l.yes[i],
                )
            &&& forall|i: int|
                0 <= i < lags.len() ==> lagged(h.perp, now, lags[i] as int) == Some(
                    #[trigger] l.perp[i],
                )
            &&& l.moves is Some <==> (h.grid->0).moves.len() >= 200
            &&& l.moves is Some ==> l.moves->0 == (h.grid->0).moves
        },
{
    lemma_all_lagged(h.yes[inst], now, lags);
    lemma_all_lagged(h.perp, now, lags);
}

/// The lags, one for each.
proof fn lemma_all_lagged(s: Seq<(i64, i64)>, now: i64, lags: Seq<u32>)
    ensures
        all_lagged(s, now, lags) matches Some(v) ==> v.len() == lags.len() && forall|i: int|
            0 <= i < lags.len() ==> lagged(s, now, lags[i] as int) == Some(#[trigger] v[i]),
    decreases lags.len(),
{
    if lags.len() > 0 {
        let r = lags.drop_last();
        lemma_all_lagged(s, now, r);
        if all_lagged(s, now, lags) is Some {
            let v = all_lagged(s, now, lags)->0;
            let w = all_lagged(s, now, r)->0;
            assert forall|i: int| 0 <= i < lags.len() implies lagged(s, now, lags[i] as int) == Some(
                #[trigger] v[i],
            ) by {
                if i < r.len() {
                    assert(w[i] == v[i]);
                    assert(r[i] == lags[i]);
                }
            }
        }
    }
}

} // verus!
