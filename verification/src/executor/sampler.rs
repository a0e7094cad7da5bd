//! The studies that watch trades without touching them.
use vstd::prelude::*;
use crate::executor::mirror;
use crate::executor::mirror::ExecBookMirror;
use crate::executor::mirror::MirrorView;
use crate::executor::types::{BookTop, EPS};
use crate::executor::venue;
use crate::executor::venue::{fee_usdc, sweep_sell};
use crate::fixed;
use crate::fixed::{sat, sum128};
use crate::model::Side;

verus! {

/// An entry whose exit is sampled at a ladder of holds.
#[derive(Debug)]
pub struct HoldProbe {
    pub trade_id: String,
    pub inst: String,
    pub t0_ns: i64,
    pub qty: i64,
    pub entry_vwap: i64,
    pub fee_rate: i64,
}

/// An exit that is compared with a resting offer.
#[derive(Debug)]
pub struct MakerProbe {
    pub trade_id: String,
    pub inst: String,
    pub t0_ns: i64,
    pub offer_px: i64,
    pub bid0: i64,
    pub fee_rate: i64,
}

/// A signal whose book is sampled along a ladder of offsets.
#[derive(Debug)]
pub struct PxProbe {
    pub trade_id: String,
    pub inst: String,
    pub t0_ns: i64,
    pub ref_ask: i64,
    /// The bid and the ask at the signal, added up: twice the mid.
    pub ref_mid_twice: i128,
    pub tte_ms: Option<i64>,
    /// How the ask moved in the window before the signal.
    pub pre_move: Option<i128>,
}

/// Whether an offset of a ladder that starts at `t0_ns` is reached.
pub open spec fn is_reached(t0_ns: i64, h: u64, now_ns: i64) -> bool {
    now_ns >= t0_ns + h * 1_000_000
}

/// The offsets that are reached, in their order.
pub open spec fn reached(pending: Seq<u64>, t0_ns: i64, now_ns: i64) -> Seq<u64>
    decreases pending.len(),
{
    if pending.len() == 0 {
        Seq::empty()
    } else if is_reached(t0_ns, pending.last(), now_ns) {
        reached(pending.drop_last(), t0_ns, now_ns).push(pending.last())
    } else {
        reached(pending.drop_last(), t0_ns, now_ns)
    }
}

/// The offsets that are still to come, in their order.
pub open spec fn to_come(pending: Seq<u64>, t0_ns: i64, now_ns: i64) -> Seq<u64>
    decreases pending.len(),
{
    if pending.len() == 0 {
        Seq::empty()
    } else if is_reached(t0_ns, pending.last(), now_ns) {
        to_come(pending.drop_last(), t0_ns, now_ns)
    } else {
        to_come(pending.drop_last(), t0_ns, now_ns).push(pending.last())
    }
}

/// Parts the offsets that are reached from those still to come.
pub fn split_due(pending: &Vec<u64>, t0_ns: i64, now_ns: i64) -> (r: (Vec<u64>, Vec<u64>))
    ensures
        r.0@ == reached(pending@, t0_ns, now_ns),
        r.1@ == to_come(pending@, t0_ns, now_ns),
{
    let mut due: Vec<u64> = Vec::new();
    let mut rest: Vec<u64> = Vec::new();
    let mut i: usize = 0;
    assert(pending@.take(0) =~= Seq::<u64>::empty());
    while i < pending.len()
        invariant
            i <= pending@.len(),
            due@ == reached(pending@.take(i as int), t0_ns, now_ns),
            rest@ == to_come(pending@.take(i as int), t0_ns, now_ns),
        decreases pending@.len() - i,
    {
        let h: u64 = pending[i];
        assert(pending@.take(i + 1).drop_last() =~= pending@.take(i as int));
        assert(pending@.take(i + 1).last() == h);
        if now_ns as i128 >= t0_ns as i128 + h as i128 * 1_000_000 {
            due.push(h);
        } else {
            rest.push(h);
        }
        i = i + 1;
    }
    assert(pending@.take(pending@.len() as int) =~= pending@);
    (due, rest)
}

/// A copy of a ladder.
fn copy_ladder(v: &Vec<u64>) -> (r: Vec<u64>)
    ensures
        r@ == v@,
{
    let mut r: Vec<u64> = Vec::new();
    let mut i: usize = 0;
    while i < v.len()
        invariant
            i <= v@.len(),
            r@ == v@.take(i as int),
        decreases v@.len() - i,
    {
        r.push(v[i]);
        assert(v@.take(i + 1) =~= v@.take(i as int).push(v@[i as int]));
        i = i + 1;
    }
    assert(v@.take(v@.len() as int) =~= v@);
    r
}

/// The offsets from 0 up to `window_ms`, `step` apart.
pub open spec fn ladder_of(window_ms: u64, step: u64) -> Seq<u64> {
    Seq::new((window_ms / step + 1) as nat, |i: int| (i * step) as u64)
}

/// The ladder of the price study; a step of zero counts as one.
pub fn price_ladder(window_ms: u64, step_ms: u64) -> (r: Vec<u64>)
    ensures
        r@ == ladder_of(
            window_ms,
            if step_ms == 0 {
                1
            } else {
                step_ms
            },
        ),
{
    let step: u64 = if step_ms == 0 {
        1
    } else {
        step_ms
    };
    let n: u64 = window_ms / step;
    let mut r: Vec<u64> = Vec::new();
    let mut k: u64 = 0;
    r.push(0);
    assert(0 * step == 0) by (nonlinear_arith);
    assert(r@ =~= Seq::new(1, |i: int| (i * step) as u64));
    while k < n
        invariant
            step > 0,
            n == window_ms / step,
            k <= n,
            r@ == Seq::new((k + 1) as nat, |i: int| (i * step) as u64),
        decreases n - k,
    {
        k = k + 1;
        assert(k * step <= window_ms) by (nonlinear_arith)
            requires
                k <= n,
                n == window_ms / step,
                step > 0,
        ;
        r.push(k * step);
        assert(r@ =~= Seq::new((k + 1) as nat, |i: int| (i * step) as u64));
    }
    assert(r@ =~= ladder_of(window_ms, step));
    r
}

/// The per-share fee at a price.
pub open spec fn share_fee(rate: i64, px: i64) -> i64 {
    venue::fee_of(rate, px, 1_000_000)
}

/// What an entry would have realized at one hold.
#[derive(Debug)]
pub struct HoldSample {
    pub trade_id: String,
    pub inst: String,
    pub h: u64,
    pub qty: i64,
    pub filled: i64,
    pub entry: i64,
    pub exit_vwap: i64,
    /// The gain a share, before and after both fees.
    pub gross: i64,
    pub net: i64,
}

/// The bids of an instrument.
pub open spec fn bids_of(m: MirrorView, inst: Seq<char>) -> Seq<(i64, i64)> {
    if m.books.contains_key(inst) {
        m.books[inst].bids
    } else {
        Seq::empty()
    }
}

/// The sample of an entry at one hold: its size sold into the bids, where they take any.
pub open spec fn hold_sample(p: HoldProbe, h: u64, m: MirrorView) -> Option<HoldSample> {
    let (q, n) = venue::swept(bids_of(m, p.inst@), Side::Sell, 0, p.qty as int);
    let px = venue::average(q, n) as i64;
    if q > EPS {
        Some(
            HoldSample {
                trade_id: p.trade_id,
                inst: p.inst,
                h,
                qty: p.qty,
                filled: q as i64,
                entry: p.entry_vwap,
                exit_vwap: px,
                gross: fixed::clamp64(px - p.entry_vwap) as i64,
                net: fixed::clamp64(
                    px - p.entry_vwap - share_fee(p.fee_rate, px) - share_fee(
                        p.fee_rate,
                        p.entry_vwap,
                    ),
                ) as i64,
            },
        )
    } else {
        None
    }
}

/// Samples an entry at one hold.
pub fn sample_hold(p: &HoldProbe, h: u64, mirror: &ExecBookMirror) -> (r: Option<HoldSample>)
    ensures
        r == hold_sample(*p, h, mirror@),
{
    let bids: Vec<(i64, i64)> = match mirror.depth(p.inst.as_str()) {
        Some(d) => d.bids,
        None => Vec::new(),
    };
    assert(bids@ =~= bids_of(mirror@, p.inst@));
    let (filled, exit_vwap): (i64, i64) = sweep_sell(&bids, p.qty, 0);
    if filled <= EPS {
        return None;
    }
    let gross: i128 = exit_vwap as i128 - p.entry_vwap as i128;
    let fees: i128 = fee_usdc(p.fee_rate, exit_vwap, 1_000_000) as i128
        + fee_usdc(p.fee_rate, p.entry_vwap, 1_000_000) as i128;
    Some(
        HoldSample {
            trade_id: p.trade_id.clone(),
            inst: p.inst.clone(),
            h,
            qty: p.qty,
            filled,
            entry: p.entry_vwap,
            exit_vwap,
            gross: sat(gross),
            net: sat(gross - fees),
        },
    )
}

/// The hold study: the entries that are watched, each with the holds still to come.
pub struct HoldSampler {
    ladder: Vec<u64>,
    probes: Vec<(HoldProbe, Vec<u64>)>,
}

/// The samples of one entry at these holds.
pub open spec fn samples_at(p: HoldProbe, hs: Seq<u64>, m: MirrorView) -> Seq<HoldSample>
    decreases hs.len(),
{
    if hs.len() == 0 {
        Seq::empty()
    } else {
        match hold_sample(p, hs.last(), m) {
            Some(s) => samples_at(p, hs.drop_last(), m).push(s),
            None => samples_at(p, hs.drop_last(), m),
        }
    }
}

/// The samples of all entries, one after the other.
pub open spec fn hold_samples(ps: Seq<(HoldProbe, Seq<u64>)>, m: MirrorView, now_ns: i64) -> Seq<
    HoldSample,
>
    decreases ps.len(),
{
    if ps.len() == 0 {
        Seq::empty()
    } else {
        let (p, pending) = ps.last();
        hold_samples(ps.drop_last(), m, now_ns) + samples_at(
            p,
            reached(pending, p.t0_ns, now_ns),
            m,
        )
    }
}

/// The entries that are still watched after a look.
pub open spec fn hold_left(ps: Seq<(HoldProbe, Seq<u64>)>, now_ns: i64) -> Seq<(HoldProbe, Seq<u64>)>
    decreases ps.len(),
{
    if ps.len() == 0 {
        Seq::empty()
    } else {
        let (p, pending) = ps.last();
        let rest = to_come(pending, p.t0_ns, now_ns);
        if rest.len() > 0 {
            hold_left(ps.drop_last(), now_ns).push((p, rest))
        } else {
            hold_left(ps.drop_last(), now_ns)
        }
    }
}

/// The views of the entries that are watched.
pub open spec fn hold_views(ps: Seq<(HoldProbe, Vec<u64>)>) -> Seq<(HoldProbe, Seq<u64>)> {
    Seq::new(ps.len(), |i: int| (ps[i].0, ps[i].1@))
}

impl HoldSampler {
    /// The entries that are watched, each with the holds still to come.
    pub closed spec fn watched(&self) -> Seq<(HoldProbe, Seq<u64>)> {
        hold_views(self.probes@)
    }

    /// The holds that are sampled.
    pub closed spec fn holds(&self) -> Seq<u64> {
        self.ladder@
    }

    /// A study of these holds.
    pub fn new(ladder: Vec<u64>) -> (r: HoldSampler)
        ensures
            r.holds() == ladder@,
            r.watched() == Seq::<(HoldProbe, Seq<u64>)>::empty(),
    {
        let r = HoldSampler { ladder, probes: Vec::new() };
        assert(r.watched() =~= Seq::<(HoldProbe, Seq<u64>)>::empty());
        r
    }

    /// Watches an entry.
    pub fn add_probe(&mut self, p: HoldProbe)
        ensures
            final(self).holds() == old(self).holds(),
            final(self).watched() == old(self).watched().push((p, old(self).holds())),
    {
        let l = copy_ladder(&self.ladder);
        self.probes.push((p, l));
        assert(self.watched() =~= old(self).watched().push((p, old(self).holds())));
    }

    /// Takes the samples that are due, and forgets the entries that are done.
    pub fn tick(&mut self, mirror: &ExecBookMirror, now_ns: i64) -> (r: Vec<HoldSample>)
        ensures
            final(self).holds() == old(self).holds(),
            final(self).watched() == hold_left(old(self).watched(), now_ns),
            r@ == hold_samples(old(self).watched(), mirror@, now_ns),
    {
        let mut old_probes: Vec<(HoldProbe, Vec<u64>)> = Vec::new();
        std::mem::swap(&mut old_probes, &mut self.probes);
        let ghost ps = hold_views(old_probes@);
        let mut out: Vec<HoldSample> = Vec::new();
        let mut left: Vec<(HoldProbe, Vec<u64>)> = Vec::new();
        let n: usize = old_probes.len();
        let mut i: usize = 0;
        assert(ps.take(0) =~= Seq::<(HoldProbe, Seq<u64>)>::empty());
        assert(hold_views(left@) =~= Seq::<(HoldProbe, Seq<u64>)>::empty());
        assert(old_probes@ =~= old_probes@.skip(0));
        let ghost all = old_probes@;
        let mut queue = old_probes;
        while i < n
            invariant
                n == all.len(),
                ps == hold_views(all),
                i <= n,
                queue@ == all.skip(i as int),
                out@ == hold_samples(ps.take(i as int), mirror@, now_ns),
                hold_views(left@) == hold_left(ps.take(i as int), now_ns),
            decreases n - i,
        {
            let (p, pending) = queue.remove(0);
            assert(queue@ =~= all.skip(i + 1));
            let ghost entry = (p, pending@);
            assert(ps.take(i + 1).drop_last() =~= ps.take(i as int));
            assert(ps.take(i + 1).last() == entry);
            let (due, rest) = split_due(&pending, p.t0_ns, now_ns);
            let ghost before = out@;
            let mut j: usize = 0;
            assert(due@.take(0) =~= Seq::<u64>::empty());
            assert(out@ =~= before + samples_at(p, due@.take(0), mirror@));
            while j < due.len()
                invariant
                    j <= due@.len(),
                    out@ == before + samples_at(p, due@.take(j as int), mirror@),
                decreases due@.len() - j,
            {
                assert(due@.take(j + 1).drop_last() =~= due@.take(j as int));
                assert(due@.take(j + 1).last() == due@[j as int]);
                if let Some(s) = sample_hold(&p, due[j], mirror) {
                    out.push(s);
                }
                assert(out@ =~= before + samples_at(p, due@.take(j + 1), mirror@));
                j = j + 1;
            }
            assert(due@.take(due@.len() as int) =~= due@);
            if rest.len() > 0 {
                let ghost l0 = left@;
                left.push((p, rest));
                assert(hold_views(left@) =~= hold_views(l0).push((p, rest@)));
            }
            i = i + 1;
        }
        assert(ps.take(ps.len() as int) =~= ps);
        self.probes = left;
        out
    }
}

/// How a resting offer turned out.
#[derive(Clone, Copy, Debug, PartialEq, Eq, Structural)]
pub enum MakerOutcome {
    /// It would have crossed when it was posted.
    Reject,
    /// The bid came up to it.
    MakerFill,
    /// It was still there when its time was over.
    Timeout,
    /// It is still resting.
    Rest,
}

/// How an offer turned out, and the price that the position is left at.
pub open spec fn maker_result(offer_px: i64, bid0: i64, bid_now: i64, expired: bool) -> (
    MakerOutcome,
    i64,
) {
    if bid0 >= offer_px {
        (MakerOutcome::Reject, bid0)
    } else if bid_now >= offer_px {
        (MakerOutcome::MakerFill, offer_px)
    } else if expired {
        (MakerOutcome::Timeout, bid_now)
    } else {
        (MakerOutcome::Rest, 0)
    }
}

/// How an offer turned out, and the price that the position is left at.
pub fn maker_outcome(offer_px: i64, bid0: i64, bid_now: i64, expired: bool) -> (r: (
    MakerOutcome,
    i64,
))
    ensures
        r == maker_result(offer_px, bid0, bid_now, expired),
{
    if bid0 >= offer_px {
        (MakerOutcome::Reject, bid0)
    } else if bid_now >= offer_px {
        (MakerOutcome::MakerFill, offer_px)
    } else if expired {
        (MakerOutcome::Timeout, bid_now)
    } else {
        (MakerOutcome::Rest, 0)
    }
}

/// What a maker exit would have brought, against a taker one.
#[derive(Debug)]
pub struct MakerSample {
    pub probe: MakerProbe,
    pub outcome: MakerOutcome,
    pub cross_px: i64,
    pub maker_net: i64,
    pub taker_net: i64,
    pub gain: i64,
}

/// The sample of an offer that turned out so: a maker fill pays no fee, a cross pays the
/// taker's.
pub open spec fn maker_sample(p: MakerProbe, outcome: MakerOutcome, cross_px: i64) -> MakerSample {
    let maker_net = if outcome == MakerOutcome::MakerFill {
        p.offer_px
    } else {
        fixed::clamp64(cross_px - share_fee(p.fee_rate, cross_px)) as i64
    };
    let taker_net = fixed::clamp64(p.bid0 - share_fee(p.fee_rate, p.bid0)) as i64;
    MakerSample {
        probe: p,
        outcome,
        cross_px,
        maker_net,
        taker_net,
        gain: fixed::clamp64(maker_net - taker_net) as i64,
    }
}

fn make_sample(p: MakerProbe, outcome: MakerOutcome, cross_px: i64) -> (r: MakerSample)
    ensures
        r == maker_sample(p, outcome, cross_px),
{
    let maker_net: i64 = if outcome == MakerOutcome::MakerFill {
        p.offer_px
    } else {
        sat(cross_px as i128 - fee_usdc(p.fee_rate, cross_px, 1_000_000) as i128)
    };
    let taker_net: i64 = sat(p.bid0 as i128 - fee_usdc(p.fee_rate, p.bid0, 1_000_000) as i128);
    MakerSample {
        probe: p,
        outcome,
        cross_px,
        maker_net,
        taker_net,
        gain: sat(maker_net as i128 - taker_net as i128),
    }
}

/// The maker study: the offers that rest, each with its deadline.
pub struct MakerSampler {
    rest_ms: u64,
    active: Vec<(MakerProbe, i64)>,
}

/// The best bid of an instrument, or 0.
pub open spec fn bid_in(m: MirrorView, inst: Seq<char>) -> i64 {
    if m.books.contains_key(inst) {
        mirror::top_of(m.books[inst]).best_bid
    } else {
        0
    }
}

/// How one offer stands at a look.
pub open spec fn maker_now(e: (MakerProbe, i64), m: MirrorView, now_ns: i64) -> (MakerOutcome, i64) {
    maker_result(e.0.offer_px, e.0.bid0, bid_in(m, e.0.inst@), now_ns >= e.1)
}

/// The offers that still rest after a look.
pub open spec fn makers_left(s: Seq<(MakerProbe, i64)>, m: MirrorView, now_ns: i64) -> Seq<
    (MakerProbe, i64),
>
    decreases s.len(),
{
    if s.len() == 0 {
        Seq::empty()
    } else if maker_now(s.last(), m, now_ns).0 == MakerOutcome::Rest {
        makers_left(s.drop_last(), m, now_ns).push(s.last())
    } else {
        makers_left(s.drop_last(), m, now_ns)
    }
}

/// The samples that a look gives.
pub open spec fn makers_done(s: Seq<(MakerProbe, i64)>, m: MirrorView, now_ns: i64) -> Seq<
    MakerSample,
>
    decreases s.len(),
{
    if s.len() == 0 {
        Seq::empty()
    } else {
        let (o, px) = maker_now(s.last(), m, now_ns);
        if o == MakerOutcome::Rest {
            makers_done(s.drop_last(), m, now_ns)
        } else {
            makers_done(s.drop_last(), m, now_ns).push(maker_sample(s.last().0, o, px))
        }
    }
}

impl MakerSampler {
    /// The offers that rest, each with its deadline.
    pub closed spec fn resting(&self) -> Seq<(MakerProbe, i64)> {
        self.active@
    }

    /// How long an offer rests.
    pub closed spec fn rests_ms(&self) -> u64 {
        self.rest_ms
    }

    /// A study of offers that rest so long.
    pub fn new(rest_ms: u64) -> (r: MakerSampler)
        ensures
            r.rests_ms() == rest_ms,
            r.resting().len() == 0,
    {
        MakerSampler { rest_ms, active: Vec::new() }
    }

    /// Posts an offer; one that would cross is sampled at once.
    pub fn add_probe(&mut self, p: MakerProbe) -> (r: Option<MakerSample>)
        ensures
            final(self).rests_ms() == old(self).rests_ms(),
            ({
                let (o, px) = maker_result(p.offer_px, p.bid0, p.bid0, false);
                if o == MakerOutcome::Rest {
                    r is None && final(self).resting() == old(self).resting().push(
                        (p, fixed::clamp64(p.t0_ns + old(self).rests_ms() * 1_000_000) as i64),
                    )
                } else {
                    r == Some(maker_sample(p, o, px)) && final(self).resting() == old(self).resting()
                }
            }),
    {
        let (o, px): (MakerOutcome, i64) = maker_outcome(p.offer_px, p.bid0, p.bid0, false);
        if o == MakerOutcome::Rest {
            let deadline = sat(p.t0_ns as i128 + self.rest_ms as i128 * 1_000_000);
            self.active.push((p, deadline));
            None
        } else {
            Some(make_sample(p, o, px))
        }
    }

    /// Samples the offers that filled or ran out of time; the others go on resting.
    pub fn tick(&mut self, mirror: &ExecBookMirror, now_ns: i64) -> (r: Vec<MakerSample>)
        ensures
            final(self).rests_ms() == old(self).rests_ms(),
            final(self).resting() == makers_left(old(self).resting(), mirror@, now_ns),
            r@ == makers_done(old(self).resting(), mirror@, now_ns),
    {
        let mut queue: Vec<(MakerProbe, i64)> = Vec::new();
        std::mem::swap(&mut queue, &mut self.active);
        let ghost all = queue@;
        let n: usize = queue.len();
        let mut out: Vec<MakerSample> = Vec::new();
        let mut left: Vec<(MakerProbe, i64)> = Vec::new();
        let mut i: usize = 0;
        assert(all.take(0) =~= Seq::<(MakerProbe, i64)>::empty());
        assert(queue@ =~= all.skip(0));
        while i < n
            invariant
                n == all.len(),
                i <= n,
                queue@ == all.skip(i as int),
                out@ == makers_done(all.take(i as int), mirror@, now_ns),
                left@ == makers_left(all.take(i as int), mirror@, now_ns),
            decreases n - i,
        {
            let (p, deadline): (MakerProbe, i64) = queue.remove(0);
            assert(queue@ =~= all.skip(i + 1));
            assert(all.take(i + 1).drop_last() =~= all.take(i as int));
            assert(all.take(i + 1).last() == (p, deadline));
            let bid: i64 = match mirror.top(p.inst.as_str()) {
                Some(b) => b.best_bid,
                None => 0,
            };
            let (o, px): (MakerOutcome, i64) = maker_outcome(
                p.offer_px,
                p.bid0,
                bid,
                now_ns >= deadline,
            );
            if o == MakerOutcome::Rest {
                left.push((p, deadline));
            } else {
                out.push(make_sample(p, o, px));
            }
            i = i + 1;
        }
        assert(all.take(n as int) =~= all);
        self.active = left;
        out
    }
}

/// The book of an instrument at one offset after a signal.
#[derive(Debug)]
pub struct PxSample {
    pub trade_id: String,
    pub inst: String,
    pub h: u64,
    pub top: BookTop,
    /// Twice the mid.
    pub mid_twice: i128,
    /// Twice the move of the mid from the signal on.
    pub dmid_twice: i128,
    pub dask: i128,
    /// The sizes on each side added up, and the numbers of levels.
    pub bid_depth: i128,
    pub ask_depth: i128,
    pub n_bids: usize,
    pub n_asks: usize,
}

/// The sizes of a ladder, added up.
pub open spec fn total(levels: Seq<(i64, i64)>) -> int
    decreases levels.len(),
{
    if levels.len() == 0 {
        0
    } else {
        total(levels.drop_last()) + levels.last().1
    }
}

fn depth_of(levels: &Vec<(i64, i64)>) -> (r: i128)
    ensures
        r == total(levels@),
{
    let mut sum: i128 = 0;
    let mut i: usize = 0;
    assert(levels@.take(0) =~= Seq::<(i64, i64)>::empty());
    while i < levels.len()
        invariant
            i <= levels.len(),
            sum == total(levels@.take(i as int)),
            -0x8000_0000_0000_0000 * i <= sum <= 0x8000_0000_0000_0000 * i,
        decreases levels.len() - i,
    {
        assert(levels@.take(i + 1).drop_last() =~= levels@.take(i as int));
        sum = sum + levels[i].1 as i128;
        i = i + 1;
    }
    assert(levels@.take(levels@.len() as int) =~= levels@);
    sum
}

/// Samples the book at one offset, where there is a book.
pub fn sample_price(p: &PxProbe, h: u64, mirror: &ExecBookMirror) -> (r: Option<PxSample>)
    ensures
        match r {
            Some(s) => {
                let d = mirror@.books[p.inst@];
                let t = mirror::top_of(d);
                &&& mirror@.books.contains_key(p.inst@)
                &&& s.trade_id@ == p.trade_id@
                &&& s.inst@ == p.inst@
                &&& s.h == h
                &&& s.top == t
                &&& s.mid_twice == t.best_bid + t.best_ask
                &&& s.dmid_twice == fixed::clamp128(t.best_bid + t.best_ask - p.ref_mid_twice)
                &&& s.dask == t.best_ask - p.ref_ask
                &&& s.bid_depth == total(d.bids)
                &&& s.ask_depth == total(d.asks)
                &&& s.n_bids == d.bids.len()
                &&& s.n_asks == d.asks.len()
            },
            None => !mirror@.books.contains_key(p.inst@),
        },
{
    match (mirror.top(p.inst.as_str()), mirror.depth(p.inst.as_str())) {
        (Some(top), Some(d)) => {
            let mid_twice: i128 = top.best_bid as i128 + top.best_ask as i128;
            let dmid_twice: i128 = if p.ref_mid_twice > i128::MIN {
                sum128(mid_twice, -p.ref_mid_twice)
            } else if mid_twice >= 0 {
                i128::MAX
            } else {
                mid_twice + 1 + i128::MAX
            };
            Some(
                PxSample {
                    trade_id: p.trade_id.clone(),
                    inst: p.inst.clone(),
                    h,
                    top,
                    mid_twice,
                    dmid_twice,
                    dask: top.best_ask as i128 - p.ref_ask as i128,
                    bid_depth: depth_of(&d.bids),
                    ask_depth: depth_of(&d.asks),
                    n_bids: d.bids.len(),
                    n_asks: d.asks.len(),
                },
            )
        },
        _ => None,
    }
}

/// When the volume of a finished probe is read: its window and five seconds after its
/// start, so that late trade reports are in.
pub fn volume_due(t0_ns: i64, window_ms: u64) -> (r: i64)
    ensures
        r == fixed::clamp64(t0_ns + (window_ms + 5000) * 1_000_000),
{
    sat(t0_ns as i128 + (window_ms as i128 + 5000) * 1_000_000)
}

/// The stretch of time that one offset of a volume ladder stands for: the step before it.
pub fn volume_span(t0_ns: i64, h: u64, step_ms: u64) -> (r: (i64, i64))
    ensures
        r.0 == fixed::clamp64(t0_ns + (h - step_ms) * 1_000_000),
        r.1 == fixed::clamp64(t0_ns + h * 1_000_000),
{
    (
        sat(t0_ns as i128 + (h as i128 - step_ms as i128) * 1_000_000),
        sat(t0_ns as i128 + h as i128 * 1_000_000),
    )
}

/// The price study: the signals that are watched, each with the offsets still to come, and
/// those that wait for their volume pass, each with its instant.
pub struct PriceSampler {
    ladder: Vec<u64>,
    window_ms: u64,
    probes: Vec<(PxProbe, Vec<u64>)>,
    waiting: Vec<(PxProbe, i64)>,
}

/// The views of the signals that are watched.
pub open spec fn px_views(ps: Seq<(PxProbe, Vec<u64>)>) -> Seq<(PxProbe, Seq<u64>)> {
    Seq::new(ps.len(), |i: int| (ps[i].0, ps[i].1@))
}

/// The signals still watched after a look.
pub open spec fn px_left(ps: Seq<(PxProbe, Seq<u64>)>, now_ns: i64) -> Seq<(PxProbe, Seq<u64>)>
    decreases ps.len(),
{
    if ps.len() == 0 {
        Seq::empty()
    } else {
        let (p, pending) = ps.last();
        let rest = to_come(pending, p.t0_ns, now_ns);
        if rest.len() > 0 {
            px_left(ps.drop_last(), now_ns).push((p, rest))
        } else {
            px_left(ps.drop_last(), now_ns)
        }
    }
}

/// The signals whose offsets are all taken after a look, with the instants of their volume
/// passes.
pub open spec fn px_finished(ps: Seq<(PxProbe, Seq<u64>)>, window_ms: u64, now_ns: i64) -> Seq<
    (PxProbe, i64),
>
    decreases ps.len(),
{
    if ps.len() == 0 {
        Seq::empty()
    } else {
        let (p, pending) = ps.last();
        let before = px_finished(ps.drop_last(), window_ms, now_ns);
        if to_come(pending, p.t0_ns, now_ns).len() > 0 {
            before
        } else {
            before.push((p, fixed::clamp64(p.t0_ns + (window_ms + 5000) * 1_000_000) as i64))
        }
    }
}

/// The last offset of a ladder, or one second.
pub open spec fn window_of(ladder: Seq<u64>) -> u64 {
    if ladder.len() > 0 {
        ladder.last()
    } else {
        1000
    }
}

/// The signals whose volume pass is due.
pub open spec fn volume_ready(s: Seq<(PxProbe, i64)>, now_ns: i64) -> Seq<PxProbe>
    decreases s.len(),
{
    if s.len() == 0 {
        Seq::empty()
    } else if now_ns >= s.last().1 {
        volume_ready(s.drop_last(), now_ns).push(s.last().0)
    } else {
        volume_ready(s.drop_last(), now_ns)
    }
}

/// The signals whose volume pass is still to come.
pub open spec fn volume_later(s: Seq<(PxProbe, i64)>, now_ns: i64) -> Seq<(PxProbe, i64)>
    decreases s.len(),
{
    if s.len() == 0 {
        Seq::empty()
    } else if now_ns >= s.last().1 {
        volume_later(s.drop_last(), now_ns)
    } else {
        volume_later(s.drop_last(), now_ns).push(s.last())
    }
}

impl PriceSampler {
    /// The signals that are watched, each with the offsets still to come.
    pub closed spec fn watched(&self) -> Seq<(PxProbe, Seq<u64>)> {
        px_views(self.probes@)
    }

    /// The signals that wait for their volume pass.
    pub closed spec fn waits(&self) -> Seq<(PxProbe, i64)> {
        self.waiting@
    }

    /// The offsets that are sampled.
    pub closed spec fn offsets(&self) -> Seq<u64> {
        self.ladder@
    }

    /// The length of the ladder.
    pub closed spec fn window(&self) -> u64 {
        self.window_ms
    }

    /// A study along this ladder.
    pub fn new(ladder: Vec<u64>) -> (r: PriceSampler)
        ensures
            r.offsets() == ladder@,
            r.window() == window_of(ladder@),
            r.watched() == Seq::<(PxProbe, Seq<u64>)>::empty(),
            r.waits() == Seq::<(PxProbe, i64)>::empty(),
    {
        let window_ms: u64 = if ladder.len() > 0 {
            ladder[ladder.len() - 1]
        } else {
            1000
        };
        let r = PriceSampler { ladder, window_ms, probes: Vec::new(), waiting: Vec::new() };
        assert(r.watched() =~= Seq::<(PxProbe, Seq<u64>)>::empty());
        r
    }

    /// Watches a signal.
    pub fn add_probe(&mut self, p: PxProbe)
        ensures
            final(self).offsets() == old(self).offsets(),
            final(self).window() == old(self).window(),
            final(self).waits() == old(self).waits(),
            final(self).watched() == old(self).watched().push((p, old(self).offsets())),
    {
        let l = copy_ladder(&self.ladder);
        self.probes.push((p, l));
        assert(self.watched() =~= old(self).watched().push((p, old(self).offsets())));
    }

    /// The offsets that are due now, by the position of their signal.
    pub fn due(&self, i: usize, now_ns: i64) -> (r: Vec<u64>)
        requires
            i < self.watched().len(),
        ensures
            r@ == reached(
                self.watched()[i as int].1,
                self.watched()[i as int].0.t0_ns,
                now_ns,
            ),
    {
        split_due(&self.probes[i].1, self.probes[i].0.t0_ns, now_ns).0
    }

    /// The signal at a position.
    pub fn probe(&self, i: usize) -> (r: &PxProbe)
        requires
            i < self.watched().len(),
        ensures
            *r == self.watched()[i as int].0,
    {
        &self.probes[i].0
    }

    /// How many signals are watched.
    pub fn count(&self) -> (n: usize)
        ensures
            n == self.watched().len(),
    {
        self.probes.len()
    }

    /// Ends a look: the offsets that are reached are taken; a signal without any left waits
    /// for its volume pass; those whose pass is due come out.
    pub fn advance(&mut self, now_ns: i64) -> (r: Vec<PxProbe>)
        ensures
            final(self).offsets() == old(self).offsets(),
            final(self).window() == old(self).window(),
            final(self).watched() == px_left(old(self).watched(), now_ns),
            ({
                let q = old(self).waits() + px_finished(
                    old(self).watched(),
                    old(self).window(),
                    now_ns,
                );
                r@ == volume_ready(q, now_ns) && final(self).waits() == volume_later(q, now_ns)
            }),
    {
        let mut queue: Vec<(PxProbe, Vec<u64>)> = Vec::new();
        std::mem::swap(&mut queue, &mut self.probes);
        let ghost all = queue@;
        let ghost ps = px_views(all);
        let ghost w0 = self.waiting@;
        let n: usize = queue.len();
        let mut left: Vec<(PxProbe, Vec<u64>)> = Vec::new();
        let mut i: usize = 0;
        assert(ps.take(0) =~= Seq::<(PxProbe, Seq<u64>)>::empty());
        assert(px_views(left@) =~= Seq::<(PxProbe, Seq<u64>)>::empty());
        assert(queue@ =~= all.skip(0));
        assert(self.waiting@ =~= w0 + px_finished(ps.take(0), self.window_ms, now_ns));
        while i < n
            invariant
                n == all.len(),
                ps == px_views(all),
                i <= n,
                queue@ == all.skip(i as int),
                px_views(left@) == px_left(ps.take(i as int), now_ns),
                self.window_ms == old(self).window(),
                self.ladder@ == old(self).offsets(),
                self.waiting@ == w0 + px_finished(ps.take(i as int), self.window_ms, now_ns),
            decreases n - i,
        {
            let (p, pending) = queue.remove(0);
            assert(queue@ =~= all.skip(i + 1));
            assert(ps.take(i + 1).drop_last() =~= ps.take(i as int));
            assert(ps.take(i + 1).last() == (p, pending@));
            let (due, rest) = split_due(&pending, p.t0_ns, now_ns);
            let ghost l0 = left@;
            let ghost q0 = self.waiting@;
            if rest.len() > 0 {
                left.push((p, rest));
                assert(px_views(left@) =~= px_views(l0).push((p, rest@)));
            } else {
                let at = volume_due(p.t0_ns, self.window_ms);
                self.waiting.push((p, at));
                assert(self.waiting@ =~= w0 + px_finished(
                    ps.take(i + 1),
                    self.window_ms,
                    now_ns,
                ));
            }
            i = i + 1;
        }
        assert(ps.take(ps.len() as int) =~= ps);
        self.probes = left;
        let mut wq: Vec<(PxProbe, i64)> = Vec::new();
        std::mem::swap(&mut wq, &mut self.waiting);
        let ghost q = wq@;
        let m: usize = wq.len();
        let mut out: Vec<PxProbe> = Vec::new();
        let mut later: Vec<(PxProbe, i64)> = Vec::new();
        let mut k: usize = 0;
        assert(q.take(0) =~= Seq::<(PxProbe, i64)>::empty());
        assert(wq@ =~= q.skip(0));
        while k < m
            invariant
                m == q.len(),
                k <= m,
                wq@ == q.skip(k as int),
                out@ == volume_ready(q.take(k as int), now_ns),
                later@ == volume_later(q.take(k as int), now_ns),
            decreases m - k,
        {
            let (p, at): (PxProbe, i64) = wq.remove(0);
            assert(wq@ =~= q.skip(k + 1));
            assert(q.take(k + 1).drop_last() =~= q.take(k as int));
            assert(q.take(k + 1).last() == (p, at));
            if now_ns >= at {
                out.push(p);
            } else {
                later.push((p, at));
            }
            k = k + 1;
        }
        assert(q.take(m as int) =~= q);
        self.waiting = later;
        out
    }
}

/// Every offset of a ladder is either taken at a look or still to come, never both and
/// never lost.
pub proof fn law_offsets_are_taken_once(pending: Seq<u64>, t0_ns: i64, now_ns: i64)
    ensures
        reached(pending, t0_ns, now_ns).len() + to_come(pending, t0_ns, now_ns).len()
            == pending.len(),
        reached(to_come(pending, t0_ns, now_ns), t0_ns, now_ns).len() == 0,
    decreases pending.len(),
{
    if pending.len() > 0 {
        law_offsets_are_taken_once(pending.drop_last(), t0_ns, now_ns);
        let rest = to_come(pending, t0_ns, now_ns);
        if !is_reached(t0_ns, pending.last(), now_ns) {
            assert(rest.drop_last() =~= to_come(pending.drop_last(), t0_ns, now_ns));
        }
    }
}

/// How an offer turns out: it is rejected where the bid was there already when it was made,
/// filled at its price once the bid comes up to it, and crossed at the bid when its time is
/// up; until then it rests.
pub proof fn law_how_offers_turn_out(offer_px: i64, bid0: i64, bid_now: i64, expired: bool)
    ensures
        bid0 >= offer_px <==> maker_result(offer_px, bid0, bid_now, expired).0
            == MakerOutcome::Reject,
        bid0 >= offer_px ==> maker_result(offer_px, bid0, bid_now, expired).1 == bid0,
        bid0 < offer_px && bid_now >= offer_px <==> maker_result(
            offer_px,
            bid0,
            bid_now,
            expired,
        ).0 == MakerOutcome::MakerFill,
        bid0 < offer_px && bid_now >= offer_px ==> maker_result(
            offer_px,
            bid0,
            bid_now,
            expired,
        ).1 == offer_px,
        bid0 < offer_px && bid_now < offer_px && expired ==> maker_result(
            offer_px,
            bid0,
            bid_now,
            expired,
        ) == (MakerOutcome::Timeout, bid_now),
        bid0 < offer_px && bid_now < offer_px && !expired ==> maker_result(
            offer_px,
            bid0,
            bid_now,
            expired,
        ).0 == MakerOutcome::Rest,
{
}

/// What an offer gained over a taker's exit: an offer that was filled pays no fee, everything
/// else pays the taker's.
pub proof fn law_offers_save_the_fee(p: MakerProbe, o: MakerOutcome, px: i64)
    requires
        0 <= p.fee_rate <= 1_000_000,
        0 <= px <= 1_000_000,
        0 <= p.bid0 <= 1_000_000,
        0 <= p.offer_px <= 1_000_000,
    ensures
        ({
            let s = maker_sample(p, o, px);
            let cost = venue::fee_of(p.fee_rate, p.bid0, 1_000_000);
            &&& s.taker_net == p.bid0 - cost
            &&& o == MakerOutcome::MakerFill ==> s.maker_net == p.offer_px
            &&& o != MakerOutcome::MakerFill ==> s.maker_net == px - venue::fee_of(
                p.fee_rate,
                px,
                1_000_000,
            )
            &&& s.gain == s.maker_net - s.taker_net
            &&& s.outcome == o && s.cross_px == px && s.probe == p
        }),
{
    lemma_share_fees_are_small(p.fee_rate, px);
    lemma_share_fees_are_small(p.fee_rate, p.bid0);
}

/// A fee on one share is no more than its worth.
proof fn lemma_share_fees_are_small(rate: i64, px: i64)
    requires
        0 <= rate <= 1_000_000,
        0 <= px <= 1_000_000,
    ensures
        0 <= venue::fee_of(rate, px, 1_000_000) <= 1_000_000,
{
    venue::law_fees_follow_the_odds(rate, px, 1_000_000);
    let f = venue::fee_of(rate, px, 1_000_000);
    assert(rate * px * (1_000_000 - px) * 1_000_000 <= 1_000_000_000_000_000_000_000_000)
        by (nonlinear_arith)
        requires
            0 <= rate <= 1_000_000,
            0 <= px <= 1_000_000,
    {
        assert(0 <= rate * px <= 1_000_000_000_000) by (nonlinear_arith)
            requires
                0 <= rate <= 1_000_000,
                0 <= px <= 1_000_000,
        ;
        assert((rate * px) * (1_000_000 - px) <= 1_000_000_000_000_000_000) by (nonlinear_arith)
            requires
                0 <= rate * px <= 1_000_000_000_000,
                0 <= px <= 1_000_000,
        ;
    }
}

/// A hold is worth what its size sells for into the bids, on average, over what it cost, and
/// net of the fees of both ends.
pub proof fn law_holds_are_worth_what_they_sell_for(p: HoldProbe, h: u64, m: MirrorView)
    requires
        m.books.contains_key(p.inst@),
        0 <= p.fee_rate <= 1_000_000,
        0 <= p.entry_vwap <= 1_000_000,
    ensures
        ({
            let (q, n) = venue::swept(m.books[p.inst@].bids, Side::Sell, 0, p.qty as int);
            let s = hold_sample(p, h, m);
            &&& s is Some <==> q > EPS
            &&& s matches Some(x) ==> {
                &&& x.filled == q as i64 && x.qty == p.qty && x.h == h && x.entry == p.entry_vwap
                &&& x.exit_vwap == (n / q) as i64
                &&& 0 <= x.exit_vwap <= 1_000_000 ==> {
                    &&& x.gross == x.exit_vwap - p.entry_vwap
                    &&& x.net == x.gross - venue::fee_of(p.fee_rate, x.exit_vwap, 1_000_000)
                        - venue::fee_of(p.fee_rate, p.entry_vwap, 1_000_000)
                    &&& x.net <= x.gross
                }
            }
        }),
{
    lemma_share_fees_are_small(p.fee_rate, p.entry_vwap);
    let s = hold_sample(p, h, m);
    if s is Some && 0 <= (s->0).exit_vwap <= 1_000_000 {
        lemma_share_fees_are_small(p.fee_rate, (s->0).exit_vwap);
    }
}

/// An offset is taken from its instant on.
pub proof fn law_offsets_are_taken_from_their_instant(
    pending: Seq<u64>,
    h: u64,
    t0_ns: i64,
    now_ns: i64,
)
    ensures
        is_reached(t0_ns, h, now_ns) <==> now_ns - t0_ns >= h * 1_000_000,
        now_ns - t0_ns >= h * 1_000_000 ==> reached(pending.push(h), t0_ns, now_ns) == reached(
            pending,
            t0_ns,
            now_ns,
        ).push(h) && to_come(pending.push(h), t0_ns, now_ns) == to_come(pending, t0_ns, now_ns),
        now_ns - t0_ns < h * 1_000_000 ==> to_come(pending.push(h), t0_ns, now_ns) == to_come(
            pending,
            t0_ns,
            now_ns,
        ).push(h) && reached(pending.push(h), t0_ns, now_ns) == reached(pending, t0_ns, now_ns),
{
    assert(pending.push(h).drop_last() =~= pending);
}

/// A ladder of offsets starts with nothing and goes up by its step, up to its window.
pub proof fn law_ladders_go_up_by_their_step(window_ms: u64, step: u64, i: int)
    requires
        step > 0,
        0 <= i < ladder_of(window_ms, step).len(),
    ensures
        ladder_of(window_ms, step)[i] == i * step,
        i * step <= window_ms,
        ladder_of(window_ms, step).len() * step > window_ms,
{
    let w = window_ms as int;
    let s = step as int;
    vstd::arithmetic::div_mod::lemma_fundamental_div_mod(w, s);
    let q = w / s;
    assert(i * s <= w && (q + 1) * s > w && 0 <= i * s) by (nonlinear_arith)
        requires
            w == s * q + w % s,
            0 <= w % s < s,
            0 <= i <= q,
            s > 0,
    ;
}

/// An offer that has turned out gives its sample and is watched no more; one that rests is.
pub proof fn law_offers_are_watched_while_they_rest(
    s: Seq<(MakerProbe, i64)>,
    p: MakerProbe,
    deadline_ns: i64,
    m: MirrorView,
    now_ns: i64,
)
    requires
        m.books.contains_key(p.inst@),
        m.books[p.inst@].bids.len() > 0,
        p.bid0 < p.offer_px,
    ensures
        ({
            let bid = m.books[p.inst@].bids[0].0;
            let t = s.push((p, deadline_ns));
            &&& bid < p.offer_px && now_ns < deadline_ns ==> makers_left(t, m, now_ns)
                == makers_left(s, m, now_ns).push((p, deadline_ns)) && makers_done(t, m, now_ns)
                == makers_done(s, m, now_ns)
            &&& bid >= p.offer_px ==> makers_left(t, m, now_ns) == makers_left(s, m, now_ns)
                && makers_done(t, m, now_ns) == makers_done(s, m, now_ns).push(
                maker_sample(p, MakerOutcome::MakerFill, p.offer_px),
            )
            &&& bid < p.offer_px && now_ns >= deadline_ns ==> makers_left(t, m, now_ns)
                == makers_left(s, m, now_ns) && makers_done(t, m, now_ns) == makers_done(
                s,
                m,
                now_ns,
            ).push(maker_sample(p, MakerOutcome::Timeout, bid))
        }),
{
    assert(s.push((p, deadline_ns)).drop_last() =~= s);
}

/// An entry is watched while it has holds to come, and a signal likewise; a signal whose
/// offsets are all taken waits for its volume until five seconds after its window.
pub proof fn law_watches_end_with_their_ladder(
    hs: Seq<(HoldProbe, Seq<u64>)>,
    h: HoldProbe,
    ps: Seq<(PxProbe, Seq<u64>)>,
    p: PxProbe,
    pending: Seq<u64>,
    window_ms: u64,
    now_ns: i64,
    ws: Seq<(PxProbe, i64)>,
    due_ns: i64,
)
    requires
        p.t0_ns + (window_ms + 5_000) * 1_000_000 <= i64::MAX,
    ensures
        to_come(pending, h.t0_ns, now_ns).len() == 0 ==> hold_left(hs.push((h, pending)), now_ns)
            == hold_left(hs, now_ns),
        to_come(pending, h.t0_ns, now_ns).len() > 0 ==> hold_left(hs.push((h, pending)), now_ns)
            == hold_left(hs, now_ns).push((h, to_come(pending, h.t0_ns, now_ns))),
        to_come(pending, p.t0_ns, now_ns).len() == 0 ==> px_left(ps.push((p, pending)), now_ns)
            == px_left(ps, now_ns) && px_finished(ps.push((p, pending)), window_ms, now_ns)
            == px_finished(ps, window_ms, now_ns).push(
            (p, (p.t0_ns + (window_ms + 5_000) * 1_000_000) as i64),
        ),
        to_come(pending, p.t0_ns, now_ns).len() > 0 ==> px_left(ps.push((p, pending)), now_ns)
            == px_left(ps, now_ns).push((p, to_come(pending, p.t0_ns, now_ns))) && px_finished(
            ps.push((p, pending)),
            window_ms,
            now_ns,
        ) == px_finished(ps, window_ms, now_ns),
        now_ns >= due_ns ==> volume_ready(ws.push((p, due_ns)), now_ns) == volume_ready(
            ws,
            now_ns,
        ).push(p) && volume_later(ws.push((p, due_ns)), now_ns) == volume_later(ws, now_ns),
        now_ns < due_ns ==> volume_ready(ws.push((p, due_ns)), now_ns) == volume_ready(ws, now_ns)
            && volume_later(ws.push((p, due_ns)), now_ns) == volume_later(ws, now_ns).push(
            (p, due_ns),
        ),
{
    assert(hs.push((h, pending)).drop_last() =~= hs);
    assert(ps.push((p, pending)).drop_last() =~= ps);
    assert(ws.push((p, due_ns)).drop_last() =~= ws);
}

} // verus!
