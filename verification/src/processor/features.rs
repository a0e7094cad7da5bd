//! The features that a price surface reads besides the price, rebuilt from the feeds.
use vstd::prelude::*;
use std::collections::VecDeque;
use crate::json;
use crate::numeral;
use crate::numeral::parse_i64;
use crate::ring;
use crate::ring::{drop_before, find_as_of};
use crate::text;
use crate::text::{chars_of, same, starts_with, string_of_range};

verus! {

/// A quotient of two integers.
#[derive(Clone, Copy, Debug, PartialEq, Eq, Structural)]
pub struct Ratio {
    pub num: i128,
    pub den: i128,
}

/// A copy of some quotients.
pub(crate) fn copy_ratios(v: &Vec<Ratio>) -> (r: Vec<Ratio>)
    ensures
        r@ == v@,
{
    let mut r: Vec<Ratio> = Vec::new();
    let mut i: usize = 0;
    while i < v.len()
        invariant
            i <= v@.len(),
            r@ == v@.take(i as int),
        decreases v@.len() - i,
    {
        r.push(v[i]);
        assert(v@.take(i + 1) =~= v@.take(i as int).push(v@[i as int]));
        i = i + 1;
    }
    assert(v@.take(v@.len() as int) =~= v@);
    r
}

/// What the features are rebuilt from. Mids are in halves of a micro-unit.
#[derive(Debug)]
pub struct FeatureState {
    extras: Vec<String>,
    perp_mid: Option<i64>,
    perp_bsz: i64,
    perp_asz: i64,
    /// The mid of the basis reference, with its instant.
    cb: Option<(i64, i64)>,
    basis_ring: VecDeque<(i64, i64)>,
    mid_ring: VecDeque<(i64, i64)>,
    trade_ring: VecDeque<(i64, i64)>,
}

/// What the features are rebuilt from, as the contracts see it.
#[verifier::ext_equal]
pub struct FeatureV {
    pub extras: Seq<Seq<char>>,
    pub perp_mid: Option<i64>,
    pub perp_bsz: i64,
    pub perp_asz: i64,
    pub cb: Option<(i64, i64)>,
    pub basis: Seq<(i64, i64)>,
    pub mids: Seq<(i64, i64)>,
    pub volume: Seq<(i64, i64)>,
}

/// The features before anything is seen.
pub open spec fn nothing_seen(extras: Seq<Seq<char>>) -> FeatureV {
    FeatureV {
        extras,
        perp_mid: None,
        perp_bsz: 0,
        perp_asz: 0,
        cb: None,
        basis: Seq::empty(),
        mids: Seq::empty(),
        volume: Seq::empty(),
    }
}

impl View for FeatureState {
    type V = FeatureV;

    closed spec fn view(&self) -> FeatureV {
        FeatureV {
            extras: text::views(self.extras@),
            perp_mid: self.perp_mid,
            perp_bsz: self.perp_bsz,
            perp_asz: self.perp_asz,
            cb: self.cb,
            basis: self.basis_ring@,
            mids: self.mid_ring@,
            volume: self.trade_ring@,
        }
    }
}

/// How long mids and the basis are kept: 130 seconds.
pub open spec fn kept(s: Seq<(i64, i64)>, ts: i64, x: i64) -> Seq<(i64, i64)> {
    ring::dropped(s.push((ts, x)), ts - 130_000_000_000)
}

/// How long the traded volume is kept: 620 seconds.
pub open spec fn volume_kept(s: Seq<(i64, i64)>, ts: i64, x: i64) -> Seq<(i64, i64)> {
    ring::dropped(s.push((ts, x)), ts - 620_000_000_000)
}

/// The basis: how far the one reference stands above the other.
pub open spec fn basis_of(v: FeatureV) -> Option<i64> {
    match (v.cb, v.perp_mid) {
        (Some(c), Some(p)) => Some((c.1 - p) as i64),
        _ => None,
    }
}

/// The state with the basis of this instant noted, where there is one.
pub open spec fn with_basis(v: FeatureV, ts: i64) -> FeatureV {
    match basis_of(v) {
        Some(b) => FeatureV { basis: kept(v.basis, ts, b), ..v },
        None => v,
    }
}

/// The state after a quote of the reference.
pub open spec fn after_perp(v: FeatureV, ts: i64, mid: i64, bsz: i64, asz: i64) -> FeatureV {
    if mid > 0 {
        let w = with_basis(
            FeatureV { perp_mid: Some(mid), perp_bsz: bsz, perp_asz: asz, ..v },
            ts,
        );
        FeatureV { mids: kept(w.mids, ts, mid), ..w }
    } else {
        v
    }
}

/// The state after a quote of the basis reference.
pub open spec fn after_cb(v: FeatureV, ts: i64, mid: i64) -> FeatureV {
    if mid > 0 {
        with_basis(FeatureV { cb: Some((ts, mid)), ..v }, ts)
    } else {
        v
    }
}

/// The sample that held `k` seconds ago, if it was at most `slack_s` seconds old then.
pub open spec fn lagged(s: Seq<(i64, i64)>, now: i64, k: int, slack_s: int) -> Option<i64> {
    let t = now - k * 1_000_000_000;
    match ring::as_of(s, t) {
        Some(x) => if x.0 >= t - slack_s * 1_000_000_000 {
            Some(x.1)
        } else {
            None
        },
        None => None,
    }
}

/// The number that a name ends with, behind its first `n` letters.
pub open spec fn lag_in(name: Seq<char>, n: int) -> Option<i64> {
    json::fit64(numeral::signed_value(name.skip(n)))
}

/// One feature at an instant; nothing where it cannot be told. Prices are in units of a
/// half micro-unit, and so come with a denominator of two millions.
pub open spec fn feature_of(v: FeatureV, name: Seq<char>, now: i64) -> Option<Ratio> {
    let basis = basis_of(v)->0;
    if name == "basis"@ {
        Some(Ratio { num: basis as i128, den: 2_000_000 })
    } else if name == "imb1"@ {
        if v.perp_bsz + v.perp_asz <= 0 {
            None
        } else {
            Some(
                Ratio {
                    num: (v.perp_bsz - v.perp_asz) as i128,
                    den: (v.perp_bsz + v.perp_asz) as i128,
                },
            )
        }
    } else if text::has_prefix(name, "dbasis"@) {
        match lag_in(name, 6) {
            Some(k) => match lagged(v.basis, now, k as int, 2) {
                Some(x) => Some(Ratio { num: (basis - x) as i128, den: 2_000_000 }),
                None => None,
            },
            None => None,
        }
    } else if text::has_prefix(name, "mom"@) {
        match lag_in(name, 3) {
            Some(k) => match lagged(v.mids, now, k as int, 2) {
                Some(x) => Some(Ratio { num: (v.perp_mid->0 - x) as i128, den: 2_000_000 }),
                None => None,
            },
            None => None,
        }
    } else if name == "vsurge"@ {
        if v.volume.len() == 0 {
            None
        } else {
            match (lagged(v.volume, now, 60, 5), lagged(v.volume, now, 600, 5)) {
                (Some(a), Some(b)) => if v.volume.last().1 - b <= 0 {
                    None
                } else {
                    Some(
                        Ratio {
                            num: (v.volume.last().1 - a) as i128,
                            den: (v.volume.last().1 - b) as i128,
                        },
                    )
                },
                _ => None,
            }
        }
    } else {
        None
    }
}

/// Whether both references are known, and the basis reference is fresh: at most five
/// seconds old.
pub open spec fn is_fresh(v: FeatureV, now: i64) -> bool {
    v.perp_mid is Some && v.cb is Some && now - (v.cb->0).0 <= 5_000_000_000
}

/// These features at an instant; nothing where one of them cannot be told.
pub open spec fn features_of(v: FeatureV, names: Seq<Seq<char>>, now: i64) -> Option<Seq<Ratio>>
    decreases names.len(),
{
    if names.len() == 0 {
        Some(Seq::empty())
    } else {
        match (features_of(v, names.drop_last(), now), feature_of(v, names.last(), now)) {
            (Some(s), Some(f)) => Some(s.push(f)),
            _ => None,
        }
    }
}

/// All features at an instant.
pub open spec fn all_features(v: FeatureV, now: i64) -> Option<Seq<Ratio>> {
    if is_fresh(v, now) {
        features_of(v, v.extras, now)
    } else {
        None
    }
}

/// The price of the basis reference, where it is fresh.
pub open spec fn fresh_cb(v: FeatureV, now: i64) -> Option<i64> {
    match v.cb {
        Some((t, m)) => if now - t <= 5_000_000_000 {
            Some(m)
        } else {
            None
        },
        None => None,
    }
}

fn lag(q: &VecDeque<(i64, i64)>, now: i64, k: i64, slack_s: i64) -> (r: Option<i64>)
    requires
        0 <= slack_s <= 5,
    ensures
        r == lagged(q@, now, k as int, slack_s as int),
{
    let t: i128 = now as i128 - k as i128 * 1_000_000_000;
    match find_as_of(q, t) {
        Some(i) => if q[i].0 as i128 >= t - slack_s as i128 * 1_000_000_000 {
            Some(q[i].1)
        } else {
            None
        },
        None => None,
    }
}

fn lag_of(name: &str, n: usize) -> (r: Option<i64>)
    requires
        n <= name@.len(),
    ensures
        r == lag_in(name@, n as int),
{
    let v = chars_of(name);
    let t = string_of_range(&v, n, v.len());
    assert(t@ =~= name@.skip(n as int));
    parse_i64(t.as_str())
}

impl FeatureState {
    /// Whether the mids that are held are positive.
    pub closed spec fn wf(&self) -> bool {
        &&& self.perp_mid matches Some(m) ==> m > 0
        &&& self.cb matches Some(c) ==> c.1 > 0
    }

    /// Nothing seen yet.
    pub fn new(extras: Vec<String>) -> (r: FeatureState)
        ensures
            r.wf(),
            r@ == nothing_seen(text::views(extras@)),
    {
        let r = FeatureState {
            extras,
            perp_mid: None,
            perp_bsz: 0,
            perp_asz: 0,
            cb: None,
            basis_ring: VecDeque::new(),
            mid_ring: VecDeque::new(),
            trade_ring: VecDeque::new(),
        };
        assert(r@.basis =~= Seq::<(i64, i64)>::empty());
        r
    }

    /// Whether there are any features to rebuild.
    pub fn active(&self) -> (r: bool)
        ensures
            r == (self@.extras.len() > 0),
    {
        self.extras.len() > 0
    }

    fn push_basis(&mut self, ts_ns: i64)
        requires
            old(self).wf(),
        ensures
            final(self).wf(),
            final(self)@ == with_basis(old(self)@, ts_ns),
    {
        if let (Some(c), Some(p)) = (self.cb, self.perp_mid) {
            let b: i64 = c.1 - p;
            self.basis_ring.push_back((ts_ns, b));
            drop_before(&mut self.basis_ring, ts_ns as i128 - 130_000_000_000);
        }
    }

    /// Takes a quote of the reference in.
    pub fn on_perp(&mut self, ts_ns: i64, mid: i64, bid_sz: i64, ask_sz: i64)
        requires
            old(self).wf(),
        ensures
            final(self).wf(),
            final(self)@ == after_perp(old(self)@, ts_ns, mid, bid_sz, ask_sz),
    {
        if mid > 0 {
            self.perp_mid = Some(mid);
            self.perp_bsz = bid_sz;
            self.perp_asz = ask_sz;
            self.push_basis(ts_ns);
            self.mid_ring.push_back((ts_ns, mid));
            drop_before(&mut self.mid_ring, ts_ns as i128 - 130_000_000_000);
        }
    }

    /// Takes a quote of the basis reference in.
    pub fn on_cb(&mut self, ts_ns: i64, mid: i64)
        requires
            old(self).wf(),
        ensures
            final(self).wf(),
            final(self)@ == after_cb(old(self)@, ts_ns, mid),
    {
        if mid > 0 {
            self.cb = Some((ts_ns, mid));
            self.push_basis(ts_ns);
        }
    }

    /// Takes the volume that was traded in all in.
    pub fn on_perp_trade(&mut self, ts_ns: i64, cum_vol: i64)
        requires
            old(self).wf(),
        ensures
            final(self).wf(),
            final(self)@ == (FeatureV {
                volume: volume_kept(old(self)@.volume, ts_ns, cum_vol),
                ..old(self)@
            }),
    {
        self.trade_ring.push_back((ts_ns, cum_vol));
        drop_before(&mut self.trade_ring, ts_ns as i128 - 620_000_000_000);
    }

    fn feature(&self, name: &str, now_ns: i64) -> (r: Option<Ratio>)
        requires
            self.wf(),
            self@.perp_mid is Some && self@.cb is Some,
        ensures
            r == feature_of(self@, name@, now_ns),
    {
        let perp: i64 = match self.perp_mid {
            Some(p) => p,
            None => 0,
        };
        let cb: i64 = match self.cb {
            Some(c) => c.1,
            None => 0,
        };
        let basis: i64 = cb - perp;
        if same(name, "basis") {
            return Some(Ratio { num: basis as i128, den: 2_000_000 });
        }
        if same(name, "imb1") {
            let s: i128 = self.perp_bsz as i128 + self.perp_asz as i128;
            if s <= 0 {
                return None;
            }
            return Some(Ratio { num: self.perp_bsz as i128 - self.perp_asz as i128, den: s });
        }
        if starts_with(name, "dbasis") {
            proof {
                reveal_strlit("dbasis");
                assert("dbasis"@.len() == 6);
            }
            let k: i64 = match lag_of(name, 6) {
                Some(k) => k,
                None => {
                    return None;
                },
            };
            return match lag(&self.basis_ring, now_ns, k, 2) {
                Some(x) => Some(Ratio { num: basis as i128 - x as i128, den: 2_000_000 }),
                None => None,
            };
        }
        if starts_with(name, "mom") {
            proof {
                reveal_strlit("mom");
                assert("mom"@.len() == 3);
            }
            let k: i64 = match lag_of(name, 3) {
                Some(k) => k,
                None => {
                    return None;
                },
            };
            return match lag(&self.mid_ring, now_ns, k, 2) {
                Some(x) => Some(Ratio { num: perp as i128 - x as i128, den: 2_000_000 }),
                None => None,
            };
        }
        if same(name, "vsurge") {
            let n: usize = self.trade_ring.len();
            if n == 0 {
                return None;
            }
            let cum: i64 = self.trade_ring[n - 1].1;
            return match (
                lag(&self.trade_ring, now_ns, 60, 5),
                lag(&self.trade_ring, now_ns, 600, 5),
            ) {
                (Some(a), Some(b)) => {
                    let den: i128 = cum as i128 - b as i128;
                    if den <= 0 {
                        None
                    } else {
                        Some(Ratio { num: cum as i128 - a as i128, den })
                    }
                },
                _ => None,
            };
        }
        None
    }

    /// The features at an instant, in their order; nothing where one of them cannot be told or
    /// the basis reference is stale.
    pub fn feats(&self, now_ns: i64) -> (r: Option<Vec<Ratio>>)
        requires
            self.wf(),
        ensures
            match r {
                Some(f) => all_features(self@, now_ns) == Some(f@),
                None => all_features(self@, now_ns) is None,
            },
    {
        if self.perp_mid.is_none() {
            return None;
        }
        match self.cb {
            Some(c) => if now_ns as i128 - c.0 as i128 > 5_000_000_000 {
                return None;
            },
            None => {
                return None;
            },
        }
        let ghost names = self@.extras;
        let mut out: Vec<Ratio> = Vec::new();
        let mut i: usize = 0;
        assert(names.take(0) =~= Seq::<Seq<char>>::empty());
        while i < self.extras.len()
            invariant
                self.wf(),
                self@.perp_mid is Some && self@.cb is Some,
                is_fresh(self@, now_ns),
                names == self@.extras,
                names == text::views(self.extras@),
                i <= names.len(),
                features_of(self@, names.take(i as int), now_ns) == Some(out@),
            decreases names.len() - i,
        {
            assert(names.take(i + 1).drop_last() =~= names.take(i as int));
            assert(names.take(i + 1).last() == self.extras@[i as int]@);
            match self.feature(self.extras[i].as_str(), now_ns) {
                Some(f) => out.push(f),
                None => {
                    proof {
                        lemma_missing(self@, names, now_ns, i as int);
                    }
                    return None;
                },
            }
            i = i + 1;
        }
        assert(names.take(names.len() as int) =~= names);
        Some(out)
    }

    /// The price of the basis reference, where it is fresh.
    pub fn cb_price(&self, now_ns: i64) -> (r: Option<i64>)
        ensures
            r == fresh_cb(self@, now_ns),
    {
        match self.cb {
            Some((t, m)) => if now_ns as i128 - t as i128 <= 5_000_000_000 {
                Some(m)
            } else {
                None
            },
            None => None,
        }
    }

    /// The age of the basis reference's quote, in nanoseconds.
    pub fn cb_age(&self, now_ns: i64) -> (r: Option<i128>)
        ensures
            r == (match self@.cb {
                Some(c) => Some((now_ns - c.0) as i128),
                None => None,
            }),
    {
        match self.cb {
            Some((t, _)) => Some(now_ns as i128 - t as i128),
            None => None,
        }
    }
}

/// Where one feature cannot be told, all of them cannot.
proof fn lemma_missing(v: FeatureV, names: Seq<Seq<char>>, now: i64, i: int)
    requires
        0 <= i < names.len(),
        feature_of(v, names[i], now) is None,
    ensures
        features_of(v, names, now) is None,
    decreases names.len(),
{
    if i < names.len() - 1 {
        assert(names.drop_last()[i] == names[i]);
        lemma_missing(v, names.drop_last(), now, i);
    }
}

/// All features are told together or not at all: one that cannot be told leaves nothing,
/// and otherwise there is one for each name.
pub proof fn law_all_or_nothing(v: FeatureV, names: Seq<Seq<char>>, now: i64)
    ensures
        features_of(v, names, now) is Some == (forall|i: int|
            0 <= i < names.len() ==> feature_of(v, #[trigger] names[i], now) is Some),
        features_of(v, names, now) matches Some(s) ==> s.len() == names.len() && forall|i: int|
            0 <= i < names.len() ==> Some(#[trigger] s[i]) == feature_of(v, names[i], now),
    decreases names.len(),
{
    if names.len() > 0 {
        let d = names.drop_last();
        law_all_or_nothing(v, d, now);
        if features_of(v, names, now) is Some {
            assert forall|i: int| 0 <= i < names.len() implies feature_of(
                v,
                #[trigger] names[i],
                now,
            ) is Some by {
                if i < d.len() {
                    assert(d[i] == names[i]);
                }
            }
            let s = features_of(v, names, now)->0;
            assert forall|i: int| 0 <= i < names.len() implies Some(#[trigger] s[i]) == feature_of(
                v,
                names[i],
                now,
            ) by {
                if i < d.len() {
                    assert(d[i] == names[i]);
                }
            }
        } else if forall|i: int|
            0 <= i < names.len() ==> feature_of(v, #[trigger] names[i], now) is Some {
            assert forall|i: int| 0 <= i < d.len() implies feature_of(v, #[trigger] d[i], now) is Some by {
                assert(d[i] == names[i]);
            }
            assert(names[names.len() - 1] == names.last());
        }
    }
}

/// The basis is how far the basis reference stands above the reference, and changes with
/// either; a quote without a price changes nothing.
pub proof fn law_the_basis_is_a_difference(v: FeatureV, ts: i64, mid: i64, bsz: i64, asz: i64)
    requires
        v.cb matches Some(c) ==> c.1 > 0,
        v.perp_mid matches Some(p) ==> p > 0,
    ensures
        mid <= 0 ==> after_perp(v, ts, mid, bsz, asz) == v && after_cb(v, ts, mid) == v,
        mid > 0 ==> {
            let w = after_perp(v, ts, mid, bsz, asz);
            &&& w.perp_mid == Some(mid) && w.perp_bsz == bsz && w.perp_asz == asz && w.cb == v.cb
            &&& v.cb matches Some(c) ==> basis_of(w) == Some((c.1 - mid) as i64) && w.basis == kept(
                v.basis,
                ts,
                (c.1 - mid) as i64,
            )
            &&& v.cb is None ==> basis_of(w) is None && w.basis == v.basis
            &&& w.mids == kept(v.mids, ts, mid)
        },
        mid > 0 ==> {
            let w = after_cb(v, ts, mid);
            &&& w.cb == Some((ts, mid)) && w.perp_mid == v.perp_mid && w.mids == v.mids
            &&& v.perp_mid matches Some(p) ==> basis_of(w) == Some((mid - p) as i64) && w.basis
                == kept(v.basis, ts, (mid - p) as i64)
        },
{
}

/// What is kept is what is younger than so many seconds, the new one last.
pub proof fn law_features_are_kept_for_a_while(s: Seq<(i64, i64)>, ts: i64, x: i64)
    requires
        ring::in_order(s),
        s.len() > 0 ==> s.last().0 <= ts,
    ensures
        kept(s, ts, x) == s.push((ts, x)).filter(
            |y: (i64, i64)| y.0 >= ts - 130_000_000_000,
        ),
        volume_kept(s, ts, x) == s.push((ts, x)).filter(
            |y: (i64, i64)| y.0 >= ts - 620_000_000_000,
        ),
{
    let p = s.push((ts, x));
    assert forall|i: int, j: int| #![trigger p[i], p[j]] 0 <= i <= j < p.len() implies p[i].0
        <= p[j].0 by {
        if j == s.len() && i < j {
            assert(s[i].0 <= s[s.len() - 1].0);
        }
    }
    ring::law_dropped_keeps_the_recent(p, ts - 130_000_000_000);
    ring::law_dropped_keeps_the_recent(p, ts - 620_000_000_000);
}

/// What held so many seconds ago is the last sample before that, if it was not too old then.
pub proof fn law_lags_look_back_in_seconds(
    s: Seq<(i64, i64)>,
    now: i64,
    k: int,
    slack_s: int,
    i: int,
)
    requires
        0 <= i < s.len(),
        s[i].0 <= now - k * 1_000_000_000,
        forall|j: int| i < j < s.len() ==> (#[trigger] s[j]).0 > now - k * 1_000_000_000,
    ensures
        s[i].0 >= now - (k + slack_s) * 1_000_000_000 ==> lagged(s, now, k, slack_s) == Some(
            s[i].1,
        ),
        s[i].0 < now - (k + slack_s) * 1_000_000_000 ==> lagged(s, now, k, slack_s) is None,
{
    ring::law_the_last_sample_holds(s, now - k * 1_000_000_000, i);
}

/// The features by their names: the basis, the imbalance of the first level, which is
/// positive where the bid is the larger, the changes of the basis and of the price over so
/// many seconds, and how much of the volume of ten minutes came in the last.
pub proof fn law_features_by_name(v: FeatureV, name: Seq<char>, now: i64, k: i64, x: i64)
    ensures
        basis_of(v) matches Some(b) ==> feature_of(v, "basis"@, now) == Some(
            Ratio { num: b as i128, den: 2_000_000 },
        ),
        v.perp_bsz + v.perp_asz > 0 ==> feature_of(v, "imb1"@, now) == Some(
            Ratio {
                num: (v.perp_bsz - v.perp_asz) as i128,
                den: (v.perp_bsz + v.perp_asz) as i128,
            },
        ),
        v.perp_bsz + v.perp_asz <= 0 ==> feature_of(v, "imb1"@, now) is None,
        text::has_prefix(name, "dbasis"@) && lag_in(name, 6) == Some(k) && lagged(
            v.basis,
            now,
            k as int,
            2,
        ) == Some(x) ==> feature_of(v, name, now) == Some(
            Ratio { num: (basis_of(v)->0 - x) as i128, den: 2_000_000 },
        ),
        text::has_prefix(name, "mom"@) && lag_in(name, 3) == Some(k) && lagged(
            v.mids,
            now,
            k as int,
            2,
        ) == Some(x) ==> feature_of(v, name, now) == Some(
            Ratio { num: (v.perp_mid->0 - x) as i128, den: 2_000_000 },
        ),
        v.volume.len() > 0 ==> (lagged(v.volume, now, 60, 5) matches Some(a) ==> (lagged(
            v.volume,
            now,
            600,
            5,
        ) matches Some(b) ==> (v.volume.last().1 > b ==> feature_of(v, "vsurge"@, now) == Some(
            Ratio {
                num: (v.volume.last().1 - a) as i128,
                den: (v.volume.last().1 - b) as i128,
            },
        )))),
{
    reveal_strlit("basis");
    reveal_strlit("imb1");
    reveal_strlit("dbasis");
    reveal_strlit("mom");
    reveal_strlit("vsurge");
    assert("imb1"@[0] == 'i' && "basis"@[0] == 'b' && "dbasis"@[0] == 'd' && "mom"@[0] == 'm'
        && "vsurge"@[0] == 'v');
    if text::has_prefix(name, "dbasis"@) {
        assert(name[0] == name.take(6)[0]);
    }
    if text::has_prefix(name, "mom"@) {
        assert(name[0] == name.take(3)[0]);
    }
    assert(!text::has_prefix("vsurge"@, "dbasis"@)) by {
        assert("vsurge"@.take(6)[0] == 'v');
    }
    assert(!text::has_prefix("vsurge"@, "mom"@)) by {
        assert("vsurge"@.take(3)[0] == 'v');
    }
    if text::has_prefix(name, "mom"@) && text::has_prefix(name, "dbasis"@) {
        assert(name[0] == name.take(6)[0]);
        assert(name[0] == name.take(3)[0]);
    }
}

/// The basis reference is fresh for five seconds.
pub proof fn law_the_basis_reference_is_fresh_for_five_seconds(v: FeatureV, now: i64, t: i64, m: i64)
    requires
        v.cb == Some((t, m)),
    ensures
        now - t <= 5_000_000_000 ==> fresh_cb(v, now) == Some(m),
        now - t > 5_000_000_000 ==> fresh_cb(v, now) is None && all_features(v, now) is None,
        now - t <= 5_000_000_000 && v.perp_mid is Some ==> all_features(v, now) == features_of(
            v,
            v.extras,
            now,
        ),
{
}

/// Before anything is seen there is no price, no size and no history.
pub proof fn law_nothing_is_seen_at_first(extras: Seq<Seq<char>>)
    ensures
        ({
            let v = nothing_seen(extras);
            &&& v.extras == extras && v.perp_mid is None && v.cb is None
            &&& v.perp_bsz == 0 && v.perp_asz == 0
            &&& v.basis.len() == 0 && v.mids.len() == 0 && v.volume.len() == 0
        }),
{
}

} // verus!
