//! The recent past of a price.
use vstd::prelude::*;
use std::collections::VecDeque;
use crate::fixed;
use crate::fixed::{sat, trunc_div_wide};
use crate::ring;

verus! {

/// Samples of a mid, in halves of a micro-unit, in time order: no older than a horizon, and
/// no more than a number.
#[derive(Debug)]
pub struct RollingWindow {
    buf: VecDeque<(i64, i64)>,
    cap: usize,
    horizon_ms: u64,
}

/// A window, as the contracts see it.
#[verifier::ext_equal]
pub struct WindowV {
    pub samples: Seq<(i64, i64)>,
    pub cap: usize,
    pub horizon_ms: u64,
}

impl View for RollingWindow {
    type V = WindowV;

    closed spec fn view(&self) -> WindowV {
        WindowV { samples: self.buf@, cap: self.cap, horizon_ms: self.horizon_ms }
    }
}

/// What is left once the samples at the front are gone that are too old or too many.
pub open spec fn evicted(s: Seq<(i64, i64)>, cutoff: int, cap: int) -> Seq<(i64, i64)>
    decreases s.len(),
{
    if s.len() > 0 && (s[0].0 < cutoff || s.len() > cap) {
        evicted(s.skip(1), cutoff, cap)
    } else {
        s
    }
}

/// A window without samples.
pub open spec fn fresh(cap: usize, horizon_ms: u64) -> WindowV {
    WindowV { samples: Seq::empty(), cap, horizon_ms }
}

/// A window with one more sample.
pub open spec fn pushed(w: WindowV, ts_ns: i64, mid: i64) -> WindowV {
    WindowV {
        samples: evicted(
            w.samples.push((ts_ns, mid)),
            ts_ns - w.horizon_ms * 1_000_000,
            w.cap as int,
        ),
        ..w
    }
}

/// The mid that held at an instant: that of the last sample before the first one that is later.
pub open spec fn held_at(s: Seq<(i64, i64)>, t: int) -> Option<i64>
    decreases s.len(),
{
    if s.len() == 0 || s[0].0 > t {
        None
    } else {
        match held_at(s.skip(1), t) {
            Some(m) => Some(m),
            None => Some(s[0].1),
        }
    }
}

/// The relative move over a window, in millionths of a basis point, rounded toward zero;
/// nothing where no sample spans it or the past is zero.
pub open spec fn relative_move(s: Seq<(i64, i64)>, now: i64, window_ms: u64) -> Option<i64> {
    match (held_at(s, now as int), held_at(s, now - window_ms * 1_000_000)) {
        (Some(cur), Some(past)) => if past != 0 {
            Some(
                fixed::clamp64(
                    fixed::trunc_quotient((cur - past) * 10_000_000_000, past as int),
                ) as i64,
            )
        } else {
            None
        },
        _ => None,
    }
}

/// Whether the relative move over a window is a rise, however small.
pub open spec fn rises(s: Seq<(i64, i64)>, now: i64, window_ms: u64) -> bool {
    match (held_at(s, now as int), held_at(s, now - window_ms * 1_000_000)) {
        (Some(cur), Some(past)) => (past > 0 && cur > past) || (past < 0 && cur < past),
        _ => false,
    }
}

/// The move over a window; nothing where no sample spans it.
pub open spec fn absolute_move(s: Seq<(i64, i64)>, now: i64, window_ms: u64) -> Option<i64> {
    match (held_at(s, now as int), held_at(s, now - window_ms * 1_000_000)) {
        (Some(cur), Some(past)) => Some(fixed::clamp64(cur - past) as i64),
        _ => None,
    }
}

impl RollingWindow {
    /// A window without samples.
    pub fn new(cap: usize, horizon_ms: u64) -> (r: RollingWindow)
        ensures
            r@ == fresh(cap, horizon_ms),
    {
        let r = RollingWindow { buf: VecDeque::new(), cap, horizon_ms };
        assert(r@ =~= fresh(cap, horizon_ms));
        r
    }

    /// Takes a sample in, and drops what has become too old or too many.
    pub fn push(&mut self, ts_ns: i64, mid: i64)
        ensures
            final(self)@ == pushed(old(self)@, ts_ns, mid),
    {
        let cutoff: i128 = ts_ns as i128 - self.horizon_ms as i128 * 1_000_000;
        self.buf.push_back((ts_ns, mid));
        let ghost all = self.buf@;
        let cap: usize = self.cap;
        let mut going: bool = true;
        while going
            invariant
                cap == old(self).cap,
                self.cap == old(self).cap,
                self.horizon_ms == old(self).horizon_ms,
                evicted(self.buf@, cutoff as int, cap as int) == evicted(
                    all,
                    cutoff as int,
                    cap as int,
                ),
                !going ==> self.buf@ == evicted(self.buf@, cutoff as int, cap as int),
            decreases self.buf@.len(), going as int,
        {
            if self.buf.len() > 0 && ((self.buf[0].0 as i128) < cutoff || self.buf.len() > cap) {
                let ghost before = self.buf@;
                let _ = self.buf.pop_front();
                assert(self.buf@ =~= before.skip(1));
            } else {
                going = false;
            }
        }
    }

    /// The mid that held at an instant.
    pub fn asof(&self, ts_ns: i64) -> (r: Option<i64>)
        ensures
            r == held_at(self@.samples, ts_ns as int),
    {
        self.held(ts_ns as i128)
    }

    fn held(&self, t: i128) -> (r: Option<i64>)
        ensures
            r == held_at(self@.samples, t as int),
    {
        let ghost s = self.buf@;
        let mut found: Option<i64> = None;
        let mut i: usize = 0;
        assert(s.skip(0) =~= s);
        while i < self.buf.len()
            invariant
                s == self.buf@,
                i <= s.len(),
                held_at(s, t as int) == (match held_at(s.skip(i as int), t as int) {
                    Some(m) => Some(m),
                    None => found,
                }),
            decreases s.len() - i,
        {
            assert(s.skip(i as int)[0] == s[i as int]);
            assert(s.skip(i as int).skip(1) =~= s.skip(i + 1));
            if self.buf[i].0 as i128 > t {
                return found;
            }
            found = Some(self.buf[i].1);
            i = i + 1;
        }
        found
    }

    /// The relative move over a window, in millionths of a basis point.
    pub fn move_bps(&self, now_ns: i64, window_ms: u64) -> (r: Option<i64>)
        ensures
            r == relative_move(self@.samples, now_ns, window_ms),
    {
        let cur: i64 = match self.asof(now_ns) {
            Some(m) => m,
            None => {
                return None;
            },
        };
        let past: i64 = match self.held(now_ns as i128 - window_ms as i128 * 1_000_000) {
            Some(m) => m,
            None => {
                return None;
            },
        };
        if past != 0 {
            Some(
                sat(trunc_div_wide((cur as i128 - past as i128) * 10_000_000_000, past)),
            )
        } else {
            None
        }
    }

    /// Whether the relative move over a window is a rise.
    pub fn rises(&self, now_ns: i64, window_ms: u64) -> (r: bool)
        ensures
            r == rises(self@.samples, now_ns, window_ms),
    {
        match (self.asof(now_ns), self.held(now_ns as i128 - window_ms as i128 * 1_000_000)) {
            (Some(cur), Some(past)) => (past > 0 && cur > past) || (past < 0 && cur < past),
            _ => false,
        }
    }

    /// The move over a window, in halves of a micro-unit.
    pub fn move_abs(&self, now_ns: i64, window_ms: u64) -> (r: Option<i64>)
        ensures
            r == absolute_move(self@.samples, now_ns, window_ms),
    {
        let cur: i64 = match self.asof(now_ns) {
            Some(m) => m,
            None => {
                return None;
            },
        };
        match self.held(now_ns as i128 - window_ms as i128 * 1_000_000) {
            Some(past) => Some(sat(cur as i128 - past as i128)),
            None => None,
        }
    }
}

proof fn lemma_evicted_suffix(s: Seq<(i64, i64)>, cutoff: int, cap: int)
    requires
        ring::in_order(s),
    ensures
        ring::in_order(evicted(s, cutoff, cap)),
        evicted(s, cutoff, cap).len() <= s.len(),
        forall|i: int|
            0 <= i < evicted(s, cutoff, cap).len() ==> (#[trigger] evicted(s, cutoff, cap)[i]).0
                >= cutoff,
        evicted(s, cutoff, cap).len() > 0 ==> evicted(s, cutoff, cap).len() <= cap,
        cap >= 1 && s.len() > 0 && s.last().0 >= cutoff ==> evicted(s, cutoff, cap).len() > 0
            && evicted(s, cutoff, cap).last() == s.last(),
    decreases s.len(),
{
    if s.len() > 0 && (s[0].0 < cutoff || s.len() > cap) {
        let t = s.skip(1);
        assert forall|i: int, j: int|
            #![trigger t[i], t[j]]
            0 <= i <= j < t.len() implies t[i].0 <= t[j].0 by {
            assert(s[i + 1].0 <= s[j + 1].0);
        }
        lemma_evicted_suffix(t, cutoff, cap);
    } else {
        assert forall|i: int| 0 <= i < s.len() implies (#[trigger] s[i]).0 >= cutoff by {
            assert(s[0].0 <= s[i].0);
        }
    }
}

/// A window that takes its samples in time order stays in time order, holds no more than its
/// number and nothing older than its horizon, and ends with the sample just taken.
pub proof fn law_window_is_bounded(w: WindowV, ts_ns: i64, mid: i64)
    requires
        ring::in_order(w.samples),
        w.samples.len() > 0 ==> w.samples.last().0 <= ts_ns,
        w.cap >= 1,
    ensures
        ({
            let s = pushed(w, ts_ns, mid).samples;
            &&& ring::in_order(s)
            &&& 0 < s.len() <= w.cap
            &&& s.last() == (ts_ns, mid)
            &&& forall|i: int| 0 <= i < s.len() ==> (#[trigger] s[i]).0 >= ts_ns - w.horizon_ms * 1_000_000
        }),
{
    let p = w.samples.push((ts_ns, mid));
    assert forall|i: int, j: int| #![trigger p[i], p[j]] 0 <= i <= j < p.len() implies p[i].0
        <= p[j].0 by {
        if i < w.samples.len() {
            assert(w.samples[i].0 <= w.samples.last().0);
            if j < w.samples.len() {
                assert(w.samples[i].0 <= w.samples[j].0);
            }
        }
    }
    lemma_evicted_suffix(p, ts_ns - w.horizon_ms * 1_000_000, w.cap as int);
}

/// In a window in time order, the mid that held is that of the last sample that is not later.
pub proof fn law_held_is_the_last_known(s: Seq<(i64, i64)>, t: int, i: int)
    requires
        ring::in_order(s),
        0 <= i < s.len(),
        s[i].0 <= t,
        forall|j: int| i < j < s.len() ==> (#[trigger] s[j]).0 > t,
    ensures
        held_at(s, t) == Some(s[i].1),
    decreases s.len(),
{
    assert(s[0].0 <= s[i].0);
    let u = s.skip(1);
    if i > 0 {
        assert forall|a: int, b: int|
            #![trigger u[a], u[b]]
            0 <= a <= b < u.len() implies u[a].0 <= u[b].0 by {
            assert(s[a + 1].0 <= s[b + 1].0);
        }
        assert(u[i - 1] == s[i]);
        assert forall|j: int| i - 1 < j < u.len() implies (#[trigger] u[j]).0 > t by {
            assert(s[j + 1].0 > t);
        }
        law_held_is_the_last_known(u, t, i - 1);
    } else {
        if u.len() > 0 {
            assert(u[0] == s[1]);
        }
    }
}

/// The relative move over a window is the change of the mid over the past mid, in millionths
/// of a basis point, rounded toward zero: it has the sign of the change, and the absolute
/// move is the change itself.
pub proof fn law_moves_have_the_sign_of_the_change(s: Seq<(i64, i64)>, now: i64, window_ms: u64)
    ensures
        held_at(s, now as int) matches Some(cur) ==> (held_at(
            s,
            now - window_ms * 1_000_000,
        ) matches Some(past) ==> {
            &&& past != 0 <==> relative_move(s, now, window_ms) is Some
            &&& past > 0 ==> {
                let mv = relative_move(s, now, window_ms)->0;
                &&& cur >= past ==> mv >= 0
                &&& cur <= past ==> mv <= 0
                &&& cur > past && (cur - past) * 10_000_000_000 <= i64::MAX ==> mv * past <= (cur
                    - past) * 10_000_000_000 < (mv + 1) * past
                &&& cur < past && (past - cur) * 10_000_000_000 <= i64::MAX ==> (-mv) * past <= (past
                    - cur) * 10_000_000_000 < (-mv + 1) * past
                &&& rises(s, now, window_ms) <==> cur > past
            }
            &&& relative_move(s, now, window_ms) matches Some(mv) ==> (mv > 0 ==> rises(
                s,
                now,
                window_ms,
            )) && (mv < 0 ==> !rises(s, now, window_ms))
            &&& i64::MIN <= cur - past <= i64::MAX ==> absolute_move(s, now, window_ms) == Some(
                (cur - past) as i64,
            )
        }),
        held_at(s, now as int) is None || held_at(s, now - window_ms * 1_000_000) is None
            ==> relative_move(s, now, window_ms) is None && absolute_move(s, now, window_ms) is None,
{
    if held_at(s, now as int) is Some && held_at(s, now - window_ms * 1_000_000) is Some {
        let cur = held_at(s, now as int)->0;
        let past = held_at(s, now - window_ms * 1_000_000)->0;
        if past != 0 {
            let a = fixed::magnitude((cur - past) * 10_000_000_000);
            let b = fixed::magnitude(past as int);
            vstd::arithmetic::div_mod::lemma_fundamental_div_mod(a, b);
            let q = a / b;
            assert(q >= 0 && q * b <= a && a < (q + 1) * b && q <= a) by (nonlinear_arith)
                requires
                    a == b * q + a % b,
                    0 <= a % b < b,
                    a >= 0,
                    b >= 1,
                    q == a / b,
            ;
        }
    }
}

/// A rise is of the quotient: below zero it is a fall of the number.
pub proof fn law_rises_below_zero(s: Seq<(i64, i64)>, now: i64, window_ms: u64, cur: i64, past: i64)
    requires
        held_at(s, now as int) == Some(cur),
        held_at(s, now - window_ms * 1_000_000) == Some(past),
    ensures
        past < 0 ==> (rises(s, now, window_ms) <==> cur < past),
        past == 0 || cur == past ==> !rises(s, now, window_ms),
{
}

} // verus!
