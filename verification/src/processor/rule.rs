//! A move of the reference that the market has not followed yet.
use vstd::prelude::*;
use crate::event::{Event, Payload};
use crate::fixed;
use crate::fixed::{abs64, sat};
use crate::model::{TradeSignal, Trigger};
use crate::numeral;
use crate::numeral::{push_places, push_u64};
use crate::processor::state;
use crate::processor::state::MarketState;
use crate::processor::state::{InstrumentV, MarketStateV};
use crate::processor::window;
use crate::text::same;

verus! {

/// A rule: what looks at every event, and may fire.
pub trait Rule: Sized {
    /// What the rule is called.
    spec fn name(&self) -> Seq<char>;

    /// Whether a rule that looks at an event gives these signals and becomes `after`.
    spec fn answers(
        before: Self,
        ev: Event,
        m: MarketStateV,
        out: Seq<TradeSignal>,
        after: Self,
    ) -> bool;

    /// The name of the rule.
    fn id(&self) -> (r: &str)
        ensures
            r@ == self.name(),
    ;

    /// Looks at an event; gives what it fires.
    fn on_event(&mut self, ev: &Event, state: &MarketState) -> (out: Vec<TradeSignal>)
        ensures
            Self::answers(*old(self), *ev, state@, out@, *final(self)),
    ;
}

/// Fires when the reference has moved by a threshold over a window, while the market's own
/// price is in its range, it has enough time left, and the last signal is long enough ago.
#[derive(Debug)]
pub struct PerpMoveRule {
    pub strategy: String,
    pub reference: String,
    pub window_ms: u64,
    /// Millionths of a basis point.
    pub threshold_bps: i64,
    /// The range of the market's price, in micro-units.
    pub yes_bucket: (i64, i64),
    pub cooldown_ms: u64,
    pub min_tte_ms: i64,
    pub hold_ms: u64,
    pub ttl_ms: u64,
    pub last_signal_ns: Option<i64>,
}

/// Whether the rule rests: its last signal is less than the cooldown ago.
pub open spec fn rests(last: Option<i64>, now: i64, cooldown_ms: u64) -> bool {
    match last {
        Some(t) => now - t < cooldown_ms * 1_000_000,
        None => false,
    }
}

/// What fires: the move of the reference and the market, where all conditions hold.
pub open spec fn fires(r: PerpMoveRule, last: Option<i64>, ev: Event, m: MarketStateV) -> Option<
    (i64, InstrumentV),
> {
    let reference = r.reference@;
    match ev.payload {
        Payload::Book(b) => match (state::known_in(m, reference), state::target_in(m, reference)) {
            (Some(s), Some(t)) => match window::relative_move(
                s.ring.samples,
                ev.ts_ns,
                r.window_ms,
            ) {
                Some(mv) => if b.instrument@ == reference && !rests(
                    last,
                    ev.ts_ns,
                    r.cooldown_ms,
                ) && fixed::magnitude(mv as int) >= r.threshold_bps && m.instruments.contains_key(
                    t.instrument,
                ) && may_trade_at(r, t, m, ev.ts_ns) {
                    Some((mv, t))
                } else {
                    None
                },
                None => None,
            },
            _ => None,
        },
        _ => None,
    }
}

/// Whether the market may be traded, its end being that of the instrument of its name.
pub open spec fn may_trade_at(r: PerpMoveRule, t: InstrumentV, m: MarketStateV, now: i64) -> bool {
    &&& t.mid is Some
    &&& 2 * r.yes_bucket.0 <= t.mid->0 <= 2 * r.yes_bucket.1
    &&& match state::known_in(m, t.instrument) {
        Some(x) => state::time_left(x, now) is Some && state::time_left(x, now)->0 >= r.min_tte_ms,
        None => false,
    }
}

/// What a reader is told of a move: of the reference in basis points, and of the target in
/// cents.
pub open spec fn move_reason(mv: i64, window_ms: u64, token_c: Option<i64>) -> Seq<char> {
    "perp move "@ + numeral::places(mv as int, 10_000, 100, 2, true) + "bps over "@ + numeral::dec(
        window_ms as nat,
    ) + "ms, token "@ + (match token_c {
        Some(c) => numeral::places(c as int, 10_000, 100, 2, true),
        None => "NaN"@,
    }) + "c"@
}

fn move_text(mv: i64, window_ms: u64, token_c: Option<i64>) -> (r: String)
    ensures
        r@ == move_reason(mv, window_ms, token_c),
{
    let mut s = String::new();
    s.append("perp move ");
    push_places(&mut s, mv, 10_000, 100, 2, true);
    s.append("bps over ");
    push_u64(&mut s, window_ms);
    s.append("ms, token ");
    match token_c {
        Some(c) => push_places(&mut s, c, 10_000, 100, 2, true),
        None => s.append("NaN"),
    }
    s.append("c");
    assert(s@ =~= move_reason(mv, window_ms, token_c));
    s
}

/// Whether a signal says what fired.
pub open spec fn is_signal(
    s: TradeSignal,
    r: PerpMoveRule,
    mv: i64,
    t: InstrumentV,
    m: MarketStateV,
    now: i64,
) -> bool {
    &&& s.strategy@ == r.strategy@
    &&& s.ts_ns == now
    &&& s.reason@ == move_reason(mv, r.window_ms, s.trigger.target_move_c)
    &&& s.reference@ == r.reference@
    &&& s.target@ == t.instrument
    &&& s.direction == if state::risen(m, r.reference@, now, r.window_ms) {
        1i8
    } else {
        -1i8
    }
    &&& s.trigger.move_bps == mv
    &&& s.trigger.window_ms == r.window_ms
    &&& s.trigger.yes_price == t.mid->0
    &&& s.trigger.target_move_c == (match state::known_in(m, t.instrument) {
        Some(x) => match window::absolute_move(x.ring.samples, now, r.window_ms) {
            Some(d) => Some(fixed::clamp64(d * 50) as i64),
            None => None,
        },
        None => None,
    })
    &&& s.hold_ms == r.hold_ms
    &&& s.ttl_ms == r.ttl_ms
}

impl PerpMoveRule {
    /// A rule that has not fired.
    pub fn new(
        strategy: String,
        reference: String,
        window_ms: u64,
        threshold_bps: i64,
        yes_bucket: (i64, i64),
        cooldown_ms: u64,
        min_tte_ms: i64,
        hold_ms: u64,
        ttl_ms: u64,
    ) -> (r: PerpMoveRule)
        ensures
            r.strategy == strategy && r.reference == reference,
            r.window_ms == window_ms && r.threshold_bps == threshold_bps,
            r.yes_bucket == yes_bucket && r.cooldown_ms == cooldown_ms,
            r.min_tte_ms == min_tte_ms && r.hold_ms == hold_ms && r.ttl_ms == ttl_ms,
            r.last_signal_ns is None,
    {
        PerpMoveRule {
            strategy,
            reference,
            window_ms,
            threshold_bps,
            yes_bucket,
            cooldown_ms,
            min_tte_ms,
            hold_ms,
            ttl_ms,
            last_signal_ns: None,
        }
    }

    /// Whether everything but the last signal is the same.
    pub open spec fn same_settings(&self, o: &PerpMoveRule) -> bool {
        &&& self.strategy == o.strategy && self.reference == o.reference
        &&& self.window_ms == o.window_ms && self.threshold_bps == o.threshold_bps
        &&& self.yes_bucket == o.yes_bucket && self.cooldown_ms == o.cooldown_ms
        &&& self.min_tte_ms == o.min_tte_ms && self.hold_ms == o.hold_ms
        &&& self.ttl_ms == o.ttl_ms
    }
}

impl Rule for PerpMoveRule {
    open spec fn name(&self) -> Seq<char> {
        self.strategy@
    }

    /// It fires at most once. Only books of the reference make it fire.
    open spec fn answers(
        before: PerpMoveRule,
        ev: Event,
        m: MarketStateV,
        out: Seq<TradeSignal>,
        after: PerpMoveRule,
    ) -> bool {
        &&& after.same_settings(&before)
        &&& match fires(before, before.last_signal_ns, ev, m) {
            Some((mv, t)) => {
                &&& out.len() == 1
                &&& is_signal(out[0], before, mv, t, m, ev.ts_ns)
                &&& after.last_signal_ns == Some(ev.ts_ns)
            },
            None => out.len() == 0 && after.last_signal_ns == before.last_signal_ns,
        }
    }

    fn id(&self) -> (r: &str) {
        self.strategy.as_str()
    }

    fn on_event(&mut self, ev: &Event, state: &MarketState) -> (r: Vec<TradeSignal>) {
        let none: Vec<TradeSignal> = Vec::new();
        match &ev.payload {
            Payload::Book(b) => {
                if !same(b.instrument.as_str(), self.reference.as_str()) {
                    return none;
                }
            },
            _ => {
                return none;
            },
        }
        let now: i64 = ev.ts_ns;
        if let Some(t) = self.last_signal_ns {
            if (now as i128 - t as i128) < self.cooldown_ms as i128 * 1_000_000 {
                return none;
            }
        }
        let move_bps: i64 = match state.move_bps(self.reference.as_str(), now, self.window_ms) {
            Some(m) => m,
            None => {
                return none;
            },
        };
        if abs64(move_bps) < self.threshold_bps as i128 {
            return none;
        }
        let t = match state.target_of(self.reference.as_str()) {
            Some(t) => t,
            None => {
                return none;
            },
        };
        let yes: i64 = match t.mid {
            Some(m) => m,
            None => {
                return none;
            },
        };
        if (yes as i128) < 2 * self.yes_bucket.0 as i128 || yes as i128 > 2 * self.yes_bucket.1 as i128 {
            return none;
        }
        match state.tte_ms(t.instrument.as_str(), now) {
            Some(tte) => if tte < self.min_tte_ms {
                return none;
            },
            None => {
                return none;
            },
        }
        let target_move_c: Option<i64> = match state.move_abs(
            t.instrument.as_str(),
            now,
            self.window_ms,
        ) {
            Some(d) => Some(sat(d as i128 * 50)),
            None => None,
        };
        self.last_signal_ns = Some(now);
        let mut out: Vec<TradeSignal> = Vec::new();
        out.push(
            TradeSignal {
                strategy: self.strategy.clone(),
                ts_ns: now,
                reason: move_text(move_bps, self.window_ms, target_move_c),
                reference: self.reference.clone(),
                target: t.instrument.clone(),
                direction: if state.rises(self.reference.as_str(), now, self.window_ms) {
                    1
                } else {
                    -1
                },
                trigger: Trigger {
                    move_bps,
                    window_ms: self.window_ms,
                    yes_price: yes,
                    target_move_c,
                },
                hold_ms: self.hold_ms,
                ttl_ms: self.ttl_ms,
            },
        );
        out
    }
}

/// Several rules, which look at every event in turn.
pub struct RuleEngine<R> {
    rules: Vec<R>,
}

/// Whether the signals are those of the first `n` rules, in the order of the rules, and the
/// rules have become what each becomes on the event.
pub open spec fn told_by<R: Rule>(
    out: Seq<TradeSignal>,
    before: Seq<R>,
    after: Seq<R>,
    ev: Event,
    m: MarketStateV,
    n: int,
) -> bool
    decreases n,
{
    if n <= 0 {
        out.len() == 0
    } else {
        exists|k: int|
            #![trigger out.skip(k)]
            0 <= k <= out.len() && R::answers(before[n - 1], ev, m, out.skip(k), after[n - 1])
                && told_by(out.take(k), before, after, ev, m, n - 1)
    }
}

proof fn lemma_told_by_a_prefix<R: Rule>(
    out: Seq<TradeSignal>,
    before: Seq<R>,
    a: Seq<R>,
    b: Seq<R>,
    ev: Event,
    m: MarketStateV,
    n: int,
)
    requires
        forall|i: int| 0 <= i < n ==> a[i] == b[i],
        told_by(out, before, a, ev, m, n),
    ensures
        told_by(out, before, b, ev, m, n),
    decreases n,
{
    if n > 0 {
        let k = choose|k: int|
            #![trigger out.skip(k)]
            0 <= k <= out.len() && R::answers(before[n - 1], ev, m, out.skip(k), a[n - 1])
                && told_by(out.take(k), before, a, ev, m, n - 1);
        lemma_told_by_a_prefix(out.take(k), before, a, b, ev, m, n - 1);
        assert(a[n - 1] == b[n - 1]);
        assert(R::answers(before[n - 1], ev, m, out.skip(k), b[n - 1]));
    }
}

impl<R: Rule> RuleEngine<R> {
    /// The rules.
    pub closed spec fn rules(&self) -> Seq<R> {
        self.rules@
    }

    /// An engine of these rules.
    pub fn new(rules: Vec<R>) -> (r: RuleEngine<R>)
        ensures
            r.rules() == rules@,
    {
        RuleEngine { rules }
    }

    /// Shows an event to every rule; gives what they fire, in their order.
    pub fn on_event(&mut self, ev: &Event, state: &MarketState) -> (out: Vec<TradeSignal>)
        ensures
            final(self).rules().len() == old(self).rules().len(),
            told_by(
                out@,
                old(self).rules(),
                final(self).rules(),
                *ev,
                state@,
                old(self).rules().len() as int,
            ),
    {
        let ghost all = self.rules@;
        let n: usize = self.rules.len();
        let mut out: Vec<TradeSignal> = Vec::new();
        let mut queue: Vec<R> = Vec::new();
        std::mem::swap(&mut queue, &mut self.rules);
        let mut done: Vec<R> = Vec::new();
        let mut i: usize = 0;
        assert(queue@ =~= all.skip(0));
        while i < n
            invariant
                n == all.len(),
                i <= n,
                queue@ == all.skip(i as int),
                done@.len() == i,
                told_by(out@, all, done@, *ev, state@, i as int),
            decreases n - i,
        {
            let mut r = queue.remove(0);
            assert(r == all[i as int]);
            assert(queue@ =~= all.skip(i + 1));
            let ghost o0 = out@;
            let ghost d0 = done@;
            let mut s = r.on_event(ev, state);
            let ghost fired = s@;
            out.append(&mut s);
            done.push(r);
            proof {
                let k = o0.len() as int;
                lemma_told_by_a_prefix(o0, all, d0, done@, *ev, state@, i as int);
                assert(out@.take(k) =~= o0);
                assert(out@.skip(k) =~= fired);
                assert(R::answers(all[i as int], *ev, state@, out@.skip(k), done@[i as int]));
            }
            i = i + 1;
        }
        self.rules = done;
        out
    }
}

/// Two signals of one rule are at least the cooldown apart.
pub proof fn law_signals_are_apart(r: PerpMoveRule, last: i64, ev: Event, m: MarketStateV)
    requires
        fires(r, Some(last), ev, m) is Some,
    ensures
        ev.ts_ns - last >= r.cooldown_ms * 1_000_000,
{
}

/// Without a live market nothing fires.
pub proof fn law_no_market_no_signal(r: PerpMoveRule, last: Option<i64>, ev: Event, m: MarketStateV)
    requires
        state::target_in(m, r.reference@) is None,
    ensures
        fires(r, last, ev, m) is None,
{
}

/// While the rule does not rest and the market may be traded, a book of the reference fires
/// exactly where the reference moved by the threshold or more, up as well as down; the signal
/// follows the move.
pub proof fn law_moves_of_either_way_fire(
    r: PerpMoveRule,
    ev: Event,
    b: crate::model::BookUpdate,
    m: MarketStateV,
    s: InstrumentV,
    t: InstrumentV,
    mv: i64,
    out: Seq<TradeSignal>,
    after: PerpMoveRule,
)
    requires
        ev.payload == Payload::Book(b),
        b.instrument@ == r.reference@,
        r.last_signal_ns matches Some(last) ==> ev.ts_ns - last >= r.cooldown_ms * 1_000_000,
        m.instruments.contains_key(r.reference@) && m.instruments[r.reference@] == s,
        m.links.contains_key(r.reference@) && m.links[r.reference@] == t.instrument,
        m.instruments.contains_key(t.instrument) && m.instruments[t.instrument] == t,
        window::relative_move(s.ring.samples, ev.ts_ns, r.window_ms) == Some(mv),
        t.mid matches Some(mid) && 2 * r.yes_bucket.0 <= mid && mid <= 2 * r.yes_bucket.1,
        r.min_tte_ms >= 0,
        t.expiry_ts_ns matches Some(e) && e - ev.ts_ns <= i64::MAX && e - ev.ts_ns >= r.min_tte_ms
            * 1_000_000,
        r.threshold_bps > 0,
        PerpMoveRule::answers(r, ev, m, out, after),
    ensures
        mv >= r.threshold_bps || mv <= -r.threshold_bps ==> out.len() == 1
            && after.last_signal_ns == Some(ev.ts_ns),
        -r.threshold_bps < mv < r.threshold_bps ==> out.len() == 0 && after.last_signal_ns
            == r.last_signal_ns,
        mv >= r.threshold_bps ==> out[0].direction == 1,
        mv <= -r.threshold_bps ==> out[0].direction == -1,
        out.len() > 0 ==> {
            &&& out[0].target@ == t.instrument
            &&& out[0].trigger.move_bps == mv
            &&& out[0].trigger.yes_price == t.mid->0
            &&& out[0].ts_ns == ev.ts_ns
            &&& out[0].hold_ms == r.hold_ms && out[0].ttl_ms == r.ttl_ms
        },
{
    window::law_moves_have_the_sign_of_the_change(s.ring.samples, ev.ts_ns, r.window_ms);
}

/// Nothing fires while the rule rests, on a book of another instrument or on anything but a
/// book, while the market's mid is out of its range, or with too little time left.
pub proof fn law_what_keeps_a_rule_from_firing(
    r: PerpMoveRule,
    ev: Event,
    m: MarketStateV,
    t: InstrumentV,
    out: Seq<TradeSignal>,
    after: PerpMoveRule,
)
    requires
        state::target_in(m, r.reference@) == Some(t),
        state::known_in(m, t.instrument) == Some(t),
        PerpMoveRule::answers(r, ev, m, out, after),
        out.len() > 0,
    ensures
        ev.payload matches Payload::Book(b) && b.instrument@ == r.reference@,
        r.last_signal_ns matches Some(last) ==> ev.ts_ns - last >= r.cooldown_ms * 1_000_000,
        t.mid matches Some(mid) && 2 * r.yes_bucket.0 <= mid <= 2 * r.yes_bucket.1,
        t.expiry_ts_ns is Some,
        i64::MIN <= t.expiry_ts_ns->0 - ev.ts_ns <= i64::MAX && r.min_tte_ms > 0
            ==> t.expiry_ts_ns->0 - ev.ts_ns >= r.min_tte_ms * 1_000_000,
{
}

/// A rule keeps its settings, whatever it is shown.
pub proof fn law_rules_keep_their_settings(
    r: PerpMoveRule,
    ev: Event,
    m: MarketStateV,
    out: Seq<TradeSignal>,
    after: PerpMoveRule,
)
    requires
        PerpMoveRule::answers(r, ev, m, out, after),
    ensures
        after.strategy == r.strategy && after.reference == r.reference,
        after.window_ms == r.window_ms && after.threshold_bps == r.threshold_bps,
        after.yes_bucket == r.yes_bucket && after.cooldown_ms == r.cooldown_ms,
        after.min_tte_ms == r.min_tte_ms && after.hold_ms == r.hold_ms && after.ttl_ms == r.ttl_ms,
        out.len() <= 1,
{
}

} // verus!
