//! Topic matching, conflation and dispatch.
use vstd::prelude::*;
use std::collections::hash_map::DefaultHasher;
use std::collections::{HashMap, VecDeque};
use std::hash::Hasher;
use vstd::std_specs::hash::DefaultHasherAdditionalSpecFns;
use crate::event::{Event, Payload};
use crate::strmap::StrMap;
use crate::text;
use crate::text::{same, split};

verus! {

/// Whether a dotted pattern matches a topic, both cut into segments: `*` stands for
/// exactly one segment, `#` for any number of them.
pub open spec fn topic_matches(pat: Seq<Seq<char>>, top: Seq<Seq<char>>) -> bool
    decreases pat.len(),
{
    if pat.len() == 0 {
        top.len() == 0
    } else if pat[0] == "#"@ {
        exists|i: int| 0 <= i <= top.len() && topic_matches(pat.skip(1), #[trigger] top.skip(i))
    } else {
        top.len() > 0 && (pat[0] == "*"@ || pat[0] == top[0]) && topic_matches(
            pat.skip(1),
            top.skip(1),
        )
    }
}

/// Matches a parsed dotted pattern against topic segments.
pub fn seg_match(pat: &Vec<String>, top: &Vec<String>) -> (r: bool)
    ensures
        r == topic_matches(text::views(pat@), text::views(top@)),
{
    proof {
        assert(text::views(pat@).skip(0) =~= text::views(pat@));
        assert(text::views(top@).skip(0) =~= text::views(top@));
    }
    match_from(pat, 0, top, 0)
}

fn match_from(pat: &Vec<String>, i: usize, top: &Vec<String>, j: usize) -> (r: bool)
    requires
        i <= pat@.len(),
        j <= top@.len(),
    ensures
        r == topic_matches(text::views(pat@).skip(i as int), text::views(top@).skip(j as int)),
    decreases pat@.len() - i,
{
    let ghost p = text::views(pat@).skip(i as int);
    let ghost t = text::views(top@).skip(j as int);
    if i == pat.len() {
        return j == top.len();
    }
    assert(p[0] == pat@[i as int]@);
    assert(p.skip(1) =~= text::views(pat@).skip(i + 1));
    if same(pat[i].as_str(), "#") {
        let mut k: usize = j;
        loop
            invariant
                i < pat.len(),
                j <= k <= top@.len(),
                p == text::views(pat@).skip(i as int),
                t == text::views(top@).skip(j as int),
                p[0] == "#"@,
                p.skip(1) == text::views(pat@).skip(i + 1),
                forall|m: int| 0 <= m < k - j ==> !topic_matches(p.skip(1), #[trigger] t.skip(m)),
            decreases top@.len() - k,
        {
            assert(t.skip(k - j) =~= text::views(top@).skip(k as int));
            if match_from(pat, i + 1, top, k) {
                assert(topic_matches(p.skip(1), t.skip(k - j)));
                return true;
            }
            if k == top.len() {
                return false;
            }
            k = k + 1;
        }
    }
    if j == top.len() {
        return false;
    }
    assert(t[0] == top@[j as int]@);
    assert(t.skip(1) =~= text::views(top@).skip(j + 1));
    (same(pat[i].as_str(), "*") || same(pat[i].as_str(), top[j].as_str())) && match_from(
        pat,
        i + 1,
        top,
        j + 1,
    )
}

/// A pattern without wildcards matches itself and nothing else.
pub proof fn law_exact_pattern(pat: Seq<Seq<char>>, top: Seq<Seq<char>>)
    requires
        forall|i: int| 0 <= i < pat.len() ==> #[trigger] pat[i] != "#"@ && pat[i] != "*"@,
    ensures
        topic_matches(pat, top) == (pat == top),
    decreases pat.len(),
{
    if pat.len() == 0 {
        assert(top.len() == 0 ==> pat =~= top);
    } else if top.len() > 0 {
        let p = pat.skip(1);
        assert forall|i: int| 0 <= i < p.len() implies #[trigger] p[i] != "#"@ && p[i] != "*"@ by {
            assert(p[i] == pat[i + 1]);
        }
        law_exact_pattern(p, top.skip(1));
        if pat[0] == top[0] && pat.skip(1) == top.skip(1) {
            assert(pat =~= seq![pat[0]] + pat.skip(1));
            assert(top =~= seq![top[0]] + top.skip(1));
        }
        if pat == top {
            assert(pat.skip(1) =~= top.skip(1));
        }
    }
}

/// A pattern `a.b.#` matches exactly the topics that begin with `a.b`, that topic itself
/// among them.
pub proof fn law_trailing_hash(stem: Seq<Seq<char>>, top: Seq<Seq<char>>)
    requires
        forall|i: int| 0 <= i < stem.len() ==> #[trigger] stem[i] != "#"@ && stem[i] != "*"@,
    ensures
        topic_matches(stem.push("#"@), top) == (stem.len() <= top.len() && top.take(
            stem.len() as int,
        ) == stem),
    decreases stem.len(),
{
    let pat = stem.push("#"@);
    if stem.len() == 0 {
        assert(pat.skip(1) =~= Seq::<Seq<char>>::empty());
        assert(top.skip(top.len() as int).len() == 0);
        assert(topic_matches(pat.skip(1), top.skip(top.len() as int)));
        assert(top.take(0) =~= stem);
    } else if top.len() > 0 {
        let s = stem.skip(1);
        assert forall|i: int| 0 <= i < s.len() implies #[trigger] s[i] != "#"@ && s[i] != "*"@ by {
            assert(s[i] == stem[i + 1]);
        }
        law_trailing_hash(s, top.skip(1));
        assert(pat.skip(1) =~= s.push("#"@));
        assert(pat[0] == stem[0]);
        let n = stem.len() as int;
        if n <= top.len() {
            if stem[0] == top[0] && top.skip(1).take(n - 1) == s {
                assert(top.take(n) =~= seq![top[0]] + top.skip(1).take(n - 1));
                assert(stem =~= seq![stem[0]] + s);
            }
            if top.take(n) == stem {
                assert(top.skip(1).take(n - 1) =~= s);
                assert(top.take(n)[0] == top[0]);
            }
        }
    }
}

/// What is pending on a conflating channel: at most one value per key, in the order in
/// which the keys were first pushed.
pub struct Conflate<T> {
    map: HashMap<u64, T>,
    order: VecDeque<u64>,
}

/// No key occurs twice.
pub open spec fn unique(s: Seq<u64>) -> bool {
    forall|i: int, j: int| #![trigger s[i], s[j]] 0 <= i < j < s.len() ==> s[i] != s[j]
}

/// What is pending after one push: the key is last where nothing is pending under it, else
/// it keeps its place, and the value is its newest.
pub open spec fn put<T>(keys: Seq<u64>, newest: Map<u64, T>, key: u64, v: T) -> (
    Seq<u64>,
    Map<u64, T>,
) {
    (
        if newest.contains_key(key) {
            keys
        } else {
            keys.push(key)
        },
        newest.insert(key, v),
    )
}

impl<T> Conflate<T> {
    /// Every queued key has a value, and every value a queued key.
    pub closed spec fn wf(&self) -> bool {
        &&& unique(self.order@)
        &&& forall|k: u64| #[trigger] self.map@.contains_key(k) <==> self.order@.contains(k)
    }

    /// The keys in the order in which they come out.
    pub closed spec fn keys(&self) -> Seq<u64> {
        self.order@
    }

    /// The newest value of each key.
    pub closed spec fn newest(&self) -> Map<u64, T> {
        self.map@
    }

    /// The empty channel.
    pub fn new() -> (r: Conflate<T>)
        ensures
            r.wf(),
            r.keys() == Seq::<u64>::empty(),
            r.newest() == Map::<u64, T>::empty(),
    {
        broadcast use vstd::std_specs::hash::group_hash_axioms;

        Conflate { map: HashMap::new(), order: VecDeque::new() }
    }

    /// Puts `v` at `key`: in place of the pending value where there is one, else last.
    pub fn push(&mut self, key: u64, v: T)
        requires
            old(self).wf(),
        ensures
            final(self).wf(),
            (final(self).keys(), final(self).newest()) == put(
                old(self).keys(),
                old(self).newest(),
                key,
                v,
            ),
    {
        broadcast use vstd::std_specs::hash::group_hash_axioms;

        let ghost before = self.order@;
        if !self.map.contains_key(&key) {
            self.order.push_back(key);
            proof {
                assert(self.order@ =~= before.push(key));
                assert forall|k: u64| self.order@.contains(k) <==> before.contains(k) || k
                    == key by {
                    if before.contains(k) {
                        let i = choose|i: int| 0 <= i < before.len() && before[i] == k;
                        assert(self.order@[i] == k);
                    }
                    if k == key {
                        assert(self.order@[before.len() as int] == k);
                    }
                }
                assert forall|i: int, j: int|
                    #![trigger self.order@[i], self.order@[j]]
                    0 <= i < j < self.order@.len() implies self.order@[i] != self.order@[j] by {
                    if j == before.len() {
                        assert(before.contains(before[i]));
                    }
                }
            }
        }
        self.map.insert(key, v);
    }

    /// Takes the newest value of the key that was pushed first.
    pub fn try_pop(&mut self) -> (r: Option<T>)
        requires
            old(self).wf(),
        ensures
            final(self).wf(),
            match r {
                Some(v) => {
                    &&& old(self).keys().len() > 0
                    &&& v == old(self).newest()[old(self).keys()[0]]
                    &&& final(self).keys() == old(self).keys().skip(1)
                    &&& final(self).newest() == old(self).newest().remove(old(self).keys()[0])
                },
                None => old(self).keys().len() == 0 && final(self).keys() == old(self).keys()
                    && final(self).newest() == old(self).newest(),
            },
    {
        broadcast use vstd::std_specs::hash::group_hash_axioms;

        let ghost before = self.order@;
        match self.order.pop_front() {
            None => None,
            Some(k) => {
                proof {
                    assert(before.contains(before[0]));
                    assert(self.order@ =~= before.skip(1));
                    assert forall|x: u64| self.order@.contains(x) <==> before.contains(x) && x
                        != k by {
                        if self.order@.contains(x) {
                            let i = choose|i: int|
                                0 <= i < self.order@.len() && self.order@[i] == x;
                            assert(before[i + 1] == x);
                            assert(before[0] != before[i + 1]);
                        }
                        if before.contains(x) && x != k {
                            let i = choose|i: int| 0 <= i < before.len() && before[i] == x;
                            assert(self.order@[i - 1] == x);
                        }
                    }
                }
                self.map.remove(&k)
            },
        }
    }
}

/// What is pending after a run of pushes on an empty channel, each a key and a value: the
/// keys in their order, and the newest value of each.
pub open spec fn pushed<T>(run: Seq<(u64, T)>) -> (Seq<u64>, Map<u64, T>)
    decreases run.len(),
{
    if run.len() == 0 {
        (Seq::empty(), Map::empty())
    } else {
        let (keys, newest) = pushed(run.drop_last());
        put(keys, newest, run.last().0, run.last().1)
    }
}

/// What comes out of a channel, one value after the other, until it is empty.
pub open spec fn popped<T>(keys: Seq<u64>, newest: Map<u64, T>) -> Seq<T>
    decreases keys.len(),
{
    if keys.len() == 0 {
        Seq::empty()
    } else {
        seq![newest[keys[0]]] + popped(keys.skip(1), newest.remove(keys[0]))
    }
}

/// Where a key is pushed first in a run; the run's length where it is not.
pub open spec fn first_push<T>(run: Seq<(u64, T)>, k: u64) -> int
    decreases run.len(),
{
    if run.len() == 0 {
        0
    } else if first_push(run.drop_last(), k) < run.len() - 1 {
        first_push(run.drop_last(), k)
    } else if run.last().0 == k {
        run.len() - 1
    } else {
        run.len() as int
    }
}

/// The last value that is pushed under a key in a run.
pub open spec fn last_push<T>(run: Seq<(u64, T)>, k: u64) -> Option<T>
    decreases run.len(),
{
    if run.len() == 0 {
        None
    } else if run.last().0 == k {
        Some(run.last().1)
    } else {
        last_push(run.drop_last(), k)
    }
}

proof fn lemma_pushed<T>(run: Seq<(u64, T)>)
    ensures
        ({
            let (keys, newest) = pushed(run);
            &&& unique(keys)
            &&& forall|k: u64| #[trigger] keys.contains(k) <==> last_push(run, k) is Some
            &&& forall|k: u64| #[trigger]
                newest.contains_key(k) <==> last_push(run, k) is Some
            &&& forall|k: u64| #[trigger]
                newest.contains_key(k) ==> last_push(run, k) == Some(newest[k])
            &&& forall|i: int, j: int|
                #![trigger keys[i], keys[j]]
                0 <= i < j < keys.len() ==> first_push(run, keys[i]) < first_push(run, keys[j])
            &&& forall|k: u64|
                0 <= #[trigger] first_push(run, k) <= run.len() && (first_push(run, k) < run.len()
                    <==> last_push(run, k) is Some)
        }),
    decreases run.len(),
{
    if run.len() > 0 {
        let past = run.drop_last();
        lemma_pushed(past);
        let (keys0, newest0) = pushed(past);
        let (keys, newest) = pushed(run);
        let k0 = run.last().0;
        assert forall|k: u64| #[trigger] keys.contains(k) <==> last_push(run, k) is Some by {
            assert(keys0.contains(k) <==> last_push(past, k) is Some);
            assert(newest0.contains_key(k0) <==> last_push(past, k0) is Some);
            assert(keys0.contains(k0) <==> last_push(past, k0) is Some);
            if keys0.contains(k) {
                let i = choose|i: int| 0 <= i < keys0.len() && keys0[i] == k;
                assert(keys[i] == k);
            }
            if !newest0.contains_key(k0) {
                assert(keys[keys0.len() as int] == k0);
            }
            if keys.contains(k) {
                let i = choose|i: int| 0 <= i < keys.len() && keys[i] == k;
                if i < keys0.len() {
                    assert(keys0[i] == k);
                }
            }
        }
        assert forall|i: int, j: int|
            #![trigger keys[i], keys[j]]
            0 <= i < j < keys.len() implies first_push(run, keys[i]) < first_push(run, keys[j])
            && keys[i] != keys[j] by {
            assert(keys[i] == keys0[i]);
            assert(keys0.contains(keys0[i]));
            assert(first_push(past, keys0[i]) < past.len());
            assert(first_push(run, keys0[i]) == first_push(past, keys0[i]));
            if j < keys0.len() {
                assert(keys[j] == keys0[j]);
                assert(keys0.contains(keys0[j]));
                assert(first_push(past, keys0[j]) < past.len());
                assert(first_push(run, keys0[j]) == first_push(past, keys0[j]));
            } else {
                assert(!newest0.contains_key(k0));
                assert(keys[j] == k0);
                assert(first_push(past, k0) == past.len());
            }
        }
        assert forall|k: u64|
            0 <= #[trigger] first_push(run, k) <= run.len() && (first_push(run, k) < run.len()
                <==> last_push(run, k) is Some) by {
            assert(0 <= first_push(past, k) <= past.len());
        }
        assert forall|k: u64| #[trigger] newest.contains_key(k) <==> last_push(run, k) is Some by {
            assert(newest0.contains_key(k) <==> last_push(past, k) is Some);
        }
        assert forall|k: u64| #[trigger] newest.contains_key(k) implies last_push(run, k) == Some(
            newest[k],
        ) by {
            assert(k != k0 ==> newest0.contains_key(k));
        }
    }
}

proof fn lemma_popped<T>(keys: Seq<u64>, newest: Map<u64, T>)
    requires
        unique(keys),
    ensures
        popped(keys, newest) == keys.map_values(|k: u64| newest[k]),
    decreases keys.len(),
{
    let f = |k: u64| newest[k];
    if keys.len() > 0 {
        let rest = keys.skip(1);
        assert forall|i: int, j: int|
            #![trigger rest[i], rest[j]]
            0 <= i < j < rest.len() implies rest[i] != rest[j] by {
            assert(keys[i + 1] != keys[j + 1]);
        }
        let less = newest.remove(keys[0]);
        lemma_popped(rest, less);
        assert forall|i: int| 0 <= i < rest.len() implies #[trigger] less[rest[i]]
            == newest[rest[i]] by {
            assert(keys[0] != keys[i + 1]);
        }
        assert(popped(keys, newest) =~= keys.map_values(f));
    } else {
        assert(popped(keys, newest) =~= keys.map_values(f));
    }
}

/// Conflation over any run of pushes with no pop between, and the pops after it until
/// nothing is pending: each key that was pushed comes out once, in the order in which the
/// keys were first pushed, with the last value pushed under it.
pub proof fn law_conflation_keeps_the_last_of_each_key<T>(run: Seq<(u64, T)>)
    ensures
        ({
            let (keys, newest) = pushed(run);
            &&& popped(keys, newest) == keys.map_values(|k: u64| last_push(run, k)->0)
            &&& unique(keys)
            &&& forall|k: u64| #[trigger]
                keys.contains(k) <==> exists|i: int|
                    0 <= i < run.len() && (#[trigger] run[i]).0 == k
            &&& forall|i: int, j: int|
                #![trigger keys[i], keys[j]]
                0 <= i < j < keys.len() ==> first_push(run, keys[i]) < first_push(run, keys[j])
        }),
{
    let (keys, newest) = pushed(run);
    lemma_pushed(run);
    lemma_popped(keys, newest);
    assert forall|k: u64| #[trigger] keys.contains(k) <==> exists|i: int|
        0 <= i < run.len() && (#[trigger] run[i]).0 == k by {
        lemma_last_push(run, k);
    }
    assert forall|i: int| 0 <= i < keys.len() implies #[trigger] newest[keys[i]] == last_push(
        run,
        keys[i],
    )->0 by {
        assert(keys.contains(keys[i]));
        assert(newest.contains_key(keys[i]));
    }
    assert(keys.map_values(|k: u64| newest[k]) =~= keys.map_values(
        |k: u64| last_push(run, k)->0,
    ));
}

proof fn lemma_last_push<T>(run: Seq<(u64, T)>, k: u64)
    ensures
        last_push(run, k) is Some <==> exists|i: int|
            0 <= i < run.len() && (#[trigger] run[i]).0 == k,
    decreases run.len(),
{
    if run.len() > 0 {
        let past = run.drop_last();
        lemma_last_push(past, k);
        if exists|i: int| 0 <= i < past.len() && (#[trigger] past[i]).0 == k {
            let i = choose|i: int| 0 <= i < past.len() && (#[trigger] past[i]).0 == k;
            assert(run[i].0 == k);
        }
        if run.last().0 == k {
            assert(run[run.len() - 1].0 == k);
        }
        if exists|i: int| 0 <= i < run.len() && (#[trigger] run[i]).0 == k {
            let i = choose|i: int| 0 <= i < run.len() && (#[trigger] run[i]).0 == k;
            if i < past.len() {
                assert(past[i].0 == k);
            }
        }
    }
}

/// The kind of a payload, as a number, and the text that it is keyed by: its instrument,
/// or for a latency sample its name.
pub open spec fn key_parts(p: Payload) -> (u8, Seq<char>) {
    match p {
        Payload::Book(b) => (1, b.instrument@),
        Payload::Trade(t) => (2, t.instrument@),
        Payload::Liq(l) => (3, l.instrument@),
        Payload::Meta(m) => (4, m.instrument@),
        Payload::Signal(s) => (5, s.target@),
        Payload::Latency(l) => (6, l.name@),
        Payload::ExecReport(r) => (7, r.instrument@),
        Payload::TradeRecord(t) => (8, t.instrument@),
        Payload::Position(p) => (9, p.instrument@),
        Payload::Calib(c) => (10, c.instrument@),
    }
}

/// The kind of an event's payload and the text that it is keyed by.
pub fn parts_of(ev: &Event) -> (r: (u8, &String))
    ensures
        (r.0, r.1@) == key_parts(ev.payload),
{
    match &ev.payload {
        Payload::Book(b) => (1, &b.instrument),
        Payload::Trade(t) => (2, &t.instrument),
        Payload::Liq(l) => (3, &l.instrument),
        Payload::Meta(m) => (4, &m.instrument),
        Payload::Signal(s) => (5, &s.target),
        Payload::Latency(l) => (6, &l.name),
        Payload::ExecReport(r) => (7, &r.instrument),
        Payload::TradeRecord(t) => (8, &t.instrument),
        Payload::Position(p) => (9, &p.instrument),
        Payload::Calib(c) => (10, &c.instrument),
    }
}

/// The conflation key of a payload: the hash of its kind and of the text that it is keyed by.
pub open spec fn conflation_key(p: Payload) -> u64 {
    let (tag, t) = key_parts(p);
    DefaultHasher::spec_finish(seq![seq![tag], vstd::utf8::encode_utf8(t)])
}

/// The conflation key of an event, made of its payload's kind and instrument: the newest
/// book and the newest catalog entry of one instrument do not displace each other.
pub fn key_by_instrument(ev: &Event) -> (k: u64)
    ensures
        k == conflation_key(ev.payload),
{
    let (tag, inst) = parts_of(ev);
    let mut kind: Vec<u8> = Vec::new();
    kind.push(tag);
    let mut h = DefaultHasher::new();
    h.write(kind.as_slice());
    h.write(inst.as_str().as_bytes());
    assert(h@ =~= seq![seq![tag], vstd::utf8::encode_utf8(inst@)]);
    h.finish()
}

/// Two payloads have the same parts only if they are of one kind.
pub proof fn law_kinds_keep_apart(a: Payload, b: Payload)
    requires
        key_parts(a) == key_parts(b),
    ensures
        a is Book == b is Book,
        a is Trade == b is Trade,
        a is Liq == b is Liq,
        a is Meta == b is Meta,
        a is Signal == b is Signal,
        a is Latency == b is Latency,
        a is ExecReport == b is ExecReport,
        a is TradeRecord == b is TradeRecord,
        a is Position == b is Position,
        a is Calib == b is Calib,
{
}

/// The subscription table: an id and a pattern, cut into segments, for each subscriber.
pub struct Router {
    subs: Vec<(u64, Vec<String>)>,
    next_id: u64,
}

/// One subscriber, as the contracts see it.
pub struct SubView {
    pub id: u64,
    pub pat: Seq<Seq<char>>,
}

/// The ids of those subscribers that are alive and whose pattern matches.
pub open spec fn receivers(subs: Seq<SubView>, alive: Set<u64>, top: Seq<Seq<char>>) -> Seq<u64>
    decreases subs.len(),
{
    if subs.len() == 0 {
        Seq::empty()
    } else {
        let rest = receivers(subs.drop_last(), alive, top);
        let s = subs.last();
        if alive.contains(s.id) && topic_matches(s.pat, top) {
            rest.push(s.id)
        } else {
            rest
        }
    }
}

/// The subscribers that are alive, in their order.
pub open spec fn live_only(subs: Seq<SubView>, alive: Set<u64>) -> Seq<SubView>
    decreases subs.len(),
{
    if subs.len() == 0 {
        Seq::empty()
    } else if alive.contains(subs.last().id) {
        live_only(subs.drop_last(), alive).push(subs.last())
    } else {
        live_only(subs.drop_last(), alive)
    }
}

/// To let the dead go changes nothing for the living: a message goes to the same subscribers
/// as before.
pub proof fn law_the_dead_are_not_missed(subs: Seq<SubView>, alive: Set<u64>, top: Seq<Seq<char>>)
    ensures
        receivers(live_only(subs, alive), alive, top) == receivers(subs, alive, top),
        forall|i: int|
            0 <= i < live_only(subs, alive).len() ==> alive.contains(
                (#[trigger] live_only(subs, alive)[i]).id,
            ),
    decreases subs.len(),
{
    if subs.len() > 0 {
        let past = subs.drop_last();
        law_the_dead_are_not_missed(past, alive, top);
        if alive.contains(subs.last().id) {
            assert(live_only(subs, alive).drop_last() =~= live_only(past, alive));
        }
    }
}

impl Router {
    /// The subscribers, oldest first.
    pub closed spec fn view(&self) -> Seq<SubView> {
        Seq::new(
            self.subs@.len(),
            |i: int| SubView { id: self.subs@[i].0, pat: text::views(self.subs@[i].1@) },
        )
    }

    /// The id that the next subscriber gets.
    pub closed spec fn next(&self) -> u64 {
        self.next_id
    }

    /// The empty table.
    pub fn new() -> (r: Router)
        ensures
            r@ == Seq::<SubView>::empty(),
            r.next() == 0,
    {
        let r = Router { subs: Vec::new(), next_id: 0 };
        assert(r@ =~= Seq::<SubView>::empty());
        r
    }

    /// Adds a subscriber to the topics that `pattern` matches; `None` once the ids are
    /// used up.
    pub fn subscribe(&mut self, pattern: &str) -> (r: Option<u64>)
        ensures
            match r {
                Some(id) => id == old(self).next() && final(self).next() == id + 1
                    && final(self)@ == old(self)@.push(
                    (SubView { id, pat: text::split_on(pattern@, '.') }),
                ),
                None => old(self).next() == u64::MAX && *final(self) == *old(self),
            },
    {
        if self.next_id == u64::MAX {
            return None;
        }
        let id: u64 = self.next_id;
        let pat = split(pattern, '.');
        let ghost before = self@;
        self.subs.push((id, pat));
        self.next_id = id + 1;
        assert(self@ =~= before.push(SubView { id, pat: text::split_on(pattern@, '.') }));
        Some(id)
    }

    /// Lets go of the subscribers that are not alive.
    pub fn retain_live(&mut self, alive: &Vec<u64>)
        ensures
            final(self)@ == live_only(old(self)@, alive@.to_set()),
            final(self).next() == old(self).next(),
    {
        let ghost v0 = self@;
        let ghost a = alive@.to_set();
        let ghost mut seen: int = 0;
        let mut i: usize = 0;
        proof {
            assert(v0.take(0) =~= Seq::<SubView>::empty());
            assert(self@.take(0) =~= Seq::<SubView>::empty());
            assert(self@.skip(0) =~= v0.skip(0));
        }
        while i < self.subs.len()
            invariant
                i <= self.subs@.len(),
                i <= seen <= v0.len(),
                a == alive@.to_set(),
                self.next_id == old(self).next_id,
                self@.take(i as int) == live_only(v0.take(seen), a),
                self@.skip(i as int) == v0.skip(seen),
            decreases self.subs@.len() - i,
        {
            let ghost v = self@;
            let ghost old_subs = self.subs@;
            proof {
                assert(v.skip(i as int)[0] == v[i as int]);
                assert(v0.skip(seen).len() == v.len() - i);
                assert(v0.skip(seen)[0] == v0[seen]);
                assert(v0.take(seen + 1).drop_last() =~= v0.take(seen));
                assert(v0.take(seen + 1).last() == v0[seen]);
                assert(v0.skip(seen + 1) =~= v0.skip(seen).skip(1));
            }
            let id: u64 = self.subs[i].0;
            if holds(alive, id) {
                assert(v.take(i + 1) =~= v.take(i as int).push(v[i as int]));
                assert(v.skip(i + 1) =~= v.skip(i as int).skip(1));
                i = i + 1;
            } else {
                let _ = self.subs.remove(i);
                assert(self.subs@ =~= old_subs.remove(i as int));
                assert(self@.take(i as int) =~= v.take(i as int));
                assert(self@.skip(i as int) =~= v.skip(i as int).skip(1));
            }
            proof {
                seen = seen + 1;
            }
        }
        proof {
            assert(self@.skip(i as int).len() == 0);
            assert(v0.take(seen) =~= v0);
            assert(self@.take(i as int) =~= self@);
        }
    }

    /// The subscribers that a message on `topic` goes to, given which are still alive; the
    /// others are let go.
    pub fn publish(&mut self, topic: &str, alive: &Vec<u64>) -> (r: Vec<u64>)
        ensures
            r@ == receivers(old(self)@, alive@.to_set(), text::split_on(topic@, '.')),
            final(self)@ == live_only(old(self)@, alive@.to_set()),
            final(self).next() == old(self).next(),
    {
        let top = split(topic, '.');
        let ghost t = text::views(top@);
        let mut out: Vec<u64> = Vec::new();
        let mut i: usize = 0;
        proof {
            assert(self@.take(0) =~= Seq::<SubView>::empty());
        }
        while i < self.subs.len()
            invariant
                *self == *old(self),
                i <= self.subs@.len(),
                t == text::views(top@),
                out@ == receivers(self@.take(i as int), alive@.to_set(), t),
            decreases self.subs@.len() - i,
        {
            let ghost v = self@;
            assert(v.take(i + 1).drop_last() =~= v.take(i as int));
            assert(v.take(i + 1).last() == v[i as int]);
            let id: u64 = self.subs[i].0;
            if holds(alive, id) && seg_match(&self.subs[i].1, &top) {
                out.push(id);
            }
            i = i + 1;
        }
        assert(self@.take(self.subs@.len() as int) =~= self@);
        self.retain_live(alive);
        out
    }
}

fn holds(v: &Vec<u64>, x: u64) -> (r: bool)
    ensures
        r == v@.to_set().contains(x),
{
    let mut i: usize = 0;
    while i < v.len()
        invariant
            i <= v@.len(),
            forall|j: int| 0 <= j < i ==> v@[j] != x,
        decreases v@.len() - i,
    {
        if v[i] == x {
            assert(v@.contains(x));
            return true;
        }
        i = i + 1;
    }
    assert(!v@.contains(x));
    false
}

/// The claimed ports and their owners.
pub struct Ports {
    owners: StrMap<u64>,
}

impl Ports {
    /// Port names and the owner of each.
    pub closed spec fn view(&self) -> Map<Seq<char>, u64> {
        self.owners@
    }

    /// No port claimed.
    pub fn new() -> (r: Ports)
        ensures
            r@ == Map::<Seq<char>, u64>::empty(),
    {
        Ports { owners: StrMap::new() }
    }

    /// Claims a port for `owner`; `false`, with nothing changed, where it is taken.
    pub fn claim_port(&mut self, port: &str, owner: u64) -> (r: bool)
        ensures
            r == !old(self)@.contains_key(port@),
            final(self)@ == if r {
                old(self)@.insert(port@, owner)
            } else {
                old(self)@
            },
    {
        if self.owners.contains(port) {
            return false;
        }
        self.owners.insert(port.to_string(), owner);
        true
    }

    /// The owner that a message to `port` goes to.
    pub fn owner_of(&self, port: &str) -> (r: Option<u64>)
        ensures
            r == if self@.contains_key(port@) {
                Some(self@[port@])
            } else {
                None
            },
    {
        match self.owners.get(port) {
            Some(o) => Some(*o),
            None => None,
        }
    }
}

/// A `*` stands for exactly one segment, whichever it is; a `#` alone matches every topic.
pub proof fn law_wildcards(pat: Seq<Seq<char>>, top: Seq<Seq<char>>, x: Seq<char>)
    ensures
        topic_matches(seq!["*"@] + pat, seq![x] + top) == topic_matches(pat, top),
        !topic_matches(seq!["*"@] + pat, Seq::empty()),
        topic_matches(seq!["#"@], top),
        topic_matches(pat, top) ==> topic_matches(seq!["#"@] + pat, top),
{
    reveal_strlit("*");
    reveal_strlit("#");
    assert("*"@[0] != "#"@[0]);
    let star = seq!["*"@] + pat;
    assert(star.skip(1) =~= pat);
    assert((seq![x] + top).skip(1) =~= top);
    let hash = seq!["#"@] + pat;
    assert(hash.skip(1) =~= pat);
    assert(top.skip(0) =~= top);
    let one = seq!["#"@];
    assert(one.skip(1) =~= Seq::empty());
    assert(top.skip(top.len() as int) =~= Seq::empty());
    assert(topic_matches(one.skip(1), top.skip(top.len() as int)));
    if topic_matches(pat, top) {
        assert(topic_matches(hash.skip(1), top.skip(0)));
    }
}

/// A message goes to a subscriber exactly where it is alive and its pattern matches; the
/// others get what they got before.
pub proof fn law_messages_go_to_who_asked(
    subs: Seq<SubView>,
    s: SubView,
    alive: Set<u64>,
    top: Seq<Seq<char>>,
)
    ensures
        alive.contains(s.id) && topic_matches(s.pat, top) ==> receivers(subs.push(s), alive, top)
            == receivers(subs, alive, top).push(s.id),
        !(alive.contains(s.id) && topic_matches(s.pat, top)) ==> receivers(
            subs.push(s),
            alive,
            top,
        ) == receivers(subs, alive, top),
{
    assert(subs.push(s).drop_last() =~= subs);
}

} // verus!
