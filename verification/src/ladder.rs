//! One side of an order book: sizes by price, kept in ascending order.
use vstd::prelude::*;

verus! {

/// Whether `s` lists `m` in strictly ascending order of its keys.
pub open spec fn lists(s: Seq<(i64, i64)>, m: Map<i64, i64>) -> bool {
    &&& ascending(s)
    &&& forall|i: int|
        0 <= i < s.len() ==> m.contains_key((#[trigger] s[i]).0) && m[s[i].0] == s[i].1
    &&& forall|k: i64| #[trigger]
        m.contains_key(k) ==> exists|i: int| 0 <= i < s.len() && (#[trigger] s[i]).0 == k
}

/// Whether the keys of `s` ascend strictly.
pub open spec fn ascending(s: Seq<(i64, i64)>) -> bool {
    forall|i: int, j: int| 0 <= i < j < s.len() ==> (#[trigger] s[i]).0 < (#[trigger] s[j]).0
}

/// What a run of levels with these keys holds.
pub open spec fn map_of(s: Seq<(i64, i64)>) -> Map<i64, i64> {
    Map::new(
        |k: i64| exists|i: int| 0 <= i < s.len() && (#[trigger] s[i]).0 == k,
        |k: i64| s[choose|i: int| 0 <= i < s.len() && (#[trigger] s[i]).0 == k].1,
    )
}

/// An ascending run lists what it holds.
pub proof fn lemma_lists(s: Seq<(i64, i64)>)
    requires
        ascending(s),
    ensures
        lists(s, map_of(s)),
{
    assert forall|i: int| 0 <= i < s.len() implies map_of(s).contains_key((#[trigger] s[i]).0)
        && map_of(s)[s[i].0] == s[i].1 by {
        let k = s[i].0;
        let j = choose|j: int| 0 <= j < s.len() && (#[trigger] s[j]).0 == k;
        if i < j {
            assert(s[i].0 < s[j].0);
        } else if j < i {
            assert(s[j].0 < s[i].0);
        }
    }
}

/// A side of a book has one listing only.
pub proof fn law_listing_is_unique(s: Seq<(i64, i64)>, t: Seq<(i64, i64)>, m: Map<i64, i64>)
    requires
        lists(s, m),
        lists(t, m),
    ensures
        s == t,
    decreases s.len(),
{
    if s.len() == 0 {
        if t.len() > 0 {
            assert(m.contains_key(t[0].0));
        }
        assert(s =~= t);
    } else {
        let k = s.last().0;
        assert(m.contains_key(k)) by {
            assert(s[s.len() - 1].0 == k);
        }
        let j = choose|j: int| 0 <= j < t.len() && (#[trigger] t[j]).0 == k;
        if j < t.len() - 1 {
            let k2 = t[t.len() - 1].0;
            assert(t[j].0 < k2);
            assert(m.contains_key(k2));
            let i = choose|i: int| 0 <= i < s.len() && (#[trigger] s[i]).0 == k2;
            if i < s.len() - 1 {
                assert(s[i].0 < s[s.len() - 1].0);
            }
        }
        assert(t.last() == s.last());
        let m1 = m.remove(k);
        let s1 = s.drop_last();
        let t1 = t.drop_last();
        assert(lists(s1, m1)) by {
            lemma_drop_last(s, m);
        }
        assert(lists(t1, m1)) by {
            lemma_drop_last(t, m);
        }
        law_listing_is_unique(s1, t1, m1);
        assert(s =~= s1.push(s.last()));
        assert(t =~= t1.push(t.last()));
    }
}

proof fn lemma_drop_last(s: Seq<(i64, i64)>, m: Map<i64, i64>)
    requires
        lists(s, m),
        s.len() > 0,
    ensures
        lists(s.drop_last(), m.remove(s.last().0)),
{
    let s1 = s.drop_last();
    let k = s.last().0;
    let m1 = m.remove(k);
    assert(ascending(s1)) by {
        assert forall|i: int, j: int| 0 <= i < j < s1.len() implies (#[trigger] s1[i]).0 < (
        #[trigger] s1[j]).0 by {
            assert(s[i].0 < s[j].0);
        }
    }
    assert forall|i: int| 0 <= i < s1.len() implies m1.contains_key((#[trigger] s1[i]).0)
        && m1[s1[i].0] == s1[i].1 by {
        assert(s[i].0 < s[s.len() - 1].0);
    }
    assert forall|q: i64| #[trigger] m1.contains_key(q) implies exists|i: int|
        0 <= i < s1.len() && (#[trigger] s1[i]).0 == q by {
        assert(m.contains_key(q));
        let i = choose|i: int| 0 <= i < s.len() && (#[trigger] s[i]).0 == q;
        assert(i < s.len() - 1);
        assert(s1[i].0 == q);
    }
}

/// A listing determines what it lists.
proof fn lemma_map_of(s: Seq<(i64, i64)>, m: Map<i64, i64>)
    requires
        lists(s, m),
    ensures
        map_of(s) == m,
{
    lemma_lists(s);
    assert forall|k: i64| #[trigger] map_of(s).contains_key(k) implies m.contains_key(k) && m[k]
        == map_of(s)[k] by {
        let i = choose|i: int| 0 <= i < s.len() && (#[trigger] s[i]).0 == k;
        assert(map_of(s)[s[i].0] == s[i].1);
    }
    assert(map_of(s) =~= m);
}

/// A size is replaced.
proof fn lemma_replace(s: Seq<(i64, i64)>, i: int, v: i64)
    requires
        ascending(s),
        0 <= i < s.len(),
    ensures
        ascending(s.update(i, (s[i].0, v))),
        map_of(s.update(i, (s[i].0, v))) == map_of(s).insert(s[i].0, v),
{
    let k = s[i].0;
    let t = s.update(i, (k, v));
    let m = map_of(s).insert(k, v);
    lemma_lists(s);
    assert forall|a: int, b: int| 0 <= a < b < t.len() implies (#[trigger] t[a]).0 < (
    #[trigger] t[b]).0 by {
        assert(s[a].0 < s[b].0);
    }
    assert forall|a: int| 0 <= a < t.len() implies m.contains_key((#[trigger] t[a]).0)
        && m[t[a].0] == t[a].1 by {
        assert(map_of(s).contains_key(s[a].0));
        if a < i {
            assert(s[a].0 < s[i].0);
        } else if a > i {
            assert(s[i].0 < s[a].0);
        }
    }
    assert forall|q: i64| #[trigger] m.contains_key(q) implies exists|a: int|
        0 <= a < t.len() && (#[trigger] t[a]).0 == q by {
        if q == k {
            assert(t[i].0 == q);
        } else {
            assert(map_of(s).contains_key(q));
            let a = choose|a: int| 0 <= a < s.len() && (#[trigger] s[a]).0 == q;
            assert(t[a].0 == q);
        }
    }
    lemma_map_of(t, m);
}

/// A price is put in between.
proof fn lemma_insert(s: Seq<(i64, i64)>, i: int, k: i64, v: i64)
    requires
        ascending(s),
        0 <= i <= s.len(),
        forall|j: int| 0 <= j < i ==> (#[trigger] s[j]).0 < k,
        forall|j: int| i <= j < s.len() ==> (#[trigger] s[j]).0 > k,
    ensures
        ascending(s.insert(i, (k, v))),
        map_of(s.insert(i, (k, v))) == map_of(s).insert(k, v),
{
    let t = s.insert(i, (k, v));
    let m = map_of(s).insert(k, v);
    lemma_lists(s);
    assert forall|a: int| 0 <= a < i implies #[trigger] t[a] == s[a] by {}
    assert forall|a: int| i < a < t.len() implies #[trigger] t[a] == s[a - 1] by {}
    assert(t[i] == (k, v));
    assert forall|a: int, b: int| 0 <= a < b < t.len() implies (#[trigger] t[a]).0 < (
    #[trigger] t[b]).0 by {
        if b < i {
            assert(s[a].0 < s[b].0);
        } else if a < i && b > i {
            assert(s[a].0 < k && k < s[b - 1].0);
        } else if a > i {
            assert(s[a - 1].0 < s[b - 1].0);
        }
    }
    assert forall|a: int| 0 <= a < t.len() implies m.contains_key((#[trigger] t[a]).0)
        && m[t[a].0] == t[a].1 by {
        if a < i {
            assert(map_of(s).contains_key(s[a].0));
        } else if a > i {
            assert(map_of(s).contains_key(s[a - 1].0));
        }
    }
    assert forall|q: i64| #[trigger] m.contains_key(q) implies exists|a: int|
        0 <= a < t.len() && (#[trigger] t[a]).0 == q by {
        if q == k {
            assert(t[i].0 == q);
        } else {
            assert(map_of(s).contains_key(q));
            let a = choose|a: int| 0 <= a < s.len() && (#[trigger] s[a]).0 == q;
            if a < i {
                assert(t[a].0 == q);
            } else {
                assert(t[a + 1].0 == q);
            }
        }
    }
    lemma_map_of(t, m);
}

/// A price is taken out.
proof fn lemma_cut(s: Seq<(i64, i64)>, i: int)
    requires
        ascending(s),
        0 <= i < s.len(),
    ensures
        ascending(s.remove(i)),
        map_of(s.remove(i)) == map_of(s).remove(s[i].0),
{
    let k = s[i].0;
    let t = s.remove(i);
    let m = map_of(s).remove(k);
    lemma_lists(s);
    assert forall|a: int| 0 <= a < i implies #[trigger] t[a] == s[a] by {}
    assert forall|a: int| i <= a < t.len() implies #[trigger] t[a] == s[a + 1] by {}
    assert forall|a: int, b: int| 0 <= a < b < t.len() implies (#[trigger] t[a]).0 < (
    #[trigger] t[b]).0 by {
        let x = if a < i {
            a
        } else {
            a + 1
        };
        let y = if b < i {
            b
        } else {
            b + 1
        };
        assert(s[x].0 < s[y].0);
    }
    assert forall|a: int| 0 <= a < t.len() implies m.contains_key((#[trigger] t[a]).0)
        && m[t[a].0] == t[a].1 by {
        if a < i {
            assert(map_of(s).contains_key(s[a].0));
            assert(s[a].0 < s[i].0);
        } else {
            assert(map_of(s).contains_key(s[a + 1].0));
            assert(s[i].0 < s[a + 1].0);
        }
    }
    assert forall|q: i64| #[trigger] m.contains_key(q) implies exists|a: int|
        0 <= a < t.len() && (#[trigger] t[a]).0 == q by {
        assert(map_of(s).contains_key(q));
        let a = choose|a: int| 0 <= a < s.len() && (#[trigger] s[a]).0 == q;
        if a < i {
            assert(t[a].0 == q);
        } else {
            assert(t[a - 1].0 == q);
        }
    }
    lemma_map_of(t, m);
}

/// One side of a book.
pub struct Ladder {
    levels: Vec<(i64, i64)>,
}

impl View for Ladder {
    type V = Map<i64, i64>;

    closed spec fn view(&self) -> Map<i64, i64> {
        map_of(self.levels@)
    }
}

impl Ladder {
    #[verifier::type_invariant]
    spec fn inv(&self) -> bool {
        ascending(self.levels@)
    }

    /// An empty side.
    pub fn new() -> (r: Ladder)
        ensures
            r@ == Map::<i64, i64>::empty(),
    {
        let r = Ladder { levels: Vec::new() };
        assert(r@ =~= Map::<i64, i64>::empty());
        r
    }

    /// The first position whose key is not below `k`.
    fn seek(&self, k: i64) -> (r: usize)
        ensures
            r <= self.levels@.len(),
            forall|i: int| 0 <= i < r ==> (#[trigger] self.levels@[i]).0 < k,
            forall|i: int| r <= i < self.levels@.len() ==> (#[trigger] self.levels@[i]).0 >= k,
    {
        proof {
            use_type_invariant(self);
        }
        let mut lo: usize = 0;
        let mut hi: usize = self.levels.len();
        while lo < hi
            invariant
                lo <= hi <= self.levels@.len(),
                ascending(self.levels@),
                forall|i: int| 0 <= i < lo ==> (#[trigger] self.levels@[i]).0 < k,
                forall|i: int| hi <= i < self.levels@.len() ==> (#[trigger] self.levels@[i]).0 >= k,
            decreases hi - lo,
        {
            let mid: usize = lo + (hi - lo) / 2;
            if self.levels[mid].0 < k {
                assert forall|i: int| 0 <= i < mid + 1 implies (#[trigger] self.levels@[i]).0
                    < k by {
                    if i < mid {
                        assert(self.levels@[i].0 < self.levels@[mid as int].0);
                    }
                }
                lo = mid + 1;
            } else {
                assert forall|i: int| mid <= i < self.levels@.len() implies (
                #[trigger] self.levels@[i]).0 >= k by {
                    if i > mid {
                        assert(self.levels@[mid as int].0 < self.levels@[i].0);
                    }
                }
                hi = mid;
            }
        }
        lo
    }

    /// The size at a price.
    pub fn get(&self, k: i64) -> (r: Option<i64>)
        ensures
            match r {
                Some(v) => self@.contains_key(k) && self@[k] == v,
                None => !self@.contains_key(k),
            },
    {
        proof {
            use_type_invariant(self);
            lemma_lists(self.levels@);
        }
        let i = self.seek(k);
        if i < self.levels.len() && self.levels[i].0 == k {
            Some(self.levels[i].1)
        } else {
            None
        }
    }

    /// Puts a size at a price, in place of what was there.
    pub fn set(&mut self, k: i64, v: i64)
        ensures
            final(self)@ == old(self)@.insert(k, v),
    {
        proof {
            use_type_invariant(&*self);
            lemma_lists(self.levels@);
        }
        let i = self.seek(k);
        let mut w: Vec<(i64, i64)> = Vec::new();
        std::mem::swap(&mut w, &mut self.levels);
        let ghost s = w@;
        if i < w.len() && w[i].0 == k {
            w.set(i, (k, v));
            assert(w@ =~= s.update(i as int, (k, v)));
        } else {
            w.insert(i, (k, v));
            assert(w@ =~= s.insert(i as int, (k, v)));
        }
        proof {
            if i < s.len() && s[i as int].0 == k {
                lemma_replace(s, i as int, v);
            } else {
                lemma_insert(s, i as int, k, v);
            }
        }
        self.levels = w;
    }

    /// Takes a price out.
    pub fn remove(&mut self, k: i64)
        ensures
            final(self)@ == old(self)@.remove(k),
    {
        proof {
            use_type_invariant(&*self);
            lemma_lists(self.levels@);
        }
        let i = self.seek(k);
        if i >= self.levels.len() || self.levels[i].0 != k {
            proof {
                let s = self.levels@;
                if map_of(s).contains_key(k) {
                    let a = choose|a: int| 0 <= a < s.len() && (#[trigger] s[a]).0 == k;
                    if a < i {
                        assert(s[a].0 < k);
                    } else if a > i {
                        assert(s[i as int].0 < s[a].0);
                    }
                }
                assert(self@ =~= old(self)@.remove(k));
            }
            return ;
        }
        let mut w: Vec<(i64, i64)> = Vec::new();
        std::mem::swap(&mut w, &mut self.levels);
        let ghost s = w@;
        w.remove(i);
        assert(w@ =~= s.remove(i as int));
        proof {
            lemma_cut(s, i as int);
        }
        self.levels = w;
    }

    /// The lowest price.
    pub fn lowest_key(&self) -> (r: Option<i64>)
        ensures
            match r {
                Some(k) => self@.contains_key(k) && forall|q: i64| #[trigger]
                    self@.contains_key(q) ==> k <= q,
                None => self@ == Map::<i64, i64>::empty(),
            },
    {
        proof {
            use_type_invariant(self);
            lemma_lists(self.levels@);
        }
        if self.levels.len() > 0 {
            proof {
                let s = self.levels@;
                assert forall|q: i64| #[trigger] self@.contains_key(q) implies s[0].0 <= q by {
                    let a = choose|a: int| 0 <= a < s.len() && (#[trigger] s[a]).0 == q;
                    if a > 0 {
                        assert(s[0].0 < s[a].0);
                    }
                }
                assert(self@.contains_key(s[0].0));
            }
            Some(self.levels[0].0)
        } else {
            assert(self@ =~= Map::<i64, i64>::empty());
            None
        }
    }

    /// The highest price.
    pub fn highest_key(&self) -> (r: Option<i64>)
        ensures
            match r {
                Some(k) => self@.contains_key(k) && forall|q: i64| #[trigger]
                    self@.contains_key(q) ==> q <= k,
                None => self@ == Map::<i64, i64>::empty(),
            },
    {
        proof {
            use_type_invariant(self);
            lemma_lists(self.levels@);
        }
        let n: usize = self.levels.len();
        if n > 0 {
            proof {
                let s = self.levels@;
                assert forall|q: i64| #[trigger] self@.contains_key(q) implies q
                    <= s[n - 1].0 by {
                    let a = choose|a: int| 0 <= a < s.len() && (#[trigger] s[a]).0 == q;
                    if a < n - 1 {
                        assert(s[a].0 < s[n - 1].0);
                    }
                }
                assert(self@.contains_key(s[n - 1].0));
            }
            Some(self.levels[n - 1].0)
        } else {
            assert(self@ =~= Map::<i64, i64>::empty());
            None
        }
    }

    /// The first `n` levels from the lowest price up.
    pub fn lowest(&self, n: usize) -> (r: Vec<(i64, i64)>)
        ensures
            exists|s: Seq<(i64, i64)>| #[trigger] lists(s, self@) && r@ == best_up(s, n as int),
    {
        proof {
            use_type_invariant(self);
            lemma_lists(self.levels@);
        }
        let mut r: Vec<(i64, i64)> = Vec::new();
        let mut i: usize = 0;
        while i < self.levels.len() && i < n
            invariant
                i <= self.levels@.len(),
                i <= n,
                r@ == self.levels@.take(i as int),
            decreases self.levels@.len() - i,
        {
            r.push(self.levels[i]);
            assert(self.levels@.take(i + 1) =~= self.levels@.take(i as int).push(
                self.levels@[i as int],
            ));
            i = i + 1;
        }
        assert(r@ =~= best_up(self.levels@, n as int));
        assert(lists(self.levels@, self@));
        r
    }

    /// The first `n` levels from the highest price down.
    pub fn highest(&self, n: usize) -> (r: Vec<(i64, i64)>)
        ensures
            exists|s: Seq<(i64, i64)>| #[trigger] lists(s, self@) && r@ == best_down(s, n as int),
    {
        proof {
            use_type_invariant(self);
            lemma_lists(self.levels@);
        }
        let ghost rev = self.levels@.reverse();
        let len: usize = self.levels.len();
        let mut r: Vec<(i64, i64)> = Vec::new();
        let mut i: usize = 0;
        while i < len && i < n
            invariant
                len == self.levels@.len(),
                rev == self.levels@.reverse(),
                i <= len,
                i <= n,
                r@ == rev.take(i as int),
            decreases len - i,
        {
            r.push(self.levels[len - 1 - i]);
            assert(rev.take(i + 1) =~= rev.take(i as int).push(rev[i as int]));
            i = i + 1;
        }
        assert(r@ =~= best_down(self.levels@, n as int));
        assert(lists(self.levels@, self@));
        r
    }

    /// All levels, from the lowest price up.
    pub fn all(&self) -> (r: Vec<(i64, i64)>)
        ensures
            lists(r@, self@),
    {
        proof {
            use_type_invariant(self);
            lemma_lists(self.levels@);
        }
        let mut r: Vec<(i64, i64)> = Vec::new();
        let mut i: usize = 0;
        while i < self.levels.len()
            invariant
                i <= self.levels@.len(),
                r@ == self.levels@.take(i as int),
            decreases self.levels@.len() - i,
        {
            r.push(self.levels[i]);
            assert(self.levels@.take(i + 1) =~= self.levels@.take(i as int).push(
                self.levels@[i as int],
            ));
            i = i + 1;
        }
        assert(r@ =~= self.levels@);
        r
    }
}

/// The first `n` of an ascending run.
pub open spec fn best_up(s: Seq<(i64, i64)>, n: int) -> Seq<(i64, i64)> {
    if n < s.len() {
        s.take(n)
    } else {
        s
    }
}

/// The last `n` of an ascending run, the last one first.
pub open spec fn best_down(s: Seq<(i64, i64)>, n: int) -> Seq<(i64, i64)> {
    best_up(s.reverse(), n)
}

/// A side with the levels of a snapshot put in; a level without size is left out.
pub open spec fn filled_side(m: Map<i64, i64>, levels: Seq<(i64, i64)>) -> Map<i64, i64>
    decreases levels.len(),
{
    if levels.len() == 0 {
        m
    } else {
        let before = filled_side(m, levels.drop_last());
        let (p, q) = levels.last();
        if q > 0 {
            before.insert(p, q)
        } else {
            before
        }
    }
}

/// A side after a run of changes: a size of zero takes a level out, any other replaces it.
pub open spec fn changed_side(m: Map<i64, i64>, levels: Seq<(i64, i64)>) -> Map<i64, i64>
    decreases levels.len(),
{
    if levels.len() == 0 {
        m
    } else {
        let before = changed_side(m, levels.drop_last());
        let (p, q) = levels.last();
        if q == 0 {
            before.remove(p)
        } else {
            before.insert(p, q)
        }
    }
}

/// Puts the levels of a snapshot in.
pub fn fill_side(side: &mut Ladder, levels: &Vec<(i64, i64)>)
    ensures
        final(side)@ == filled_side(old(side)@, levels@),
{
    let ghost m = side@;
    let mut i: usize = 0;
    assert(levels@.take(0) =~= Seq::<(i64, i64)>::empty());
    while i < levels.len()
        invariant
            i <= levels@.len(),
            side@ == filled_side(m, levels@.take(i as int)),
        decreases levels@.len() - i,
    {
        let (p, q): (i64, i64) = levels[i];
        assert(levels@.take(i + 1).drop_last() =~= levels@.take(i as int));
        if q > 0 {
            side.set(p, q);
        }
        i = i + 1;
    }
    assert(levels@.take(levels@.len() as int) =~= levels@);
}

/// Takes changes in.
pub fn change_side(side: &mut Ladder, levels: &Vec<(i64, i64)>)
    ensures
        final(side)@ == changed_side(old(side)@, levels@),
{
    let ghost m = side@;
    let mut i: usize = 0;
    assert(levels@.take(0) =~= Seq::<(i64, i64)>::empty());
    while i < levels.len()
        invariant
            i <= levels@.len(),
            side@ == changed_side(m, levels@.take(i as int)),
        decreases levels@.len() - i,
    {
        let (p, q): (i64, i64) = levels[i];
        assert(levels@.take(i + 1).drop_last() =~= levels@.take(i as int));
        if q == 0 {
            side.remove(p);
        } else {
            side.set(p, q);
        }
        i = i + 1;
    }
    assert(levels@.take(levels@.len() as int) =~= levels@);
}

/// A change takes effect once: repeating it leaves every level as it is.
pub proof fn law_changes_are_absolute(m: Map<i64, i64>, p: i64, q: i64)
    ensures
        changed_side(changed_side(m, seq![(p, q)]), seq![(p, q)]) == changed_side(m, seq![(p, q)]),
{
    reveal_with_fuel(changed_side, 2);
    assert(seq![(p, q)].drop_last() =~= Seq::<(i64, i64)>::empty());
    let a = changed_side(m, seq![(p, q)]);
    assert(changed_side(a, seq![(p, q)]) =~= a);
}

/// The best levels of a side come first: on the way down each is below the one before it, and
/// every level that is left out is below them all; on the way up it is the other way round.
pub proof fn law_best_levels_come_first(l: Seq<(i64, i64)>, m: Map<i64, i64>, n: int)
    requires
        lists(l, m),
        n >= 0,
    ensures
        ({
            let d = best_down(l, n);
            let u = best_up(l, n);
            &&& d.len() == u.len() && (d.len() == n || d.len() == l.len()) && d.len() <= n
            &&& forall|i: int| 0 <= i < d.len() ==> m.contains_key((#[trigger] d[i]).0) && m[d[i].0] == d[i].1
            &&& forall|i: int| 0 <= i < u.len() ==> m.contains_key((#[trigger] u[i]).0) && m[u[i].0] == u[i].1
            &&& forall|i: int, j: int| 0 <= i < j < d.len() ==> (#[trigger] d[i]).0 > (#[trigger] d[j]).0
            &&& forall|i: int, j: int| 0 <= i < j < u.len() ==> (#[trigger] u[i]).0 < (#[trigger] u[j]).0
            &&& forall|k: i64, i: int|
                #![trigger m.contains_key(k), d[i]]
                m.contains_key(k) && 0 <= i < d.len() ==> k < d[i].0 || d.contains((k, m[k]))
            &&& forall|k: i64, i: int|
                #![trigger m.contains_key(k), u[i]]
                m.contains_key(k) && 0 <= i < u.len() ==> k > u[i].0 || u.contains((k, m[k]))
        }),
{
    let d = best_down(l, n);
    let u = best_up(l, n);
    let len = l.len() as int;
    assert forall|i: int| 0 <= i < d.len() implies #[trigger] d[i] == l[len - 1 - i] by {}
    assert forall|i: int| 0 <= i < u.len() implies #[trigger] u[i] == l[i] by {}
    assert forall|k: i64, i: int|
        #![trigger m.contains_key(k), d[i]]
        m.contains_key(k) && 0 <= i < d.len() implies k < d[i].0 || d.contains((k, m[k])) by {
        let p = choose|p: int| 0 <= p < len && (#[trigger] l[p]).0 == k;
        if len - 1 - p < d.len() {
            assert(d[len - 1 - p] == l[p]);
        } else {
            assert(l[p].0 < l[len - 1 - i].0);
        }
    }
    assert forall|k: i64, i: int|
        #![trigger m.contains_key(k), u[i]]
        m.contains_key(k) && 0 <= i < u.len() implies k > u[i].0 || u.contains((k, m[k])) by {
        let p = choose|p: int| 0 <= p < len && (#[trigger] l[p]).0 == k;
        if p < u.len() {
            assert(u[p] == l[p]);
        } else {
            assert(l[i].0 < l[p].0);
        }
    }
}

/// A level of a snapshot is put in where it has a size; a change sets a level to its size, or
/// takes it out where that is zero. No other price is touched.
pub proof fn law_levels_are_set_by_price(
    m: Map<i64, i64>,
    levels: Seq<(i64, i64)>,
    p: i64,
    q: i64,
    other: i64,
)
    requires
        other != p,
    ensures
        ({
            let f = filled_side(m, levels);
            let g = filled_side(m, levels.push((p, q)));
            let c = changed_side(m, levels);
            let d = changed_side(m, levels.push((p, q)));
            &&& q > 0 ==> g.contains_key(p) && g[p] == q
            &&& q <= 0 ==> g == f
            &&& g.contains_key(other) <==> f.contains_key(other)
            &&& f.contains_key(other) ==> g[other] == f[other]
            &&& q != 0 ==> d.contains_key(p) && d[p] == q
            &&& q == 0 ==> !d.contains_key(p)
            &&& d.contains_key(other) <==> c.contains_key(other)
            &&& c.contains_key(other) ==> d[other] == c[other]
        }),
        filled_side(m, Seq::empty()) == m,
        changed_side(m, Seq::empty()) == m,
{
    assert(levels.push((p, q)).drop_last() =~= levels);
}

} // verus!
