//! A map from text to values, held as a list of entries with distinct keys.
use vstd::prelude::*;
use crate::text;
use crate::text::same;

verus! {

/// A finite map with string keys.
pub struct StrMap<V> {
    entries: Vec<(String, V)>,
}

/// Whether a list names the keys of a map, each once.
pub open spec fn lists_keys(s: Seq<Seq<char>>, dom: Set<Seq<char>>) -> bool {
    s.no_duplicates() && forall|k: Seq<char>| #[trigger] dom.contains(k) == s.contains(k)
}

/// No key occurs twice.
pub open spec fn distinct_keys<V>(s: Seq<(String, V)>) -> bool {
    forall|i: int, j: int|
        #![trigger s[i], s[j]]
        0 <= i < j < s.len() ==> s[i].0@ != s[j].0@
}

/// The map that a list of entries stands for.
pub open spec fn map_of<V>(s: Seq<(String, V)>) -> Map<Seq<char>, V> {
    Map::new(
        |k: Seq<char>| exists|i: int| 0 <= i < s.len() && (#[trigger] s[i]).0@ == k,
        |k: Seq<char>| s[choose|i: int| 0 <= i < s.len() && (#[trigger] s[i]).0@ == k].1,
    )
}

/// Every entry of a list with distinct keys is in the map that it stands for.
pub proof fn lemma_map_of<V>(s: Seq<(String, V)>)
    requires
        distinct_keys(s),
    ensures
        forall|i: int|
            0 <= i < s.len() ==> map_of(s).contains_key((#[trigger] s[i]).0@) && map_of(
                s,
            )[s[i].0@] == s[i].1,
        forall|k: Seq<char>| #[trigger]
            map_of(s).contains_key(k) ==> exists|i: int|
                0 <= i < s.len() && (#[trigger] s[i]).0@ == k,
{
    assert forall|i: int| 0 <= i < s.len() implies map_of(s).contains_key((#[trigger] s[i]).0@)
        && map_of(s)[s[i].0@] == s[i].1 by {
        let k = s[i].0@;
        let j = choose|j: int| 0 <= j < s.len() && (#[trigger] s[j]).0@ == k;
        assert(0 <= j < s.len() && s[j].0@ == k);
        assert(i == j);
    }
}

proof fn lemma_push<V>(s: Seq<(String, V)>, e: (String, V))
    requires
        distinct_keys(s),
        !map_of(s).contains_key(e.0@),
    ensures
        distinct_keys(s.push(e)),
        map_of(s.push(e)) == map_of(s).insert(e.0@, e.1),
{
    let t = s.push(e);
    assert forall|i: int, j: int|
        #![trigger t[i], t[j]]
        0 <= i < j < t.len() implies t[i].0@ != t[j].0@ by {
        if j == s.len() {
            assert(t[i] == s[i]);
            assert(map_of(s).contains_key(s[i].0@));
        } else {
            assert(t[i] == s[i] && t[j] == s[j]);
        }
    }
    lemma_map_of(s);
    lemma_map_of(t);
    assert forall|k: Seq<char>| map_of(t).contains_key(k) == #[trigger] map_of(s).insert(
        e.0@,
        e.1,
    ).contains_key(k) by {
        if map_of(t).contains_key(k) {
            let i = choose|i: int| 0 <= i < t.len() && (#[trigger] t[i]).0@ == k;
            if i < s.len() {
                assert(s[i] == t[i]);
                assert(map_of(s).contains_key(s[i].0@));
            }
        }
        if map_of(s).contains_key(k) {
            let i = choose|i: int| 0 <= i < s.len() && (#[trigger] s[i]).0@ == k;
            assert(t[i] == s[i]);
            assert(map_of(t).contains_key(t[i].0@));
        }
        if k == e.0@ {
            assert(t[s.len() as int] == e);
            assert(map_of(t).contains_key(t[s.len() as int].0@));
        }
    }
    assert forall|k: Seq<char>| #[trigger] map_of(t).contains_key(k) implies map_of(t)[k]
        == map_of(s).insert(e.0@, e.1)[k] by {
        let i = choose|i: int| 0 <= i < t.len() && (#[trigger] t[i]).0@ == k;
        if i < s.len() {
            assert(s[i] == t[i]);
            assert(k != e.0@) by {
                assert(map_of(s).contains_key(s[i].0@));
            }
        } else {
            assert(t[i] == e);
        }
    }
    assert(map_of(t) =~= map_of(s).insert(e.0@, e.1));
}

proof fn lemma_update<V>(s: Seq<(String, V)>, i: int, e: (String, V))
    requires
        distinct_keys(s),
        0 <= i < s.len(),
        s[i].0@ == e.0@,
    ensures
        distinct_keys(s.update(i, e)),
        map_of(s.update(i, e)) == map_of(s).insert(e.0@, e.1),
{
    let t = s.update(i, e);
    assert forall|a: int, b: int|
        #![trigger t[a], t[b]]
        0 <= a < b < t.len() implies t[a].0@ != t[b].0@ by {
        assert(t[a].0@ == s[a].0@ && t[b].0@ == s[b].0@);
    }
    lemma_map_of(s);
    lemma_map_of(t);
    assert forall|k: Seq<char>| map_of(t).contains_key(k) == #[trigger] map_of(s).insert(
        e.0@,
        e.1,
    ).contains_key(k) by {
        if map_of(t).contains_key(k) {
            let j = choose|j: int| 0 <= j < t.len() && (#[trigger] t[j]).0@ == k;
            assert(s[j].0@ == k);
            assert(map_of(s).contains_key(s[j].0@));
        }
        if map_of(s).contains_key(k) {
            let j = choose|j: int| 0 <= j < s.len() && (#[trigger] s[j]).0@ == k;
            assert(t[j].0@ == k);
            assert(map_of(t).contains_key(t[j].0@));
        }
        if k == e.0@ {
            assert(map_of(t).contains_key(t[i].0@));
        }
    }
    assert forall|k: Seq<char>| #[trigger] map_of(t).contains_key(k) implies map_of(t)[k]
        == map_of(s).insert(e.0@, e.1)[k] by {
        let j = choose|j: int| 0 <= j < t.len() && (#[trigger] t[j]).0@ == k;
        if j == i {
            assert(t[j] == e);
        } else {
            assert(t[j] == s[j]);
            assert(k != e.0@) by {
                assert(t[i].0@ == e.0@);
                if i < j {
                    assert(t[i].0@ != t[j].0@);
                } else {
                    assert(t[j].0@ != t[i].0@);
                }
            }
        }
    }
    assert(map_of(t) =~= map_of(s).insert(e.0@, e.1));
}

proof fn lemma_remove<V>(s: Seq<(String, V)>, i: int)
    requires
        distinct_keys(s),
        0 <= i < s.len(),
    ensures
        distinct_keys(s.remove(i)),
        map_of(s.remove(i)) == map_of(s).remove(s[i].0@),
{
    let t = s.remove(i);
    let at = |j: int| if j < i { j } else { j + 1 };
    assert forall|j: int| 0 <= j < t.len() implies #[trigger] t[j] == s[at(j)] by {}
    assert forall|a: int, b: int|
        #![trigger t[a], t[b]]
        0 <= a < b < t.len() implies t[a].0@ != t[b].0@ by {
        assert(s[at(a)].0@ != s[at(b)].0@);
    }
    lemma_map_of(s);
    lemma_map_of(t);
    let k0 = s[i].0@;
    assert forall|k: Seq<char>| map_of(t).contains_key(k) == #[trigger] map_of(s).remove(
        k0,
    ).contains_key(k) by {
        if map_of(t).contains_key(k) {
            let j = choose|j: int| 0 <= j < t.len() && (#[trigger] t[j]).0@ == k;
            assert(s[at(j)].0@ == k);
            assert(map_of(s).contains_key(s[at(j)].0@));
            if j < i {
                assert(s[at(j)].0@ != s[i].0@);
            } else {
                assert(s[i].0@ != s[at(j)].0@);
            }
        }
        if map_of(s).contains_key(k) && k != k0 {
            let j = choose|j: int| 0 <= j < s.len() && (#[trigger] s[j]).0@ == k;
            let b = if j < i { j } else { j - 1 };
            assert(t[b] == s[j]);
            assert(map_of(t).contains_key(t[b].0@));
        }
    }
    assert forall|k: Seq<char>| #[trigger] map_of(t).contains_key(k) implies map_of(t)[k]
        == map_of(s).remove(k0)[k] by {
        let j = choose|j: int| 0 <= j < t.len() && (#[trigger] t[j]).0@ == k;
        assert(t[j] == s[at(j)]);
        assert(map_of(s).remove(k0).contains_key(k));
    }
    assert(map_of(t) =~= map_of(s).remove(k0));
}

impl<V> View for StrMap<V> {
    type V = Map<Seq<char>, V>;

    closed spec fn view(&self) -> Map<Seq<char>, V> {
        map_of(self.entries@)
    }
}

impl<V> StrMap<V> {
    #[verifier::type_invariant]
    spec fn inv(self) -> bool {
        distinct_keys(self.entries@)
    }

    /// The entries, in the order in which they are held.
    pub closed spec fn pairs(&self) -> Seq<(String, V)> {
        self.entries@
    }

    /// The empty map.
    pub fn new() -> (m: StrMap<V>)
        ensures
            m@ == Map::<Seq<char>, V>::empty(),
            m.pairs().len() == 0,
    {
        let m = StrMap { entries: Vec::new() };
        assert(m@ =~= Map::<Seq<char>, V>::empty());
        m
    }

    fn find(&self, k: &str) -> (r: Option<usize>)
        ensures
            match r {
                Some(i) => i < self.entries@.len() && self.entries@[i as int].0@ == k@
                    && self@.contains_key(k@) && self@[k@] == self.entries@[i as int].1,
                None => !self@.contains_key(k@),
            },
    {
        proof {
            use_type_invariant(self);
            lemma_map_of(self.entries@);
        }
        let n: usize = self.entries.len();
        let mut i: usize = 0;
        while i < n
            invariant
                n == self.entries@.len(),
                i <= n,
                forall|j: int| 0 <= j < i ==> (#[trigger] self.entries@[j]).0@ != k@,
                self@ == map_of(self.entries@),
                forall|j: int|
                    0 <= j < self.entries@.len() ==> map_of(self.entries@).contains_key(
                        (#[trigger] self.entries@[j]).0@,
                    ) && map_of(self.entries@)[self.entries@[j].0@] == self.entries@[j].1,
            decreases n - i,
        {
            if same(self.entries[i].0.as_str(), k) {
                return Some(i);
            }
            i = i + 1;
        }
        None
    }

    /// Whether `k` is a key.
    pub fn contains(&self, k: &str) -> (r: bool)
        ensures
            r == self@.contains_key(k@),
    {
        self.find(k).is_some()
    }

    /// The value at `k`.
    pub fn get(&self, k: &str) -> (r: Option<&V>)
        ensures
            match r {
                Some(v) => self@.contains_key(k@) && *v == self@[k@],
                None => !self@.contains_key(k@),
            },
    {
        match self.find(k) {
            Some(i) => Some(&self.entries[i].1),
            None => None,
        }
    }

    /// Puts `v` at `k`, in place of what was there.
    pub fn insert(&mut self, k: String, v: V)
        ensures
            final(self)@ == old(self)@.insert(k@, v),
    {
        let at = self.find(k.as_str());
        proof {
            use_type_invariant(&*self);
        }
        let mut e: Vec<(String, V)> = Vec::new();
        std::mem::swap(&mut e, &mut self.entries);
        let ghost s = e@;
        match at {
            Some(i) => {
                proof {
                    lemma_update(s, i as int, (k, v));
                }
                e[i] = (k, v);
                self.entries = e;
            },
            None => {
                proof {
                    lemma_push(s, (k, v));
                }
                e.push((k, v));
                self.entries = e;
            },
        }
    }

    /// Takes the value at `k` out of the map.
    pub fn remove(&mut self, k: &str) -> (r: Option<V>)
        ensures
            final(self)@ == old(self)@.remove(k@),
            match r {
                Some(v) => old(self)@.contains_key(k@) && v == old(self)@[k@],
                None => !old(self)@.contains_key(k@),
            },
    {
        let at = self.find(k);
        proof {
            use_type_invariant(&*self);
        }
        match at {
            Some(i) => {
                let mut e: Vec<(String, V)> = Vec::new();
                std::mem::swap(&mut e, &mut self.entries);
                proof {
                    lemma_remove(e@, i as int);
                }
                let (_, v) = e.remove(i);
                self.entries = e;
                Some(v)
            },
            None => {
                assert(self@.remove(k@) =~= self@);
                None
            },
        }
    }

    /// Takes out the entry at position `i`.
    pub fn take_at(&mut self, i: usize) -> (r: (String, V))
        requires
            i < old(self).pairs().len(),
        ensures
            r == old(self).pairs()[i as int],
            final(self).pairs() == old(self).pairs().remove(i as int),
            final(self)@ == old(self)@.remove(r.0@),
    {
        proof {
            use_type_invariant(&*self);
        }
        let mut e: Vec<(String, V)> = Vec::new();
        std::mem::swap(&mut e, &mut self.entries);
        proof {
            lemma_remove(e@, i as int);
        }
        let r = e.remove(i);
        self.entries = e;
        r
    }

    /// How many keys there are.
    pub fn len(&self) -> (n: usize)
        ensures
            n == self.pairs().len(),
    {
        self.entries.len()
    }

    /// The key and the value of the entry at position `i`.
    pub fn at(&self, i: usize) -> (r: (&String, &V))
        requires
            i < self.pairs().len(),
        ensures
            *r.0 == self.pairs()[i as int].0,
            *r.1 == self.pairs()[i as int].1,
            self@.contains_key(r.0@),
            self@[r.0@] == *r.1,
    {
        proof {
            use_type_invariant(self);
            lemma_map_of(self.entries@);
        }
        let e = &self.entries[i];
        (&e.0, &e.1)
    }

    /// The keys.
    pub fn keys(&self) -> (r: Vec<String>)
        ensures
            lists_keys(text::views(r@), self@.dom()),
    {
        let mut r: Vec<String> = Vec::new();
        let mut i: usize = 0;
        while i < self.entries.len()
            invariant
                i <= self.entries@.len(),
                r@.len() == i,
                forall|j: int| 0 <= j < i ==> (#[trigger] r@[j])@ == self.entries@[j].0@,
            decreases self.entries@.len() - i,
        {
            r.push(self.entries[i].0.clone());
            i = i + 1;
        }
        proof {
            use_type_invariant(self);
            lemma_map_of(self.entries@);
            let v = text::views(r@);
            let e = self.entries@;
            assert forall|a: int, b: int| 0 <= a < v.len() && 0 <= b < v.len() && a != b implies v[a]
                != v[b] by {
                assert(v[a] == r@[a]@ && v[b] == r@[b]@);
                if a < b {
                    assert(e[a].0@ != e[b].0@);
                } else {
                    assert(e[b].0@ != e[a].0@);
                }
            }
            assert forall|k: Seq<char>| #[trigger] self@.dom().contains(k) == v.contains(k) by {
                if self@.contains_key(k) {
                    let j = choose|j: int| 0 <= j < e.len() && (#[trigger] e[j]).0@ == k;
                    assert(v[j] == r@[j]@);
                }
                if v.contains(k) {
                    let j = choose|j: int| 0 <= j < v.len() && v[j] == k;
                    assert(v[j] == r@[j]@);
                    assert(e[j].0@ == k);
                }
            }
        }
        r
    }

    /// What the entries say of the map, and the other way round.
    pub(crate) fn entries_ok(&self)
        ensures
            distinct_keys(self.pairs()),
            self@ == map_of(self.pairs()),
    {
        proof {
            use_type_invariant(self);
        }
    }
}

} // verus!
