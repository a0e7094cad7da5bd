//! Time-stamped samples in a queue, oldest first: cutting off the old end and looking up
//! the sample that held at an instant.
use vstd::prelude::*;
use std::collections::VecDeque;

verus! {

/// The samples left once those at the front that are older than `cutoff` are gone.
pub open spec fn dropped<T>(s: Seq<(i64, T)>, cutoff: int) -> Seq<(i64, T)>
    decreases s.len(),
{
    if s.len() > 0 && s[0].0 < cutoff {
        dropped(s.skip(1), cutoff)
    } else {
        s
    }
}

/// Whether the samples stand in time order.
pub open spec fn in_order<T>(s: Seq<(i64, T)>) -> bool {
    forall|i: int, j: int| #![trigger s[i], s[j]] 0 <= i <= j < s.len() ==> s[i].0 <= s[j].0
}

/// The last sample of the queue that is no later than `t`.
pub open spec fn as_of<T>(s: Seq<(i64, T)>, t: int) -> Option<(i64, T)>
    decreases s.len(),
{
    if s.len() == 0 {
        None
    } else if s.last().0 <= t {
        Some(s.last())
    } else {
        as_of(s.drop_last(), t)
    }
}

/// Takes the samples older than `cutoff` off the front.
pub fn drop_before<T>(q: &mut VecDeque<(i64, T)>, cutoff: i128)
    ensures
        final(q)@ == dropped(old(q)@, cutoff as int),
{
    loop
        invariant
            dropped(q@, cutoff as int) == dropped(old(q)@, cutoff as int),
        decreases q@.len(),
    {
        if q.len() == 0 {
            return ;
        }
        let ghost before = q@;
        if (q[0].0 as i128) < cutoff {
            let _ = q.pop_front();
            assert(q@ =~= before.skip(1));
        } else {
            return ;
        }
    }
}

/// The position of the last sample that is no later than `t`.
pub fn find_as_of<T>(q: &VecDeque<(i64, T)>, t: i128) -> (r: Option<usize>)
    ensures
        match r {
            Some(i) => i < q@.len() && as_of(q@, t as int) == Some(q@[i as int]),
            None => as_of(q@, t as int) is None,
        },
{
    let mut n: usize = q.len();
    assert(q@.take(n as int) =~= q@);
    while n > 0
        invariant
            n <= q@.len(),
            as_of(q@, t as int) == as_of(q@.take(n as int), t as int),
        decreases n,
    {
        assert(q@.take(n as int).last() == q@[n - 1]);
        assert(q@.take(n as int).drop_last() =~= q@.take(n - 1));
        if q[n - 1].0 as i128 <= t {
            return Some(n - 1);
        }
        n = n - 1;
    }
    None
}

/// What is cut off the front is older than the cutoff, and what is left is the rest.
pub proof fn lemma_dropped_suffix<T>(s: Seq<(i64, T)>, cutoff: int)
    ensures
        exists|n: int|
            0 <= n <= s.len() && #[trigger] s.skip(n) == dropped(s, cutoff) && (forall|j: int|
                0 <= j < n ==> (#[trigger] s[j]).0 < cutoff),
        dropped(s, cutoff).len() <= s.len(),
    decreases s.len(),
{
    if s.len() > 0 && s[0].0 < cutoff {
        let t = s.skip(1);
        lemma_dropped_suffix(t, cutoff);
        let m = choose|m: int|
            0 <= m <= t.len() && #[trigger] t.skip(m) == dropped(t, cutoff) && (forall|j: int|
                0 <= j < m ==> (#[trigger] t[j]).0 < cutoff);
        assert(s.skip(m + 1) =~= t.skip(m));
        assert forall|j: int| 0 <= j < m + 1 implies (#[trigger] s[j]).0 < cutoff by {
            if j > 0 {
                assert(s[j] == t[j - 1]);
            }
        }
    } else {
        assert(s.skip(0) =~= s);
    }
}

/// In a queue in time order, exactly the samples at or after the cutoff are left.
pub proof fn law_dropped_keeps_the_recent<T>(s: Seq<(i64, T)>, cutoff: int)
    requires
        in_order(s),
    ensures
        in_order(dropped(s, cutoff)),
        forall|i: int|
            0 <= i < dropped(s, cutoff).len() ==> (#[trigger] dropped(s, cutoff)[i]).0 >= cutoff,
        dropped(s, cutoff) == s.filter(|x: (i64, T)| x.0 >= cutoff),
    decreases s.len(),
{
    let p = |x: (i64, T)| x.0 >= cutoff;
    if s.len() == 0 {
        reveal(Seq::filter);
        assert(s.filter(p) =~= s);
    } else if s[0].0 < cutoff {
        let t = s.skip(1);
        assert forall|i: int, j: int|
            #![trigger t[i], t[j]]
            0 <= i <= j < t.len() implies t[i].0 <= t[j].0 by {
            assert(s[i + 1].0 <= s[j + 1].0);
        }
        law_dropped_keeps_the_recent(t, cutoff);
        assert(s =~= seq![s[0]] + t);
        Seq::filter_distributes_over_add(seq![s[0]], t, p);
        reveal(Seq::filter);
        let one = seq![s[0]];
        assert(one.drop_last() =~= Seq::<(i64, T)>::empty());
        assert(one.drop_last().filter(p) =~= Seq::<(i64, T)>::empty());
        assert(one.filter(p) =~= Seq::<(i64, T)>::empty());
        assert(s.filter(p) =~= t.filter(p));
    } else {
        assert forall|i: int| 0 <= i < s.len() implies (#[trigger] s[i]).0 >= cutoff by {
            assert(s[0].0 <= s[i].0);
        }
        lemma_filter_all(s, p);
    }
}

proof fn lemma_filter_all<T>(s: Seq<(i64, T)>, p: spec_fn((i64, T)) -> bool)
    requires
        forall|i: int| 0 <= i < s.len() ==> p(#[trigger] s[i]),
    ensures
        s.filter(p) == s,
    decreases s.len(),
{
    reveal(Seq::filter);
    if s.len() > 0 {
        lemma_filter_all(s.drop_last(), p);
        assert(p(s[s.len() - 1]));
        assert(s.drop_last().push(s.last()) =~= s);
    } else {
        assert(s.filter(p) =~= s);
    }
}

/// The sample that held at an instant is the last of the queue that is no later; where all
/// are later there is none.
pub proof fn law_the_last_sample_holds<T>(s: Seq<(i64, T)>, t: int, i: int)
    requires
        -1 <= i < s.len(),
        i >= 0 ==> s[i].0 <= t,
        forall|j: int| i < j < s.len() ==> (#[trigger] s[j]).0 > t,
    ensures
        i >= 0 ==> as_of(s, t) == Some(s[i]),
        i < 0 ==> as_of(s, t) is None,
    decreases s.len(),
{
    if s.len() > 0 {
        let n = s.len() as int;
        assert(s.last() == s[n - 1]);
        if i < n - 1 {
            let r = s.drop_last();
            assert forall|j: int| i < j < r.len() implies (#[trigger] r[j]).0 > t by {
                assert(s[j].0 > t);
            }
            law_the_last_sample_holds(r, t, i);
        }
    }
}

} // verus!
