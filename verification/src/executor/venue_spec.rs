//! The structural facts of each prediction venue, found by the first segment of an
//! instrument: `<venue>.<market_id>.<outcome>`.
use vstd::prelude::*;
use crate::text;
use crate::text::{chars_of, find_char, joined, rfind_char, same, string_of_range};

verus! {

/// One prediction venue.
#[derive(Clone, Copy, Debug)]
pub struct VenueSpec {
    /// Topic segment and instrument prefix.
    pub prefix: &'static str,
    /// The outcome bought on an up signal.
    pub yes_label: &'static str,
    /// The outcome bought on a down signal.
    pub no_label: &'static str,
    /// The delay that the venue puts on marketable orders.
    pub taker_delay_ms: u64,
}

/// Polymarket: up and down, with a delay on takers.
pub open spec fn polymarket_spec() -> VenueSpec {
    VenueSpec { prefix: "polymarket", yes_label: "UP", no_label: "DOWN", taker_delay_ms: 250 }
}

/// Kalshi: yes and no, without a delay.
pub open spec fn kalshi_spec() -> VenueSpec {
    VenueSpec { prefix: "kalshi", yes_label: "YES", no_label: "NO", taker_delay_ms: 0 }
}

/// Polymarket.
pub fn polymarket() -> (r: VenueSpec)
    ensures
        r == polymarket_spec(),
{
    VenueSpec { prefix: "polymarket", yes_label: "UP", no_label: "DOWN", taker_delay_ms: 250 }
}

/// Kalshi.
pub fn kalshi() -> (r: VenueSpec)
    ensures
        r == kalshi_spec(),
{
    VenueSpec { prefix: "kalshi", yes_label: "YES", no_label: "NO", taker_delay_ms: 0 }
}

/// The venue of this name.
pub open spec fn venue_named(name: Seq<char>) -> Option<VenueSpec> {
    if name == "polymarket"@ {
        Some(polymarket_spec())
    } else if name == "kalshi"@ {
        Some(kalshi_spec())
    } else {
        None
    }
}

/// The venue that an instrument belongs to.
pub open spec fn venue_of_text(s: Seq<char>) -> Option<VenueSpec> {
    venue_named(s.take(text::first_at(s, '.')))
}

/// `label` behind a dot.
pub open spec fn suffix(label: &str) -> Seq<char> {
    seq!['.'] + label@
}

/// The market id of an instrument: what stands between its first and its last dot.
pub open spec fn market_id_text(s: Seq<char>) -> Option<Seq<char>> {
    let i = text::first_at(s, '.');
    if venue_of_text(s) is Some && i < s.len() {
        let rest = s.skip(i + 1);
        let j = text::last_at(rest, '.');
        if j >= 0 {
            Some(rest.take(j))
        } else {
            None
        }
    } else {
        None
    }
}

/// `s` with the suffix `from` replaced by `to`.
pub open spec fn swap_suffix(s: Seq<char>, from: Seq<char>, to: Seq<char>) -> Seq<char> {
    s.take(s.len() - from.len()) + to
}

/// The instrument bought on a signal of this direction: the target itself, or its no side
/// where the direction is down and the target is a yes side.
pub open spec fn traded_text(target: Seq<char>, direction: i8) -> Seq<char> {
    if direction >= 0 {
        target
    } else {
        match venue_of_text(target) {
            Some(v) => if text::has_suffix(target, suffix(v.yes_label)) {
                swap_suffix(target, suffix(v.yes_label), suffix(v.no_label))
            } else {
                target
            },
            None => target,
        }
    }
}

/// The other outcome of the same market; an instrument of no known venue or outcome is
/// left as it is.
pub open spec fn complement_text(s: Seq<char>) -> Seq<char> {
    match venue_of_text(s) {
        Some(v) => if text::has_suffix(s, suffix(v.yes_label)) {
            swap_suffix(s, suffix(v.yes_label), suffix(v.no_label))
        } else if text::has_suffix(s, suffix(v.no_label)) {
            swap_suffix(s, suffix(v.no_label), suffix(v.yes_label))
        } else {
            s
        },
        None => s,
    }
}

/// The venue of this name.
pub fn by_name(name: &str) -> (r: Option<VenueSpec>)
    ensures
        r == venue_named(name@),
{
    if same(name, "polymarket") {
        Some(polymarket())
    } else if same(name, "kalshi") {
        Some(kalshi())
    } else {
        None
    }
}

/// The venue that an instrument belongs to.
pub fn venue_of(instrument: &str) -> (r: Option<VenueSpec>)
    ensures
        r == venue_of_text(instrument@),
{
    let v = chars_of(instrument);
    let n = find_char(&v, 0, '.');
    assert(instrument@.skip(0) =~= instrument@);
    let head = string_of_range(&v, 0, n);
    assert(head@ =~= instrument@.take(n as int));
    by_name(head.as_str())
}

/// The market id of an instrument of a known venue.
pub fn market_id_of(instrument: &str) -> (r: Option<String>)
    ensures
        match r {
            Some(m) => market_id_text(instrument@) == Some(m@),
            None => market_id_text(instrument@) is None,
        },
{
    if venue_of(instrument).is_none() {
        return None;
    }
    let v = chars_of(instrument);
    let i = find_char(&v, 0, '.');
    assert(instrument@.skip(0) =~= instrument@);
    if i >= v.len() {
        return None;
    }
    let rest = string_of_range(&v, i + 1, v.len());
    let w = chars_of(rest.as_str());
    assert(w@ =~= instrument@.skip(i + 1));
    match rfind_char(&w, '.') {
        None => None,
        Some(j) => {
            let m = string_of_range(&w, 0, j);
            assert(m@ =~= w@.take(j as int));
            Some(m)
        },
    }
}

/// `s` with `.from` at its end replaced by `.to`, where it ends so.
fn relabel(s: &str, from: &str, to: &str) -> (r: Option<String>)
    ensures
        match r {
            Some(t) => text::has_suffix(s@, suffix(from)) && t@ == swap_suffix(
                s@,
                suffix(from),
                suffix(to),
            ),
            None => !text::has_suffix(s@, suffix(from)),
        },
{
    let tail = joined(".", from);
    proof {
        reveal_strlit(".");
        assert("."@ =~= seq!['.']);
    }
    if !text::ends_with(s, tail.as_str()) {
        return None;
    }
    let v = chars_of(s);
    let q = chars_of(tail.as_str());
    let stem = string_of_range(&v, 0, v.len() - q.len());
    let dot = joined(stem.as_str(), ".");
    let r = joined(dot.as_str(), to);
    assert(r@ =~= swap_suffix(s@, suffix(from), suffix(to)));
    Some(r)
}

/// The instrument bought on a signal of this direction.
pub fn traded_instrument(target_yes: &str, direction: i8) -> (r: String)
    ensures
        r@ == traded_text(target_yes@, direction),
{
    if direction >= 0 {
        return target_yes.to_string();
    }
    if let Some(spec) = venue_of(target_yes) {
        if let Some(r) = relabel(target_yes, spec.yes_label, spec.no_label) {
            return r;
        }
    }
    target_yes.to_string()
}

/// The other outcome of the same market.
pub fn complement(instrument: &str) -> (r: String)
    ensures
        r@ == complement_text(instrument@),
{
    if let Some(spec) = venue_of(instrument) {
        if let Some(r) = relabel(instrument, spec.yes_label, spec.no_label) {
            return r;
        }
        if let Some(r) = relabel(instrument, spec.no_label, spec.yes_label) {
            return r;
        }
    }
    instrument.to_string()
}

/// The yes side of an instrument's market.
pub open spec fn yes_text(s: Seq<char>) -> Seq<char> {
    match venue_of_text(s) {
        Some(v) => if text::has_suffix(s, suffix(v.yes_label)) {
            s
        } else {
            complement_text(s)
        },
        None => complement_text(s),
    }
}

/// The yes side of an instrument's market; the instrument itself where it is one.
pub fn yes_side_of(instrument: &str) -> (r: String)
    ensures
        r@ == yes_text(instrument@),
{
    if let Some(spec) = venue_of(instrument) {
        let tail = joined(".", spec.yes_label);
        proof {
            reveal_strlit(".");
            assert("."@ =~= seq!['.']);
        }
        if text::ends_with(instrument, tail.as_str()) {
            return instrument.to_string();
        }
    }
    complement(instrument)
}

/// Whether `s` names an outcome of a known venue.
pub open spec fn is_outcome(s: Seq<char>) -> bool {
    match venue_of_text(s) {
        Some(v) => text::has_suffix(s, suffix(v.yes_label)) || text::has_suffix(
            s,
            suffix(v.no_label),
        ),
        None => false,
    }
}

/// A suffix that starts with a dot leaves the first segment alone when it is replaced by
/// another such suffix.
proof fn lemma_swap_keeps_head(s: Seq<char>, from: Seq<char>, to: Seq<char>)
    requires
        text::has_suffix(s, from),
        from.len() > 0,
        from[0] == '.',
        to.len() > 0,
        to[0] == '.',
    ensures
        ({
            let t = swap_suffix(s, from, to);
            &&& text::has_suffix(t, to)
            &&& swap_suffix(t, to, from) == s
            &&& t.take(text::first_at(t, '.')) == s.take(text::first_at(s, '.'))
            &&& text::first_at(t, '.') == text::first_at(s, '.')
        }),
{
    let t = swap_suffix(s, from, to);
    let n = s.len() - from.len();
    let stem = s.take(n);
    assert(t.skip(t.len() - to.len()) =~= to);
    assert(s =~= stem + from) by {
        assert(s.skip(n) == from);
        assert(s =~= stem + s.skip(n));
    }
    assert(swap_suffix(t, to, from) =~= s) by {
        assert(t.take(t.len() - to.len()) =~= stem);
    }
    text::lemma_first_at_range(stem, '.');
    let i = text::first_at(stem, '.');
    assert(s[n] == from[0]) by {
        assert(s.skip(n)[0] == s[n]);
    }
    assert forall|j: int| 0 <= j < i implies s[j] != '.' && t[j] != '.' by {
        assert(stem[j] != '.');
    }
    if i < n {
        assert(stem[i] == '.');
    }
    text::lemma_first_at(s, '.', i);
    text::lemma_first_at(t, '.', i);
    assert(t.take(i) =~= s.take(i));
}

proof fn lemma_labels()
    ensures
        suffix("UP") == seq!['.', 'U', 'P'],
        suffix("DOWN") == seq!['.', 'D', 'O', 'W', 'N'],
        suffix("YES") == seq!['.', 'Y', 'E', 'S'],
        suffix("NO") == seq!['.', 'N', 'O'],
{
    reveal_strlit("UP");
    reveal_strlit("DOWN");
    reveal_strlit("YES");
    reveal_strlit("NO");
    assert(suffix("UP") =~= seq!['.', 'U', 'P']);
    assert(suffix("DOWN") =~= seq!['.', 'D', 'O', 'W', 'N']);
    assert(suffix("YES") =~= seq!['.', 'Y', 'E', 'S']);
    assert(suffix("NO") =~= seq!['.', 'N', 'O']);
}

/// The complement of the complement of an outcome is that outcome, on the same venue.
pub proof fn law_complement_is_an_involution(s: Seq<char>)
    requires
        is_outcome(s),
    ensures
        complement_text(complement_text(s)) == s,
        complement_text(s) != s,
        is_outcome(complement_text(s)),
        venue_of_text(complement_text(s)) == venue_of_text(s),
{
    lemma_labels();
    let v = venue_of_text(s)->0;
    let y = suffix(v.yes_label);
    let n = suffix(v.no_label);
    if text::has_suffix(s, y) {
        lemma_swap_keeps_head(s, y, n);
        let t = swap_suffix(s, y, n);
        assert(t.last() == t.skip(t.len() - n.len()).last());
        assert(!text::has_suffix(t, y)) by {
            if text::has_suffix(t, y) {
                assert(t.last() == t.skip(t.len() - y.len()).last());
            }
        }
        assert(s.last() == s.skip(s.len() - y.len()).last());
    } else {
        lemma_swap_keeps_head(s, n, y);
        let t = swap_suffix(s, n, y);
        assert(t.last() == t.skip(t.len() - y.len()).last());
        assert(s.last() == s.skip(s.len() - n.len()).last());
    }
}

/// Both outcomes of a market lead to the same market id.
pub proof fn law_complement_keeps_the_market(s: Seq<char>)
    requires
        is_outcome(s),
    ensures
        market_id_text(complement_text(s)) == market_id_text(s),
{
    lemma_labels();
    let v = venue_of_text(s)->0;
    let y = suffix(v.yes_label);
    let n = suffix(v.no_label);
    if text::has_suffix(s, y) {
        lemma_swap_keeps_market(s, y, n);
    } else {
        lemma_swap_keeps_market(s, n, y);
    }
}

proof fn lemma_swap_keeps_market(s: Seq<char>, from: Seq<char>, to: Seq<char>)
    requires
        text::has_suffix(s, from),
        from.len() > 0,
        from[0] == '.',
        forall|i: int| 0 < i < from.len() ==> from[i] != '.',
        to.len() > 0,
        to[0] == '.',
        forall|i: int| 0 < i < to.len() ==> to[i] != '.',
    ensures
        market_id_text(swap_suffix(s, from, to)) == market_id_text(s),
{
    lemma_swap_keeps_head(s, from, to);
    let t = swap_suffix(s, from, to);
    let i = text::first_at(s, '.');
    let n = s.len() - from.len();
    text::lemma_first_at_range(s, '.');
    text::lemma_first_at_range(t, '.');
    assert(s[n] == from[0]) by {
        assert(s.skip(n)[0] == s[n]);
    }
    assert(t[n] == to[0]);
    if venue_of_text(s) is Some {
        assert(i <= n);
        let a = s.skip(i + 1);
        let b = t.skip(i + 1);
        assert forall|j: int| n < j < s.len() implies s[j] != '.' by {
            assert(s.skip(n)[j - n] == s[j]);
        }
        assert forall|j: int| n < j < t.len() implies t[j] != '.' by {
            assert(t[j] == to[j - n]);
        }
        if i == n {
            assert forall|j: int| -1 < j < a.len() implies a[j] != '.' by {
                assert(a[j] == s[j + i + 1]);
            }
            assert forall|j: int| -1 < j < b.len() implies b[j] != '.' by {
                assert(b[j] == t[j + i + 1]);
            }
            text::lemma_last_at(a, '.', -1);
            text::lemma_last_at(b, '.', -1);
        } else {
            let k = n - i - 1;
            assert forall|j: int| k < j < a.len() implies a[j] != '.' by {
                assert(a[j] == s[j + i + 1]);
            }
            assert forall|j: int| k < j < b.len() implies b[j] != '.' by {
                assert(b[j] == t[j + i + 1]);
            }
            text::lemma_last_at(a, '.', k);
            text::lemma_last_at(b, '.', k);
            assert(a.take(k) =~= b.take(k));
        }
    }
}

/// Taking the yes side leads to the same instrument from either outcome.
pub proof fn law_yes_side_of_either_outcome(s: Seq<char>)
    requires
        is_outcome(s),
    ensures
        yes_text(complement_text(s)) == yes_text(s),
{
    law_complement_is_an_involution(s);
    lemma_labels();
    let v = venue_of_text(s)->0;
    let y = suffix(v.yes_label);
    let n = suffix(v.no_label);
    if text::has_suffix(s, y) {
        lemma_swap_keeps_head(s, y, n);
        let t = swap_suffix(s, y, n);
        assert(t.last() == t.skip(t.len() - n.len()).last());
        if text::has_suffix(t, y) {
            assert(t.last() == t.skip(t.len() - y.len()).last());
        }
    } else {
        lemma_swap_keeps_head(s, n, y);
    }
}

proof fn lemma_named_outcome(v: Seq<char>, id: Seq<char>, label: Seq<char>)
    requires
        forall|i: int| 0 <= i < v.len() ==> v[i] != '.',
        forall|i: int| 0 <= i < label.len() ==> label[i] != '.',
    ensures
        ({
            let s = v + seq!['.'] + id + seq!['.'] + label;
            &&& text::first_at(s, '.') == v.len()
            &&& s.take(v.len() as int) == v
            &&& text::has_suffix(s, seq!['.'] + label)
            &&& s.take(s.len() - (seq!['.'] + label).len()) == v + seq!['.'] + id
            &&& text::last_at(s.skip(v.len() as int + 1), '.') == id.len()
            &&& s.skip(v.len() as int + 1).take(id.len() as int) == id
        }),
{
    let s = v + seq!['.'] + id + seq!['.'] + label;
    let n = v.len() as int;
    assert forall|j: int| 0 <= j < n implies s[j] != '.' by {
        assert(s[j] == v[j]);
    }
    assert(s[n] == '.');
    text::lemma_first_at(s, '.', n);
    assert(s.take(n) =~= v);
    assert(s.skip(s.len() - (seq!['.'] + label).len()) =~= seq!['.'] + label);
    assert(s.take(s.len() - (seq!['.'] + label).len()) =~= v + seq!['.'] + id);
    let rest = s.skip(n + 1);
    assert(rest =~= id + seq!['.'] + label);
    let k = id.len() as int;
    assert forall|j: int| k < j < rest.len() implies rest[j] != '.' by {
        assert(rest[j] == label[j - k - 1]);
    }
    text::lemma_last_at(rest, '.', k);
    assert(rest.take(k) =~= id);
}

proof fn lemma_other_label(stem: Seq<char>, a: Seq<char>, b: Seq<char>)
    requires
        a.len() > 0,
        b.len() > 0,
        a.last() != b.last(),
    ensures
        !text::has_suffix(stem + seq!['.'] + a, seq!['.'] + b),
{
    let s = stem + seq!['.'] + a;
    let p = seq!['.'] + b;
    if text::has_suffix(s, p) {
        assert(s.skip(s.len() - p.len()).last() == p.last());
        assert(s.last() == a.last());
    }
}

/// The outcomes of a market at each venue, by their names: which is the other one, which is
/// the yes side, what the market is, and which one a signal buys: the yes side on the way
/// up, the no side on the way down.
pub proof fn law_outcomes_by_name(id: Seq<char>, direction: i8)
    ensures
        ({
            let yes = "kalshi"@ + seq!['.'] + id + seq!['.'] + "YES"@;
            let no = "kalshi"@ + seq!['.'] + id + seq!['.'] + "NO"@;
            &&& complement_text(yes) == no
            &&& complement_text(no) == yes
            &&& yes_text(yes) == yes
            &&& yes_text(no) == yes
            &&& market_id_text(yes) == Some(id)
            &&& market_id_text(no) == Some(id)
            &&& traded_text(yes, direction) == if direction < 0 {
                no
            } else {
                yes
            }
            &&& traded_text(no, direction) == no
            &&& venue_of_text(yes) matches Some(v) && v.taker_delay_ms == 0
        }),
        ({
            let up = "polymarket"@ + seq!['.'] + id + seq!['.'] + "UP"@;
            let down = "polymarket"@ + seq!['.'] + id + seq!['.'] + "DOWN"@;
            &&& complement_text(up) == down
            &&& complement_text(down) == up
            &&& yes_text(up) == up
            &&& yes_text(down) == up
            &&& market_id_text(up) == Some(id)
            &&& market_id_text(down) == Some(id)
            &&& traded_text(up, direction) == if direction < 0 {
                down
            } else {
                up
            }
            &&& traded_text(down, direction) == down
            &&& venue_of_text(up) matches Some(v) && v.taker_delay_ms == 250
        }),
{
    reveal_strlit("kalshi");
    reveal_strlit("polymarket");
    reveal_strlit("YES");
    reveal_strlit("NO");
    reveal_strlit("UP");
    reveal_strlit("DOWN");
    lemma_named_outcome("kalshi"@, id, "YES"@);
    lemma_named_outcome("kalshi"@, id, "NO"@);
    lemma_named_outcome("polymarket"@, id, "UP"@);
    lemma_named_outcome("polymarket"@, id, "DOWN"@);
    let k = "kalshi"@ + seq!['.'] + id;
    let p = "polymarket"@ + seq!['.'] + id;
    lemma_other_label(k, "NO"@, "YES"@);
    lemma_other_label(k, "YES"@, "NO"@);
    lemma_other_label(p, "DOWN"@, "UP"@);
    lemma_other_label(p, "UP"@, "DOWN"@);
    assert("kalshi"@[0] != "polymarket"@[0]);
    assert(k + (seq!['.'] + "YES"@) =~= k + seq!['.'] + "YES"@);
    assert(k + (seq!['.'] + "NO"@) =~= k + seq!['.'] + "NO"@);
    assert(p + (seq!['.'] + "UP"@) =~= p + seq!['.'] + "UP"@);
    assert(p + (seq!['.'] + "DOWN"@) =~= p + seq!['.'] + "DOWN"@);
}

} // verus!
