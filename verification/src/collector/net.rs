//! Addresses and pauses.
use vstd::prelude::*;
use crate::event::Event;
use crate::numeral;
use crate::numeral::parse_unsigned;
use crate::text;
use crate::text::{chars_of, find_char, find_text, starts_with, string_of_range};

verus! {

/// The port that a text spells; 443 where it spells none.
pub open spec fn port_of(s: Seq<char>) -> u16 {
    match numeral::unsigned_value(s) {
        Some(p) => if p <= 65_535 {
            p as u16
        } else {
            443
        },
        None => 443,
    }
}

/// The host and the port at the front of an address without its scheme.
pub open spec fn host_and_port(rest: Seq<char>) -> (Seq<char>, u16) {
    let part = rest.take(text::first_at(rest, '/'));
    let i = text::first_at(part, ':');
    if i < part.len() {
        (part.take(i), port_of(part.skip(i + 1)))
    } else {
        (part, 443)
    }
}

/// An address without its web-socket scheme.
pub open spec fn without_scheme(s: Seq<char>) -> Seq<char> {
    if text::has_prefix(s, "wss://"@) {
        s.skip(6)
    } else if text::has_prefix(s, "ws://"@) {
        s.skip(5)
    } else {
        s
    }
}

/// The part of an address behind its first `://`, up to a second one; all of it where it
/// has none.
pub open spec fn behind_scheme(s: Seq<char>) -> Seq<char> {
    let i = text::first_text(s, "://"@);
    if i < s.len() {
        let rest = s.skip(i + 3);
        rest.take(text::first_text(rest, "://"@))
    } else {
        s
    }
}

fn split_host(v: &Vec<char>, from: usize, to: usize) -> (r: (String, u16))
    requires
        from <= to <= v@.len(),
    ensures
        (r.0@, r.1) == host_and_port(v@.subrange(from as int, to as int)),
{
    let ghost rest = v@.subrange(from as int, to as int);
    let whole = string_of_range(v, from, to);
    let w = chars_of(whole.as_str());
    assert(w@ =~= rest);
    let n = find_char(&w, 0, '/');
    assert(w@.skip(0) =~= w@);
    let part = string_of_range(&w, 0, n);
    let p = chars_of(part.as_str());
    assert(p@ =~= rest.take(n as int));
    let i = find_char(&p, 0, ':');
    assert(p@.skip(0) =~= p@);
    if i < p.len() {
        let host = string_of_range(&p, 0, i);
        let tail = string_of_range(&p, i + 1, p.len());
        assert(host@ =~= p@.take(i as int));
        assert(tail@ =~= p@.skip(i + 1));
        let port: u16 = match parse_unsigned(tail.as_str(), 65_535) {
            Some(x) => x as u16,
            None => 443,
        };
        (host, port)
    } else {
        (part, 443)
    }
}

/// The host and the port of a web-socket address.
pub fn host_port(ws_base: &str) -> (r: (String, u16))
    ensures
        (r.0@, r.1) == host_and_port(without_scheme(ws_base@)),
{
    let v = chars_of(ws_base);
    proof {
        reveal_strlit("wss://");
        reveal_strlit("ws://");
    }
    let from: usize = if starts_with(ws_base, "wss://") {
        6
    } else if starts_with(ws_base, "ws://") {
        5
    } else {
        0
    };
    assert(v@.subrange(from as int, v@.len() as int) =~= without_scheme(ws_base@));
    split_host(&v, from, v.len())
}

/// The host and the port of an address of any scheme.
pub fn url_host_port(url: &str) -> (r: (String, u16))
    ensures
        (r.0@, r.1) == host_and_port(behind_scheme(url@)),
{
    let v = chars_of(url);
    let q = chars_of("://");
    proof {
        reveal_strlit("://");
    }
    let i = find_text(&v, 0, &q);
    assert(v@.skip(0) =~= v@);
    if i < v.len() {
        proof {
            lemma_first_text(v@, q@);
        }
        let j = find_text(&v, i + 3, &q);
        assert(v@.subrange(i + 3, i + 3 + j) =~= behind_scheme(url@));
        split_host(&v, i + 3, i + 3 + j)
    } else {
        assert(v@.subrange(0, v@.len() as int) =~= behind_scheme(url@));
        split_host(&v, 0, v.len())
    }
}

/// Where a text is found, it stands there.
proof fn lemma_first_text(s: Seq<char>, p: Seq<char>)
    ensures
        text::first_text(s, p) < s.len() ==> text::has_prefix(
            s.skip(text::first_text(s, p)),
            p,
        ),
        0 <= text::first_text(s, p) <= s.len(),
    decreases s.len(),
{
    if text::has_prefix(s, p) || s.len() == 0 {
        assert(s.skip(0) =~= s);
    } else {
        lemma_first_text(s.skip(1), p);
        let i = text::first_text(s.skip(1), p);
        assert(s.skip(1).skip(i) =~= s.skip(1 + i));
    }
}

/// The pause after one of `ms`: twice as long, up to `max_ms`.
pub fn doubled(ms: u64, max_ms: u64) -> (r: u64)
    ensures
        r == if 2 * ms < max_ms {
            2 * ms
        } else {
            max_ms as int
        },
{
    if (2 * ms as u128) < max_ms as u128 {
        2 * ms
    } else {
        max_ms
    }
}

/// The number that is handed out `n` numbers after `s`; after the last one comes the first.
pub open spec fn counted(s: u64, n: int) -> u64 {
    ((s + n) % 0x1_0000_0000_0000_0000) as u64
}

/// Whether events carry the numbers from `s` on.
pub open spec fn numbered(evs: Seq<Event>, s: u64) -> bool {
    forall|i: int| 0 <= i < evs.len() ==> (#[trigger] evs[i]).seq == counted(s, i)
}

/// Whether events carry the numbers from `s` on, and `next` is the number after theirs.
pub open spec fn counted_up(evs: Seq<Event>, s: u64, next: u64) -> bool {
    numbered(evs, s) && next == counted(s, evs.len() as int)
}

/// Hands out a number and moves on; after the last one comes the first.
pub fn nxt(seq: &mut u64) -> (r: u64)
    ensures
        r == *old(seq),
        *final(seq) == counted(*old(seq), 1),
{
    let v: u64 = *seq;
    *seq = if v == u64::MAX {
        0
    } else {
        v + 1
    };
    v
}

/// The host and the port of an address: the port behind the colon where there is one, and
/// else that of a secure socket.
pub proof fn law_hosts_and_ports(host: Seq<char>, path: Seq<char>)
    requires
        forall|i: int| 0 <= i < host.len() ==> #[trigger] host[i] != '/' && host[i] != ':',
    ensures
        host_and_port(host + seq!['/'] + path) == (host, 443u16),
        host_and_port(host) == (host, 443u16),
{
    let s = host + seq!['/'] + path;
    let n = host.len() as int;
    assert forall|j: int| 0 <= j < n implies s[j] != '/' by {
        assert(s[j] == host[j]);
    }
    assert(s[n] == '/');
    text::lemma_first_at(s, '/', n);
    text::lemma_first_at(host, '/', n);
    assert(s.take(n) =~= host);
    assert(host.take(n) =~= host);
    text::lemma_first_at(host, ':', n);
}

/// Numbers go up by one, and after the last one comes the first.
pub proof fn law_numbers_go_up_by_one(s: u64, n: int)
    requires
        0 <= n,
    ensures
        s + n <= u64::MAX ==> counted(s, n) == s + n,
        counted(s, 0) == s,
        counted(u64::MAX, 1) == 0,
{
}

} // verus!
