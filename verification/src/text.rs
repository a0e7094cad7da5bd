//! Text handling on character sequences: building, comparing, splitting, and the
//! decimal numerals that venues send as strings.
use vstd::prelude::*;

verus! {

/// `String::push` appends one character.
pub assume_specification[ String::push ](s: &mut String, c: char)
    ensures
        final(s)@ == old(s)@.push(c),
;

/// `==` on two string slices compares their characters.
pub assume_specification[ <str as PartialEq<str>>::eq ](a: &str, b: &str) -> (r: bool)
    ensures
        r == (a@ == b@),
;

/// Whether two texts are the same.
pub fn same(a: &str, b: &str) -> (r: bool)
    ensures
        r == (a@ == b@),
{
    *a == *b
}

/// The characters of `s`, in order.
pub fn chars_of(s: &str) -> (v: Vec<char>)
    ensures
        v@ == s@,
{
    let mut v: Vec<char> = Vec::new();
    for c in it: s.chars()
        invariant
            v@ == it.seq().take(it.index() as int),
            it.seq() == s@,
    {
        proof {
            assert(it.seq().take(it.index() as int).push(c) =~= it.seq().take(it.index() as int + 1));
        }
        v.push(c);
    }
    assert(s@.take(s@.len() as int) =~= s@);
    v
}

/// The string with the characters `v[from..to]`.
pub fn string_of_range(v: &Vec<char>, from: usize, to: usize) -> (s: String)
    requires
        from <= to <= v@.len(),
    ensures
        s@ == v@.subrange(from as int, to as int),
{
    let mut s: String = String::new();
    let mut i: usize = from;
    while i < to
        invariant
            from <= i <= to <= v@.len(),
            s@ == v@.subrange(from as int, i as int),
        decreases to - i,
    {
        s.push(v[i]);
        assert(v@.subrange(from as int, i as int).push(v@[i as int]) =~= v@.subrange(
            from as int,
            i + 1,
        ));
        i = i + 1;
    }
    s
}

/// A new string with the characters of `a` and then those of `b`.
pub fn joined(a: &str, b: &str) -> (s: String)
    ensures
        s@ == a@ + b@,
{
    let mut s: String = String::new();
    s.append(a);
    s.append(b);
    assert(s@ =~= a@ + b@);
    s
}

/// Whether `s` begins with `p`.
pub open spec fn has_prefix(s: Seq<char>, p: Seq<char>) -> bool {
    s.len() >= p.len() && s.take(p.len() as int) == p
}

/// Whether `s` ends with `p`.
pub open spec fn has_suffix(s: Seq<char>, p: Seq<char>) -> bool {
    s.len() >= p.len() && s.skip(s.len() - p.len()) == p
}

/// Whether `s` begins with `p`.
pub fn starts_with(s: &str, p: &str) -> (r: bool)
    ensures
        r == has_prefix(s@, p@),
{
    let v = chars_of(s);
    let q = chars_of(p);
    assert(s@.skip(0) =~= s@);
    range_starts_with(&v, 0, &q)
}

/// Whether the characters of `v` from `from` on begin with `q`.
pub fn range_starts_with(v: &Vec<char>, from: usize, q: &Vec<char>) -> (r: bool)
    requires
        from <= v@.len(),
    ensures
        r == has_prefix(v@.skip(from as int), q@),
{
    if v.len() - from < q.len() {
        return false;
    }
    let ghost t = v@.skip(from as int);
    let mut i: usize = 0;
    while i < q.len()
        invariant
            0 <= i <= q@.len(),
            from + q@.len() <= v.len(),
            t == v@.skip(from as int),
            t.take(i as int) == q@.take(i as int),
        decreases q@.len() - i,
    {
        if v[from + i] != q[i] {
            assert(t[i as int] != q@[i as int]);
            assert(t.take(q@.len() as int)[i as int] != q@[i as int]);
            return false;
        }
        assert(t.take(i + 1) =~= t.take(i as int).push(t[i as int]));
        assert(q@.take(i + 1) =~= q@.take(i as int).push(q@[i as int]));
        i = i + 1;
    }
    assert(q@.take(q@.len() as int) =~= q@);
    true
}

/// Whether `s` ends with `p`.
pub fn ends_with(s: &str, p: &str) -> (r: bool)
    ensures
        r == has_suffix(s@, p@),
{
    let v = chars_of(s);
    let q = chars_of(p);
    if v.len() < q.len() {
        return false;
    }
    let r = range_starts_with(&v, v.len() - q.len(), &q);
    assert(s@.skip(s@.len() - p@.len()).take(p@.len() as int) =~= s@.skip(s@.len() - p@.len()));
    r
}

/// The index of the first `c` in `s`, or the length of `s` if there is none.
pub open spec fn first_at(s: Seq<char>, c: char) -> int
    decreases s.len(),
{
    if s.len() == 0 || s[0] == c {
        0
    } else {
        1 + first_at(s.skip(1), c)
    }
}

/// The index of the last `c` in `s`, or -1 if there is none.
pub open spec fn last_at(s: Seq<char>, c: char) -> int
    decreases s.len(),
{
    if s.len() == 0 {
        -1
    } else if s.last() == c {
        s.len() - 1
    } else {
        last_at(s.drop_last(), c)
    }
}

/// What `first_at` says of a position found by a scan.
pub proof fn lemma_first_at(s: Seq<char>, c: char, i: int)
    requires
        0 <= i <= s.len(),
        forall|j: int| 0 <= j < i ==> s[j] != c,
        i == s.len() || s[i] == c,
    ensures
        first_at(s, c) == i,
    decreases s.len(),
{
    if i > 0 {
        assert(s[0] != c);
        let t = s.skip(1);
        assert forall|j: int| 0 <= j < i - 1 implies t[j] != c by {
            assert(t[j] == s[j + 1]);
        }
        lemma_first_at(t, c, i - 1);
    }
}

/// `first_at` points at the first `c`, or past the end.
pub proof fn lemma_first_at_range(s: Seq<char>, c: char)
    ensures
        0 <= first_at(s, c) <= s.len(),
        forall|j: int| 0 <= j < first_at(s, c) ==> s[j] != c,
        first_at(s, c) < s.len() ==> s[first_at(s, c)] == c,
    decreases s.len(),
{
    if s.len() > 0 && s[0] != c {
        let t = s.skip(1);
        lemma_first_at_range(t, c);
        assert forall|j: int| 0 <= j < first_at(s, c) implies s[j] != c by {
            if j > 0 {
                assert(s[j] == t[j - 1]);
            }
        }
    }
}

/// What `last_at` says of a position found by a scan from the end.
pub proof fn lemma_last_at(s: Seq<char>, c: char, i: int)
    requires
        -1 <= i < s.len(),
        forall|j: int| i < j < s.len() ==> s[j] != c,
        i == -1 || s[i] == c,
    ensures
        last_at(s, c) == i,
    decreases s.len(),
{
    if s.len() > 0 && i < s.len() - 1 {
        assert(s.last() != c);
        let t = s.drop_last();
        assert forall|j: int| i < j < t.len() implies t[j] != c by {
            assert(t[j] == s[j]);
        }
        lemma_last_at(t, c, i);
    }
}

/// `last_at` points at the last `c`, or before the start.
pub proof fn lemma_last_at_range(s: Seq<char>, c: char)
    ensures
        -1 <= last_at(s, c) < s.len(),
        forall|j: int| last_at(s, c) < j < s.len() ==> s[j] != c,
        last_at(s, c) >= 0 ==> s[last_at(s, c)] == c,
    decreases s.len(),
{
    if s.len() > 0 && s.last() != c {
        lemma_last_at_range(s.drop_last(), c);
        assert forall|j: int| last_at(s, c) < j < s.len() implies s[j] != c by {
            if j < s.len() - 1 {
                assert(s[j] == s.drop_last()[j]);
            }
        }
    }
}

/// The index of the first `c` in `v[from..]`, counted from `from`; the length of that
/// part if there is none.
pub fn find_char(v: &Vec<char>, from: usize, c: char) -> (r: usize)
    requires
        from <= v@.len(),
    ensures
        r == first_at(v@.skip(from as int), c),
        0 <= r <= v.len() - from,
{
    let n: usize = v.len() - from;
    let ghost t = v@.skip(from as int);
    let mut i: usize = 0;
    while i < n
        invariant
            n == v.len() - from,
            t == v@.skip(from as int),
            0 <= i <= n,
            forall|j: int| 0 <= j < i ==> t[j] != c,
        decreases n - i,
    {
        if v[from + i] == c {
            proof {
                lemma_first_at(t, c, i as int);
            }
            return i;
        }
        i = i + 1;
    }
    proof {
        lemma_first_at(t, c, n as int);
    }
    n
}

/// The index of the last `c` in `v`, if there is one.
pub fn rfind_char(v: &Vec<char>, c: char) -> (r: Option<usize>)
    ensures
        match r {
            Some(i) => i == last_at(v@, c) && i < v@.len(),
            None => last_at(v@, c) == -1,
        },
{
    let mut n: usize = v.len();
    while n > 0
        invariant
            n <= v@.len(),
            forall|j: int| n <= j < v@.len() ==> v@[j] != c,
        decreases n,
    {
        if v[n - 1] == c {
            proof {
                lemma_last_at(v@, c, n - 1);
            }
            return Some(n - 1);
        }
        n = n - 1;
    }
    proof {
        lemma_last_at(v@, c, -1);
    }
    None
}

/// `s` cut at every `c`: the parts between them, in order. There is always at least one.
pub open spec fn split_on(s: Seq<char>, c: char) -> Seq<Seq<char>>
    decreases s.len(),
{
    let i = first_at(s, c);
    if 0 <= i < s.len() {
        seq![s.take(i)] + split_on(s.skip(i + 1), c)
    } else {
        seq![s]
    }
}

/// The views of a vector of strings.
pub open spec fn views(v: Seq<String>) -> Seq<Seq<char>> {
    Seq::new(v.len(), |i: int| v[i]@)
}

/// `s` cut at every `c`.
pub fn split(s: &str, c: char) -> (r: Vec<String>)
    ensures
        views(r@) == split_on(s@, c),
        r@.len() > 0,
{
    let v = chars_of(s);
    let mut out: Vec<String> = Vec::new();
    let mut at: usize = 0;
    proof {
        assert(s@.skip(0) =~= s@);
        assert(views(out@) + split_on(s@, c) =~= split_on(s@, c));
    }
    loop
        invariant
            v@ == s@,
            at <= v@.len(),
            views(out@) + split_on(v@.skip(at as int), c) == split_on(s@, c),
        decreases v@.len() - at,
    {
        let n = find_char(&v, at, c);
        let part = string_of_range(&v, at, at + n);
        let ghost t = v@.skip(at as int);
        let ghost before = views(out@);
        proof {
            lemma_first_at_range(t, c);
            assert(part@ =~= t.take(n as int));
        }
        out.push(part);
        proof {
            assert(views(out@) =~= before.push(part@));
        }
        if at + n >= v.len() {
            proof {
                assert(part@ =~= t);
                assert(views(out@) =~= before + split_on(t, c));
            }
            return out;
        }
        proof {
            assert(t.skip(n + 1) =~= v@.skip(at + n + 1));
            assert(views(out@) + split_on(v@.skip(at + n + 1), c) =~= before + split_on(t, c));
        }
        at = at + n + 1;
    }
}

/// Whether `p` occurs somewhere in `s`.
pub open spec fn contains(s: Seq<char>, p: Seq<char>) -> bool {
    exists|i: int| 0 <= i <= s.len() && has_prefix(#[trigger] s.skip(i), p)
}

/// Whether `p` occurs somewhere in `s`.
pub fn contains_text(s: &str, p: &str) -> (r: bool)
    ensures
        r == contains(s@, p@),
{
    let v = chars_of(s);
    let q = chars_of(p);
    let mut i: usize = 0;
    loop
        invariant
            v@ == s@,
            q@ == p@,
            i <= v@.len(),
            forall|j: int| 0 <= j < i ==> !has_prefix(#[trigger] s@.skip(j), p@),
        decreases v@.len() - i,
    {
        if range_starts_with(&v, i, &q) {
            assert(has_prefix(s@.skip(i as int), p@));
            return true;
        }
        if i == v.len() {
            return false;
        }
        i = i + 1;
    }
}

/// Whether `c` is white space.
pub open spec fn is_white(c: char) -> bool {
    let n = c as int;
    9 <= n <= 13 || n == 32 || n == 0x85 || n == 0xa0 || n == 0x1680 || 0x2000 <= n <= 0x200a || n
        == 0x2028 || n == 0x2029 || n == 0x202f || n == 0x205f || n == 0x3000
}

/// `s` without the white space in front.
pub open spec fn trim_front(s: Seq<char>) -> Seq<char>
    decreases s.len(),
{
    if s.len() > 0 && is_white(s[0]) {
        trim_front(s.skip(1))
    } else {
        s
    }
}

/// `s` without the white space behind.
pub open spec fn trim_back(s: Seq<char>) -> Seq<char>
    decreases s.len(),
{
    if s.len() > 0 && is_white(s.last()) {
        trim_back(s.drop_last())
    } else {
        s
    }
}

/// `s` without the white space around it.
pub open spec fn trimmed(s: Seq<char>) -> Seq<char> {
    trim_back(trim_front(s))
}

fn white(c: char) -> (r: bool)
    ensures
        r == is_white(c),
{
    let n: u32 = c as u32;
    (9 <= n && n <= 13) || n == 32 || n == 0x85 || n == 0xa0 || n == 0x1680 || (0x2000 <= n && n
        <= 0x200a) || n == 0x2028 || n == 0x2029 || n == 0x202f || n == 0x205f || n == 0x3000
}

/// `s` without the white space around it.
pub fn trim(s: &str) -> (r: String)
    ensures
        r@ == trimmed(s@),
{
    let v = chars_of(s);
    let mut a: usize = 0;
    assert(s@.skip(0) =~= s@);
    while a < v.len() && white(v[a])
        invariant
            v@ == s@,
            a <= v@.len(),
            trim_front(s@) == trim_front(s@.skip(a as int)),
        decreases v@.len() - a,
    {
        assert(s@.skip(a as int)[0] == s@[a as int]);
        assert(s@.skip(a as int).skip(1) =~= s@.skip(a + 1));
        a = a + 1;
    }
    let ghost f = s@.skip(a as int);
    proof {
        if a < v@.len() {
            assert(f[0] == s@[a as int]);
        }
        assert(trim_front(s@) == f);
    }
    let mut b: usize = v.len();
    assert(v@.subrange(a as int, b as int) =~= f);
    while b > a && white(v[b - 1])
        invariant
            v@ == s@,
            a <= b <= v@.len(),
            trim_back(f) == trim_back(v@.subrange(a as int, b as int)),
        decreases b,
    {
        let ghost t = v@.subrange(a as int, b as int);
        assert(t.last() == v@[b - 1]);
        assert(t.drop_last() =~= v@.subrange(a as int, b - 1));
        b = b - 1;
    }
    proof {
        let t = v@.subrange(a as int, b as int);
        if b > a {
            assert(t.last() == v@[b - 1]);
        }
        assert(trim_back(t) == t);
    }
    string_of_range(&v, a, b)
}

/// The index of the first `p` in `s`, or the length of `s` if there is none.
pub open spec fn first_text(s: Seq<char>, p: Seq<char>) -> int
    decreases s.len(),
{
    if has_prefix(s, p) || s.len() == 0 {
        0
    } else {
        1 + first_text(s.skip(1), p)
    }
}

/// The index of the first `q` in the characters of `v` from `from` on, counted from `from`;
/// the length of that part if there is none.
pub fn find_text(v: &Vec<char>, from: usize, q: &Vec<char>) -> (r: usize)
    requires
        from <= v@.len(),
    ensures
        r == first_text(v@.skip(from as int), q@),
        0 <= r <= v@.len() - from,
{
    let ghost t = v@.skip(from as int);
    let n: usize = v.len() - from;
    let mut i: usize = 0;
    assert(t.skip(0) =~= t);
    assert forall|j: int| 0 <= j <= n implies #[trigger] v@.skip(from + j) == t.skip(j) by {
        assert(v@.skip(from + j) =~= t.skip(j));
    }
    while i < n && !range_starts_with(v, from + i, q)
        invariant
            n == v@.len() - from,
            from <= v@.len(),
            n + from <= usize::MAX,
            t == v@.skip(from as int),
            i <= n,
            first_text(t, q@) == i + first_text(t.skip(i as int), q@),
            forall|j: int|
                0 <= j <= n ==> #[trigger] v@.skip(from + j) == t.skip(j),
        decreases n - i,
    {
        assert(v@.skip(from + i) == t.skip(i as int));
        assert(t.skip(i as int).skip(1) =~= t.skip(i + 1));
        i = i + 1;
    }
    assert(v@.skip(from + i) == t.skip(i as int));
    i
}

/// `c` in lower case, where it is an ASCII letter.
pub open spec fn lower(c: char) -> char {
    if 'A' <= c && c <= 'Z' {
        (c as int + 32) as char
    } else {
        c
    }
}

/// `s` with its ASCII letters in lower case.
pub open spec fn lowered(s: Seq<char>) -> Seq<char> {
    Seq::new(s.len(), |i: int| lower(s[i]))
}

fn lower_char(c: char) -> (r: char)
    ensures
        r == lower(c),
{
    match c {
        'A' => 'a',
        'B' => 'b',
        'C' => 'c',
        'D' => 'd',
        'E' => 'e',
        'F' => 'f',
        'G' => 'g',
        'H' => 'h',
        'I' => 'i',
        'J' => 'j',
        'K' => 'k',
        'L' => 'l',
        'M' => 'm',
        'N' => 'n',
        'O' => 'o',
        'P' => 'p',
        'Q' => 'q',
        'R' => 'r',
        'S' => 's',
        'T' => 't',
        'U' => 'u',
        'V' => 'v',
        'W' => 'w',
        'X' => 'x',
        'Y' => 'y',
        'Z' => 'z',
        _ => c,
    }
}

/// `s` with its ASCII letters in lower case.
pub fn lower_ascii(s: &str) -> (r: String)
    ensures
        r@ == lowered(s@),
{
    let v = chars_of(s);
    let mut r = String::new();
    let mut i: usize = 0;
    while i < v.len()
        invariant
            v@ == s@,
            i <= v@.len(),
            r@ == lowered(s@).take(i as int),
        decreases v@.len() - i,
    {
        r.push(lower_char(v[i]));
        assert(lowered(s@).take(i + 1) =~= lowered(s@).take(i as int).push(lower(s@[i as int])));
        i = i + 1;
    }
    assert(lowered(s@).take(s@.len() as int) =~= lowered(s@));
    r
}

/// The index of the last `p` in `s`; -1 if there is none.
pub open spec fn last_text(s: Seq<char>, p: Seq<char>) -> int
    decreases s.len(),
{
    if has_suffix(s, p) {
        s.len() - p.len()
    } else if s.len() == 0 {
        -1
    } else {
        last_text(s.drop_last(), p)
    }
}

/// The index of the last `q` in `v`, if there is one.
pub fn rfind_text(v: &Vec<char>, q: &Vec<char>) -> (r: Option<usize>)
    ensures
        match r {
            Some(i) => last_text(v@, q@) == i && i + q@.len() <= v@.len(),
            None => last_text(v@, q@) == -1,
        },
{
    let n: usize = v.len();
    let m: usize = q.len();
    let mut e: usize = n;
    assert(v@.take(n as int) =~= v@);
    while e >= m
        invariant
            n == v@.len(),
            m == q@.len(),
            e <= n,
            last_text(v@, q@) == last_text(v@.take(e as int), q@),
        decreases e,
    {
        let ghost s = v@.take(e as int);
        let from: usize = e - m;
        let hit = range_starts_with(v, from, q);
        proof {
            assert(s.skip(from as int) =~= v@.skip(from as int).take(m as int));
            assert(hit == has_suffix(s, q@));
        }
        if hit {
            return Some(from);
        }
        if e == 0 {
            return None;
        }
        assert(s.drop_last() =~= v@.take(e - 1));
        e = e - 1;
    }
    proof {
        lemma_no_room(v@.take(e as int), q@);
    }
    None
}

proof fn lemma_no_room(s: Seq<char>, p: Seq<char>)
    requires
        s.len() < p.len(),
    ensures
        last_text(s, p) == -1,
    decreases s.len(),
{
    if s.len() > 0 {
        lemma_no_room(s.drop_last(), p);
    }
}

/// Whether `a` comes before `b`, character by character.
pub open spec fn before(a: Seq<char>, b: Seq<char>) -> bool
    decreases a.len(),
{
    if b.len() == 0 {
        false
    } else if a.len() == 0 {
        true
    } else if a[0] != b[0] {
        (a[0] as int) < (b[0] as int)
    } else {
        before(a.skip(1), b.skip(1))
    }
}

/// Whether `a` comes before `b`, character by character.
pub fn comes_before(a: &str, b: &str) -> (r: bool)
    ensures
        r == before(a@, b@),
{
    let v = chars_of(a);
    let w = chars_of(b);
    let mut i: usize = 0;
    assert(a@.skip(0) =~= a@);
    assert(b@.skip(0) =~= b@);
    while i < v.len() && i < w.len() && v[i] == w[i]
        invariant
            v@ == a@,
            w@ == b@,
            i <= v@.len(),
            i <= w@.len(),
            before(a@, b@) == before(a@.skip(i as int), b@.skip(i as int)),
        decreases v@.len() - i,
    {
        assert(a@.skip(i as int).skip(1) =~= a@.skip(i + 1));
        assert(b@.skip(i as int).skip(1) =~= b@.skip(i + 1));
        i = i + 1;
    }
    if i >= w.len() {
        false
    } else if i >= v.len() {
        true
    } else {
        assert(a@.skip(i as int)[0] == a@[i as int]);
        assert(b@.skip(i as int)[0] == b@[i as int]);
        code(v[i]) < code(w[i])
    }
}

fn code(c: char) -> (r: u32)
    ensures
        r == c as int,
{
    c as u32
}

/// Two texts of which neither comes before the other are the same.
pub proof fn lemma_before_total(a: Seq<char>, b: Seq<char>)
    ensures
        a == b || before(a, b) || before(b, a),
        !(before(a, b) && before(b, a)),
    decreases a.len(),
{
    if a.len() == 0 || b.len() == 0 {
        if a.len() == 0 && b.len() == 0 {
            assert(a =~= b);
        }
    } else {
        lemma_before_total(a.skip(1), b.skip(1));
        if a[0] == b[0] && a.skip(1) == b.skip(1) {
            assert(a =~= seq![a[0]] + a.skip(1));
            assert(b =~= seq![b[0]] + b.skip(1));
        }
    }
}

/// `c` in upper case, where it is an ASCII letter.
pub open spec fn upper(c: char) -> char {
    if 'a' <= c && c <= 'z' {
        (c as int - 32) as char
    } else {
        c
    }
}

/// `s` with its ASCII letters in upper case.
pub open spec fn uppered(s: Seq<char>) -> Seq<char> {
    Seq::new(s.len(), |i: int| upper(s[i]))
}

fn upper_char(c: char) -> (r: char)
    ensures
        r == upper(c),
{
    match c {
        'a' => 'A',
        'b' => 'B',
        'c' => 'C',
        'd' => 'D',
        'e' => 'E',
        'f' => 'F',
        'g' => 'G',
        'h' => 'H',
        'i' => 'I',
        'j' => 'J',
        'k' => 'K',
        'l' => 'L',
        'm' => 'M',
        'n' => 'N',
        'o' => 'O',
        'p' => 'P',
        'q' => 'Q',
        'r' => 'R',
        's' => 'S',
        't' => 'T',
        'u' => 'U',
        'v' => 'V',
        'w' => 'W',
        'x' => 'X',
        'y' => 'Y',
        'z' => 'Z',
        _ => c,
    }
}

/// `s` with its ASCII letters in upper case.
pub fn upper_ascii(s: &str) -> (r: String)
    ensures
        r@ == uppered(s@),
{
    let v = chars_of(s);
    let mut r = String::new();
    let mut i: usize = 0;
    while i < v.len()
        invariant
            v@ == s@,
            i <= v@.len(),
            r@ == uppered(s@).take(i as int),
        decreases v@.len() - i,
    {
        r.push(upper_char(v[i]));
        assert(uppered(s@).take(i + 1) =~= uppered(s@).take(i as int).push(upper(s@[i as int])));
        i = i + 1;
    }
    assert(uppered(s@).take(s@.len() as int) =~= uppered(s@));
    r
}

} // verus!
