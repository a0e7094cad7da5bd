//! Decimal numerals: integers as text and back, and decimal fractions read as
//! micro-units (millionths), the fixed-point unit of every price and size here.
use vstd::prelude::*;
use crate::text;
use crate::text::{chars_of, find_char};

verus! {

/// Micro-units per unit.
pub const MICRO: i64 = 1_000_000;

/// Whether `c` is an ASCII decimal digit.
pub open spec fn is_digit(c: char) -> bool {
    '0' <= c <= '9'
}

/// The number that a digit stands for.
pub open spec fn digit(c: char) -> int {
    c as int - '0' as int
}

/// Whether every character is a digit.
pub open spec fn all_digits(s: Seq<char>) -> bool {
    forall|i: int| 0 <= i < s.len() ==> is_digit(#[trigger] s[i])
}

/// The number that a run of digits stands for.
pub open spec fn value(s: Seq<char>) -> int
    decreases s.len(),
{
    if s.len() == 0 {
        0
    } else {
        value(s.drop_last()) * 10 + digit(s.last())
    }
}

/// The digit that stands for `d`.
pub open spec fn digit_char(d: int) -> char {
    (d + 48) as char
}

/// `n` in decimal, without leading zeros.
pub open spec fn dec(n: nat) -> Seq<char>
    decreases n,
{
    if n < 10 {
        seq![digit_char(n as int)]
    } else {
        dec(n / 10).push(digit_char((n % 10) as int))
    }
}

/// `i` in decimal, with a leading minus sign where it is negative.
pub open spec fn int_text(i: int) -> Seq<char> {
    if i < 0 {
        seq!['-'] + dec((-i) as nat)
    } else {
        dec(i as nat)
    }
}

/// A run of zeros.
pub open spec fn zeros(n: nat) -> Seq<char> {
    Seq::new(n, |i: int| '0')
}

/// `n` in decimal, padded on the left with zeros to at least `w` characters.
pub open spec fn padded(n: nat, w: nat) -> Seq<char> {
    if dec(n).len() >= w {
        dec(n)
    } else {
        zeros((w - dec(n).len()) as nat) + dec(n)
    }
}

fn char_of_digit(d: u64) -> (c: char)
    requires
        d < 10,
    ensures
        c == digit_char(d as int),
{
    match d {
        0 => '0',
        1 => '1',
        2 => '2',
        3 => '3',
        4 => '4',
        5 => '5',
        6 => '6',
        7 => '7',
        8 => '8',
        _ => '9',
    }
}

/// Appends `n` in decimal.
pub fn push_u64(s: &mut String, n: u64)
    ensures
        final(s)@ == old(s)@ + dec(n as nat),
    decreases n,
{
    if n >= 10 {
        push_u64(s, n / 10);
    }
    s.push(char_of_digit(n % 10));
    assert(s@ =~= old(s)@ + dec(n as nat));
}

/// Appends `n` in decimal.
pub fn push_u128(s: &mut String, n: u128)
    ensures
        final(s)@ == old(s)@ + dec(n as nat),
    decreases n,
{
    if n >= 10 {
        push_u128(s, n / 10);
    }
    s.push(char_of_digit((n % 10) as u64));
    assert(s@ =~= old(s)@ + dec(n as nat));
}

/// Appends `i` in decimal.
pub fn push_i64(s: &mut String, i: i64)
    ensures
        final(s)@ == old(s)@ + int_text(i as int),
{
    if i < 0 {
        s.push('-');
        let m: u64 = (-(i as i128)) as u64;
        push_u64(s, m);
    } else {
        push_u64(s, i as u64);
    }
    assert(s@ =~= old(s)@ + int_text(i as int));
}

/// `n` in decimal.
pub fn u64_text(n: u64) -> (s: String)
    ensures
        s@ == dec(n as nat),
{
    let mut s = String::new();
    push_u64(&mut s, n);
    assert(s@ =~= dec(n as nat));
    s
}

/// `i` in decimal.
pub fn i64_text(i: i64) -> (s: String)
    ensures
        s@ == int_text(i as int),
{
    let mut s = String::new();
    push_i64(&mut s, i);
    assert(s@ =~= int_text(i as int));
    s
}

/// Appends `n` in decimal, padded on the left with zeros to at least `w` characters.
pub fn push_padded(s: &mut String, n: u64, w: usize)
    ensures
        final(s)@ == old(s)@ + padded(n as nat, w as nat),
{
    let t = u64_text(n);
    let l: usize = t.as_str().unicode_len();
    let mut k: usize = l;
    while k < w
        invariant
            k >= l,
            k <= w || k == l,
            s@ == old(s)@ + zeros((k - l) as nat),
        decreases w - k,
    {
        s.push('0');
        assert(s@ =~= old(s)@ + zeros((k + 1 - l) as nat));
        k = k + 1;
    }
    s.append(t.as_str());
    assert(s@ =~= old(s)@ + padded(n as nat, w as nat));
}

/// Digits taken away from the end never make the number larger.
pub proof fn lemma_value_take(s: Seq<char>, i: int)
    requires
        all_digits(s),
        0 <= i <= s.len(),
    ensures
        0 <= value(s.take(i)) <= value(s),
    decreases s.len(),
{
    if i == s.len() {
        assert(s.take(i) =~= s);
        if s.len() > 0 {
            lemma_value_take(s.drop_last(), i - 1);
        }
    } else {
        lemma_value_take(s.drop_last(), i);
        assert(s.take(i) =~= s.drop_last().take(i));
    }
}

/// Reads `v[from..to]` as a non-empty run of digits, if it is one and its value fits.
pub fn digits_u64(v: &Vec<char>, from: usize, to: usize) -> (r: Option<u64>)
    requires
        from <= to <= v@.len(),
    ensures
        r == digits_within(v@.subrange(from as int, to as int), u64::MAX as int),
{
    let ghost t = v@.subrange(from as int, to as int);
    if from == to {
        return None;
    }
    let mut acc: u64 = 0;
    let mut i: usize = from;
    while i < to
        invariant
            from <= i <= to <= v@.len(),
            t == v@.subrange(from as int, to as int),
            all_digits(t.take(i - from)),
            acc == value(t.take(i - from)),
        decreases to - i,
    {
        let c: char = v[i];
        let ghost k = i - from;
        assert(t[k] == c);
        assert(t.take(k + 1).drop_last() =~= t.take(k));
        if !('0' <= c && c <= '9') {
            return None;
        }
        assert(all_digits(t.take(k + 1))) by {
            assert(t.take(k + 1) =~= t.take(k).push(c));
        }
        let d: u64 = (c as u32 - '0' as u32) as u64;
        if acc > (u64::MAX - d) / 10 {
            proof {
                assert(value(t.take(k + 1)) > u64::MAX);
                if all_digits(t) {
                    lemma_value_take(t, k + 1);
                }
            }
            return None;
        }
        acc = acc * 10 + d;
        i = i + 1;
    }
    assert(t.take(to - from) =~= t);
    Some(acc)
}

/// A non-empty run of digits whose value is at most `max`.
pub open spec fn digits_within(s: Seq<char>, max: int) -> Option<u64> {
    if s.len() > 0 && all_digits(s) && value(s) <= max {
        Some(value(s) as u64)
    } else {
        None
    }
}

/// The integer that `s` stands for: digits, after an optional sign.
pub open spec fn signed_value(s: Seq<char>) -> Option<int> {
    if s.len() > 0 && (s[0] == '-' || s[0] == '+') {
        let t = s.skip(1);
        if t.len() > 0 && all_digits(t) {
            Some(if s[0] == '-' { -value(t) } else { value(t) })
        } else {
            None
        }
    } else if s.len() > 0 && all_digits(s) {
        Some(value(s))
    } else {
        None
    }
}

/// The natural number that `s` stands for: digits, after an optional plus sign.
pub open spec fn unsigned_value(s: Seq<char>) -> Option<int> {
    let t = if s.len() > 0 && s[0] == '+' { s.skip(1) } else { s };
    if t.len() > 0 && all_digits(t) {
        Some(value(t))
    } else {
        None
    }
}

/// Reads an integer that fits in `i64`.
pub fn parse_i64(s: &str) -> (r: Option<i64>)
    ensures
        match r {
            Some(i) => signed_value(s@) == Some(i as int),
            None => match signed_value(s@) {
                Some(i) => i < i64::MIN || i > i64::MAX,
                None => true,
            },
        },
{
    let v = chars_of(s);
    let n: usize = v.len();
    if n == 0 {
        return None;
    }
    let signed: bool = v[0] == '-' || v[0] == '+';
    let from: usize = if signed { 1 } else { 0 };
    let ghost t = v@.subrange(from as int, n as int);
    proof {
        assert(s@.skip(1) =~= v@.subrange(1, n as int));
        assert(v@.subrange(0, n as int) =~= s@);
        if all_digits(t) {
            lemma_value_take(t, t.len() as int);
        }
    }
    match digits_u64(&v, from, n) {
        None => None,
        Some(m) => {
            if v[0] == '-' {
                if m <= 9223372036854775808 {
                    Some((-(m as i128)) as i64)
                } else {
                    None
                }
            } else if m <= 9223372036854775807 {
                Some(m as i64)
            } else {
                None
            }
        },
    }
}

/// Reads a natural number that is at most `max`.
pub fn parse_unsigned(s: &str, max: u64) -> (r: Option<u64>)
    ensures
        match r {
            Some(i) => unsigned_value(s@) == Some(i as int) && i <= max,
            None => match unsigned_value(s@) {
                Some(i) => i > max,
                None => true,
            },
        },
{
    let v = chars_of(s);
    let n: usize = v.len();
    if n == 0 {
        return None;
    }
    let from: usize = if v[0] == '+' { 1 } else { 0 };
    let ghost t = v@.subrange(from as int, n as int);
    proof {
        assert(s@.skip(1) =~= v@.subrange(1, n as int));
        assert(v@.subrange(0, n as int) =~= s@);
        if all_digits(t) {
            lemma_value_take(t, t.len() as int);
        }
    }
    match digits_u64(&v, from, n) {
        None => None,
        Some(m) => if m <= max {
            Some(m)
        } else {
            None
        },
    }
}

/// What is written as a natural number reads back as that number.
pub proof fn lemma_dec_value(n: nat)
    ensures
        dec(n).len() > 0,
        all_digits(dec(n)),
        value(dec(n)) == n,
        dec(n)[0] != '-',
        dec(n)[0] != '+',
    decreases n,
{
    if n >= 10 {
        lemma_dec_value(n / 10);
        assert(dec(n).drop_last() =~= dec(n / 10));
        assert(dec(n)[0] == dec(n / 10)[0]);
    } else {
        assert(dec(n).drop_last() =~= Seq::<char>::empty());
        assert(dec(n).last() == digit_char(n as int));
        assert(value(Seq::<char>::empty()) == 0);
    }
}

/// An integer written in decimal reads back as that integer.
pub proof fn law_int_text_reads_back(i: int)
    ensures
        signed_value(int_text(i)) == Some(i),
{
    if i < 0 {
        lemma_dec_value((-i) as nat);
        assert(int_text(i).skip(1) =~= dec((-i) as nat));
    } else {
        lemma_dec_value(i as nat);
    }
}

/// Ten to the `n`.
pub open spec fn pow10(n: nat) -> int
    decreases n,
{
    if n == 0 {
        1
    } else {
        10 * pow10((n - 1) as nat)
    }
}

/// A decimal numeral taken apart.
pub struct Numeral {
    pub negative: bool,
    /// The digits before and after the point, in one run.
    pub digits: Seq<char>,
    /// How many of them stand before the point, with the exponent added.
    pub point: int,
}

/// Where the exponent mark stands, or the length if there is none.
pub open spec fn mark_at(s: Seq<char>) -> int {
    let a = text::first_at(s, 'e');
    let b = text::first_at(s, 'E');
    if a <= b {
        a
    } else {
        b
    }
}

/// The numeral that `s` spells: an optional sign, digits with an optional point (at least
/// one digit on one side of it), and an optional exponent.
pub open spec fn numeral(s: Seq<char>) -> Option<Numeral> {
    let signed = s.len() > 0 && (s[0] == '-' || s[0] == '+');
    let body = if signed { s.skip(1) } else { s };
    let e = mark_at(body);
    let mant = body.take(e);
    let whole = whole_part(mant);
    let frac = frac_part(mant);
    let exp = if e < body.len() { signed_value(body.skip(e + 1)) } else { Some(0int) };
    if all_digits(whole + frac) && (whole + frac).len() > 0 && exp is Some {
        Some(
            Numeral {
                negative: s.len() > 0 && s[0] == '-',
                digits: whole + frac,
                point: whole.len() + exp->0,
            },
        )
    } else {
        None
    }
}

/// The fraction `0.d` times ten to the `k`, rounded to the nearest integer, halves up.
pub open spec fn scaled(d: Seq<char>, k: int) -> int {
    if k < 0 {
        0
    } else if k < d.len() {
        value(d.take(k)) + if digit(d[k]) >= 5 {
            1int
        } else {
            0int
        }
    } else {
        value(d) * pow10((k - d.len()) as nat)
    }
}

/// The numeral `s` in micro-units, rounded to the nearest, halves away from zero.
pub open spec fn micros(s: Seq<char>) -> Option<int> {
    match numeral(s) {
        Some(n) => Some(
            if n.negative {
                -scaled(n.digits, n.point + 6)
            } else {
                scaled(n.digits, n.point + 6)
            },
        ),
        None => None,
    }
}

/// Whether some digits are not all zeros.
pub open spec fn not_nothing(d: Seq<char>) -> bool {
    exists|i: int| 0 <= i < d.len() && #[trigger] d[i] != '0'
}

/// The numeral `s` in micro-units as a size: rounded to the nearest, but what is not nothing
/// stays something.
pub open spec fn size_micros(s: Seq<char>) -> Option<int> {
    match (micros(s), numeral(s)) {
        (Some(m), Some(n)) => Some(
            if m != 0 || !not_nothing(n.digits) {
                m
            } else if n.negative {
                -1
            } else {
                1
            },
        ),
        _ => None,
    }
}

proof fn lemma_pow10_pos(n: nat)
    ensures
        pow10(n) >= 1,
    decreases n,
{
    if n > 0 {
        lemma_pow10_pos((n - 1) as nat);
    }
}

/// `scaled(d, k)` where it is at most `max`.
fn scale_digits(d: &Vec<char>, k: i128, max: u64) -> (r: Option<u64>)
    requires
        all_digits(d@),
        max <= 9223372036854775808,
    ensures
        match r {
            Some(m) => m == scaled(d@, k as int) && m <= max,
            None => scaled(d@, k as int) > max,
        },
        scaled(d@, k as int) >= 0,
{
    if k < 0 {
        return Some(0);
    }
    let n: usize = d.len();
    let lead: usize = if k < n as i128 { k as usize } else { n };
    let mut acc: u64 = 0;
    let mut i: usize = 0;
    while i < lead
        invariant
            i <= lead <= n == d@.len(),
            k >= 0,
            lead == if k < n { k as int } else { n as int },
            all_digits(d@),
            acc == value(d@.take(i as int)),
            acc <= max <= 9223372036854775808,
        decreases lead - i,
    {
        let c: char = d[i];
        assert(is_digit(d@[i as int]));
        assert(d@.take(i + 1).drop_last() =~= d@.take(i as int));
        let x: u64 = (c as u32 - '0' as u32) as u64;
        let wide: u128 = acc as u128 * 10 + x as u128;
        if wide > max as u128 {
            proof {
                assert(value(d@.take(i + 1)) > max);
                lemma_value_take(d@.take(lead as int), i + 1);
                assert(d@.take(lead as int).take(i + 1) =~= d@.take(i + 1));
                if k >= n {
                    assert(d@.take(lead as int) =~= d@);
                    lemma_pow10_pos((k - n) as nat);
                    assert(value(d@) * pow10((k - n) as nat) >= value(d@)) by (nonlinear_arith)
                        requires
                            value(d@) >= 0,
                            pow10((k - n) as nat) >= 1,
                    ;
                }
            }
            return None;
        }
        acc = wide as u64;
        i = i + 1;
    }
    if k < n as i128 {
        assert(is_digit(d@[k as int]));
        proof {
            lemma_value_take(d@.take(k as int), k as int);
        }
        if d[k as usize] >= '5' {
            if acc < max {
                return Some(acc + 1);
            } else {
                return None;
            }
        }
        return Some(acc);
    }
    assert(d@.take(n as int) =~= d@);
    if acc == 0 {
        assert(0 * pow10((k - n) as nat) == 0);
        return Some(0);
    }
    let pad: i128 = k - n as i128;
    let mut j: i128 = 0;
    let ghost base = acc as int;
    proof {
        assert(base * pow10(0) == base);
    }
    while j < pad
        invariant
            0 <= j <= pad,
            n == d@.len(),
            pad == k - n,
            base == value(d@),
            0 < base,
            acc == base * pow10(j as nat),
            acc <= max <= 9223372036854775808,
        decreases pad - j,
    {
        let wide: u128 = acc as u128 * 10;
        proof {
            assert(base * pow10((j + 1) as nat) == (base * pow10(j as nat)) * 10) by (nonlinear_arith)
                requires
                    pow10((j + 1) as nat) == 10 * pow10(j as nat),
            ;
        }
        if wide > max as u128 {
            proof {
                lemma_pow10_grows((j + 1) as nat, pad as nat);
                assert(base * pow10((j + 1) as nat) <= base * pow10(pad as nat)) by (nonlinear_arith)
                    requires
                        base > 0,
                        pow10((j + 1) as nat) <= pow10(pad as nat),
                ;
            }
            return None;
        }
        acc = wide as u64;
        j = j + 1;
    }
    Some(acc)
}

proof fn lemma_pow10_grows(a: nat, b: nat)
    requires
        a <= b,
    ensures
        pow10(a) <= pow10(b),
    decreases b,
{
    if a < b {
        lemma_pow10_grows(a, (b - 1) as nat);
        lemma_pow10_pos((b - 1) as nat);
    }
}

/// The digits of a mantissa: those before the point and those after it.
pub open spec fn whole_part(m: Seq<char>) -> Seq<char> {
    m.take(text::first_at(m, '.'))
}

/// The digits of a mantissa after its point.
pub open spec fn frac_part(m: Seq<char>) -> Seq<char> {
    let p = text::first_at(m, '.');
    if p < m.len() {
        m.skip(p + 1)
    } else {
        Seq::empty()
    }
}

/// Reads `v[from..from + e]` as a mantissa: all its digits, and how many stand before
/// the point.
fn mantissa(v: &Vec<char>, from: usize, e: usize) -> (r: Option<(Vec<char>, usize)>)
    requires
        from + e <= v.len(),
    ensures
        ({
            let m = v@.subrange(from as int, from + e);
            let d = whole_part(m) + frac_part(m);
            match r {
                Some((digits, whole)) => all_digits(d) && digits@ == d && whole
                    == whole_part(m).len(),
                None => !all_digits(d),
            }
        }),
{
    let ghost m = v@.subrange(from as int, from + e);
    let ghost p = text::first_at(m, '.');
    let ghost wh = whole_part(m);
    let ghost fr = frac_part(m);
    let mut d: Vec<char> = Vec::new();
    let mut whole: usize = 0;
    let mut pointed: bool = false;
    let mut i: usize = 0;
    proof {
        text::lemma_first_at_range(m, '.');
        assert(m.take(0) =~= Seq::<char>::empty());
    }
    while i < e
        invariant
            i <= e,
            from + e <= v.len(),
            m == v@.subrange(from as int, from + e),
            p == text::first_at(m, '.'),
            0 <= p <= m.len(),
            forall|j: int| 0 <= j < p ==> m[j] != '.',
            p < m.len() ==> m[p] == '.',
            wh == m.take(p),
            wh == whole_part(m),
            fr == frac_part(m),
            pointed == (i > p),
            !pointed ==> d@ == m.take(i as int) && whole == i,
            pointed ==> d@ == wh + fr.take(i - p - 1) && whole == p && p < m.len(),
            all_digits(d@),
        decreases e - i,
    {
        let c: char = v[from + i];
        assert(c == m[i as int]);
        if '0' <= c && c <= '9' {
            d.push(c);
            proof {
                if pointed {
                    assert(fr.take(i - p) =~= fr.take(i - p - 1).push(c));
                    assert(wh + fr.take(i - p) =~= (wh + fr.take(i - p - 1)).push(c));
                } else {
                    assert(m.take(i + 1) =~= m.take(i as int).push(c));
                    assert(i != p);
                }
            }
            if !pointed {
                whole = whole + 1;
            }
        } else if c == '.' && !pointed {
            assert(i == p);
            pointed = true;
            assert(wh + fr.take(0) =~= d@);
        } else {
            proof {
                if pointed {
                    assert(fr[i - p - 1] == c);
                    assert((wh + fr)[i - 1] == c);
                } else {
                    assert(i < p);
                    assert((wh + fr)[i as int] == c);
                }
            }
            return None;
        }
        i = i + 1;
    }
    proof {
        if pointed {
            assert(fr.take(e - p - 1) =~= fr);
        } else {
            assert(p == m.len());
            assert(m.take(e as int) =~= m);
            assert(wh =~= m);
        }
        assert(d@ =~= wh + fr);
    }
    Some((d, whole))
}

/// No numeral that fits in memory can tell exponents beyond this apart.
const FAR: i128 = 1_208_925_819_614_629_174_706_176;

/// An exponent, cut at `FAR`.
spec fn cut(e: int) -> int {
    if e > FAR {
        FAR as int
    } else if e < -FAR {
        -FAR
    } else {
        e
    }
}

/// Reads `v[from..to]` as an exponent, cut at `FAR`.
fn exponent(v: &Vec<char>, from: usize, to: usize) -> (r: Option<i128>)
    requires
        from <= to <= v@.len(),
    ensures
        match (r, signed_value(v@.subrange(from as int, to as int))) {
            (Some(x), Some(e)) => x == cut(e),
            (None, None) => true,
            _ => false,
        },
{
    let ghost s = v@.subrange(from as int, to as int);
    if from == to {
        return None;
    }
    let negative: bool = v[from] == '-';
    let start: usize = if negative || v[from] == '+' { from + 1 } else { from };
    let ghost t = v@.subrange(start as int, to as int);
    proof {
        assert(v@[from as int] == s[0]);
        assert(s.skip(1) =~= v@.subrange(from + 1, to as int));
    }
    if start == to {
        return None;
    }
    assert(start == from ==> t =~= s);
    assert(signed_value(s) == if all_digits(t) {
        Some(if negative {
            -value(t)
        } else {
            value(t)
        })
    } else {
        None
    });
    let mut acc: i128 = 0;
    let mut i: usize = start;
    while i < to
        invariant
            start <= i <= to <= v@.len(),
            s == v@.subrange(from as int, to as int),
            t == v@.subrange(start as int, to as int),
            !all_digits(t) ==> signed_value(s) is None,
            all_digits(t.take(i - start)),
            acc == cut(value(t.take(i - start))),
            0 <= acc <= FAR,
        decreases to - i,
    {
        let c: char = v[i];
        let ghost k = i - start;
        assert(t[k] == c);
        assert(t.take(k + 1).drop_last() =~= t.take(k));
        if !('0' <= c && c <= '9') {
            return None;
        }
        assert(all_digits(t.take(k + 1))) by {
            assert(t.take(k + 1) =~= t.take(k).push(c));
        }
        let d: i128 = (c as u32 - '0' as u32) as i128;
        let next: i128 = acc * 10 + d;
        acc = if next > FAR { FAR } else { next };
        i = i + 1;
    }
    assert(t.take(to - start) =~= t);
    if negative {
        Some(-acc)
    } else {
        Some(acc)
    }
}

/// An exponent beyond `FAR` gives what the one at `FAR` gives: nothing, or more than fits.
proof fn lemma_far_exponent(d: Seq<char>, whole: int, e: int, max: int)
    requires
        all_digits(d),
        0 <= whole <= d.len() <= usize::MAX,
        0 <= max <= 9223372036854775808,
    ensures
        scaled(d, whole + e + 6) == scaled(d, whole + cut(e) + 6) || (scaled(d, whole + e + 6)
            > max && scaled(d, whole + cut(e) + 6) > max),
{
    if e > FAR {
        let a = (whole + FAR + 6 - d.len()) as nat;
        let b = (whole + e + 6 - d.len()) as nat;
        lemma_value_take(d, d.len() as int);
        if value(d) == 0 {
            assert(0 * pow10(a) == 0 && 0 * pow10(b) == 0);
        } else {
            assert(pow10(20) > 9223372036854775808) by {
                reveal_with_fuel(pow10, 21);
            }
            lemma_pow10_grows(20, a);
            lemma_pow10_grows(20, b);
            assert(value(d) * pow10(a) >= pow10(a) && value(d) * pow10(b) >= pow10(b))
                by (nonlinear_arith)
                requires
                    value(d) >= 1,
                    pow10(a) >= 1,
                    pow10(b) >= 1,
            ;
        }
    }
}

/// Reads a decimal numeral in micro-units. `None` where `s` is no numeral or the result
/// does not fit in `i64`.
pub fn parse_micros(s: &str) -> (r: Option<i64>)
    ensures
        match r {
            Some(m) => micros(s@) == Some(m as int),
            None => match micros(s@) {
                Some(m) => m < i64::MIN || m > i64::MAX,
                None => true,
            },
        },
{
    let v = chars_of(s);
    let n: usize = v.len();
    let negative: bool = n > 0 && v[0] == '-';
    let from: usize = if n > 0 && (negative || v[0] == '+') { 1 } else { 0 };
    let ghost body = if from == 1 { s@.skip(1) } else { s@ };
    proof {
        assert(body =~= v@.skip(from as int));
        text::lemma_first_at_range(body, 'e');
        text::lemma_first_at_range(body, 'E');
    }
    let a: usize = find_char(&v, from, 'e');
    let b: usize = find_char(&v, from, 'E');
    let e: usize = if a <= b { a } else { b };
    assert(v@.subrange(from as int, from + e) =~= body.take(e as int));
    match mantissa(&v, from, e) {
        None => None,
        Some((d, whole)) => {
            if d.len() == 0 {
                return None;
            }
            let mut exp: i128 = 0;
            if from + e < n {
                assert(v@.subrange(from + e + 1, n as int) =~= body.skip(e + 1));
                match exponent(&v, from + e + 1, n) {
                    None => {
                        return None;
                    },
                    Some(x) => {
                        exp = x;
                    },
                }
            }
            let max: u64 = if negative { 9223372036854775808 } else { 9223372036854775807 };
            proof {
                if from + e < n {
                    lemma_far_exponent(
                        d@,
                        whole as int,
                        signed_value(body.skip(e + 1))->0,
                        max as int,
                    );
                }
            }
            match scale_digits(&d, whole as i128 + exp + 6, max) {
                None => None,
                Some(m) => if negative {
                    Some((-(m as i128)) as i64)
                } else {
                    Some(m as i64)
                },
            }
        },
    }
}

/// Reads a decimal numeral in micro-units as a size. `None` where `s` is no numeral or the
/// result does not fit in `i64`.
pub fn parse_size(s: &str) -> (r: Option<i64>)
    ensures
        match r {
            Some(m) => size_micros(s@) == Some(m as int),
            None => match size_micros(s@) {
                Some(m) => m < i64::MIN || m > i64::MAX,
                None => true,
            },
        },
{
    let m: i64 = match parse_micros(s) {
        Some(m) => m,
        None => {
            return None;
        },
    };
    if m != 0 {
        return Some(m);
    }
    let v = chars_of(s);
    let n: usize = v.len();
    let negative: bool = n > 0 && v[0] == '-';
    let from: usize = if n > 0 && (negative || v[0] == '+') { 1 } else { 0 };
    let ghost body = if from == 1 { s@.skip(1) } else { s@ };
    proof {
        assert(body =~= v@.skip(from as int));
        text::lemma_first_at_range(body, 'e');
        text::lemma_first_at_range(body, 'E');
    }
    let a: usize = find_char(&v, from, 'e');
    let b: usize = find_char(&v, from, 'E');
    let e: usize = if a <= b { a } else { b };
    assert(v@.subrange(from as int, from + e) =~= body.take(e as int));
    match mantissa(&v, from, e) {
        None => None,
        Some((d, _)) => {
            let ghost all = numeral(s@)->0;
            assert(d@ == all.digits);
            let mut i: usize = 0;
            while i < d.len()
                invariant
                    i <= d@.len(),
                    d@ == all.digits,
                    micros(s@) == Some(0int),
                    numeral(s@) == Some(all),
                    all.negative == negative,
                    forall|j: int| 0 <= j < i ==> d@[j] == '0',
                decreases d@.len() - i,
            {
                if d[i] != '0' {
                    assert(all.digits[i as int] != '0');
                    return Some(if negative { -1 } else { 1 });
                }
                i = i + 1;
            }
            Some(0)
        },
    }
}

/// `x` micro-units in decimal with two places, rounded half away from zero.
pub open spec fn two_places(x: int) -> Seq<char> {
    let m = if x < 0 {
        -x
    } else {
        x
    };
    let c = (m + 5_000) / 10_000;
    (if x < 0 {
        seq!['-']
    } else {
        Seq::<char>::empty()
    }) + dec((c / 100) as nat) + seq!['.'] + padded((c % 100) as nat, 2)
}

/// `x` micro-units in decimal with two places.
pub fn two_places_text(x: i64) -> (s: String)
    ensures
        s@ == two_places(x as int),
{
    let mut s = String::new();
    let m: i128 = if x < 0 {
        s.push('-');
        -(x as i128)
    } else {
        x as i128
    };
    let c: u64 = ((m + 5_000) / 10_000) as u64;
    push_u64(&mut s, c / 100);
    s.push('.');
    push_padded(&mut s, c % 100, 2);
    assert(s@ =~= two_places(x as int));
    s
}

/// The last `w` digits of a fraction that is not zero, without zeros at the end.
pub open spec fn fraction_digits(f: nat, w: nat) -> Seq<char>
    decreases w,
{
    if w > 0 && f % 10 == 0 {
        fraction_digits(f / 10, (w - 1) as nat)
    } else {
        padded(f, w)
    }
}

/// `x` micro-units in decimal, with as many places as it needs.
pub open spec fn micros_text(x: int) -> Seq<char> {
    let m = if x < 0 {
        -x
    } else {
        x
    };
    (if x < 0 {
        seq!['-']
    } else {
        Seq::<char>::empty()
    }) + dec((m / 1_000_000) as nat) + (if m % 1_000_000 == 0 {
        Seq::<char>::empty()
    } else {
        seq!['.'] + fraction_digits((m % 1_000_000) as nat, 6)
    })
}

/// `x` micro-units in decimal, with as many places as it needs.
pub fn micros_to_text(x: i64) -> (s: String)
    ensures
        s@ == micros_text(x as int),
{
    let mut s = String::new();
    let m: i128 = if x < 0 {
        s.push('-');
        -(x as i128)
    } else {
        x as i128
    };
    push_u64(&mut s, (m / 1_000_000) as u64);
    let rest: u64 = (m % 1_000_000) as u64;
    if rest != 0 {
        s.push('.');
        let mut f: u64 = rest;
        let mut w: usize = 6;
        while w > 0 && f % 10 == 0
            invariant
                w <= 6,
                fraction_digits(rest as nat, 6) == fraction_digits(f as nat, w as nat),
            decreases w,
        {
            f = f / 10;
            w = w - 1;
        }
        push_padded(&mut s, f, w);
    }
    assert(s@ =~= micros_text(x as int));
    s
}

/// `x` micro-units in decimal, rounded to a multiple of `unit` of them, half away from zero;
/// `w` is the number of places that leaves.
pub open spec fn rounded(x: int, unit: int, w: nat) -> Seq<char> {
    let m = if x < 0 {
        -x
    } else {
        x
    };
    let c = (m + unit / 2) / unit;
    let per = 1_000_000int / unit;
    (if x < 0 {
        seq!['-']
    } else {
        Seq::<char>::empty()
    }) + dec((c / per) as nat) + seq!['.'] + padded((c % per) as nat, w)
}

/// `x` micro-units in decimal with one place.
pub fn one_place_text(x: i64) -> (s: String)
    ensures
        s@ == rounded(x as int, 100_000, 1),
{
    let mut s = String::new();
    let m: i128 = if x < 0 {
        s.push('-');
        -(x as i128)
    } else {
        x as i128
    };
    let c: u64 = ((m + 50_000) / 100_000) as u64;
    push_u64(&mut s, c / 10);
    s.push('.');
    push_padded(&mut s, c % 10, 1);
    assert(s@ =~= rounded(x as int, 100_000, 1));
    s
}

/// `x` micro-units in decimal with three places.
pub fn three_places_text(x: i64) -> (s: String)
    ensures
        s@ == rounded(x as int, 1_000, 3),
{
    let mut s = String::new();
    let m: i128 = if x < 0 {
        s.push('-');
        -(x as i128)
    } else {
        x as i128
    };
    let c: u64 = ((m + 500) / 1_000) as u64;
    push_u64(&mut s, c / 1_000);
    s.push('.');
    push_padded(&mut s, c % 1_000, 3);
    assert(s@ =~= rounded(x as int, 1_000, 3));
    s
}

/// `x` in decimal with `w` places, where `unit` of it make one in the last place and `per` of
/// those make a whole; rounded half away from zero, and with a plus sign where it is asked for.
pub open spec fn places(x: int, unit: int, per: int, w: nat, plus: bool) -> Seq<char> {
    let m = if x < 0 {
        -x
    } else {
        x
    };
    let c = (m + unit / 2) / unit;
    (if x < 0 {
        seq!['-']
    } else if plus {
        seq!['+']
    } else {
        Seq::<char>::empty()
    }) + dec((c / per) as nat) + seq!['.'] + padded((c % per) as nat, w)
}

/// `x` micro-units in decimal without places, rounded half away from zero.
pub open spec fn whole(x: int) -> Seq<char> {
    if x < 0 {
        seq!['-'] + dec(((-x + 500_000) / 1_000_000) as nat)
    } else {
        dec(((x + 500_000) / 1_000_000) as nat)
    }
}

/// Appends `x` micro-units in decimal without places.
pub fn push_whole(s: &mut String, x: i64)
    ensures
        final(s)@ == old(s)@ + whole(x as int),
{
    let ghost s0 = s@;
    let m: i128 = if x < 0 {
        s.push('-');
        -(x as i128)
    } else {
        x as i128
    };
    push_u64(s, ((m + 500_000) / 1_000_000) as u64);
    assert(s@ =~= s0 + whole(x as int));
}

/// Appends an amount in units of 1e-18 in decimal with four places.
pub fn push_money(s: &mut String, x: i128)
    ensures
        final(s)@ == old(s)@ + places(x as int, 100_000_000_000_000, 10_000, 4, false),
{
    let ghost s0 = s@;
    let m: u128 = if x < 0 {
        s.push('-');
        (-(x + 1)) as u128 + 1
    } else {
        x as u128
    };
    let c: u128 = (m + 50_000_000_000_000) / 100_000_000_000_000;
    push_u128(s, c / 10_000);
    s.push('.');
    push_padded(s, (c % 10_000) as u64, 4);
    assert(s@ =~= s0 + places(x as int, 100_000_000_000_000, 10_000, 4, false));
}

/// Appends `x` in decimal with `w` places.
pub fn push_places(s: &mut String, x: i64, unit: u32, per: u32, w: usize, plus: bool)
    requires
        unit > 1,
        per > 0,
    ensures
        final(s)@ == old(s)@ + places(x as int, unit as int, per as int, w as nat, plus),
{
    let ghost s0 = s@;
    let m: u64 = if x < 0 {
        s.push('-');
        (-(x as i128)) as u64
    } else {
        if plus {
            s.push('+');
        }
        x as u64
    };
    let u: u128 = unit as u128;
    let c: u128 = (m as u128 + u / 2) / u;
    proof {
        let a = m as int + unit as int / 2;
        assert(a / unit as int <= m) by (nonlinear_arith)
            requires
                unit >= 2,
                a == m + unit as int / 2,
                m >= 0,
        ;
    }
    let n: u64 = c as u64;
    push_u64(s, n / per as u64);
    s.push('.');
    push_padded(s, n % per as u64, w);
    assert(s@ =~= s0 + places(x as int, unit as int, per as int, w as nat, plus));
}

/// The number of digits set one behind the other.
proof fn lemma_value_of_two(a: Seq<char>, b: Seq<char>)
    requires
        all_digits(a),
        all_digits(b),
    ensures
        all_digits(a + b),
        value(a + b) == value(a) * pow10(b.len()) + value(b),
        0 <= value(b) < pow10(b.len()),
    decreases b.len(),
{
    let s = a + b;
    assert forall|i: int| 0 <= i < s.len() implies is_digit(#[trigger] s[i]) by {
        if i < a.len() {
            assert(s[i] == a[i]);
        } else {
            assert(s[i] == b[i - a.len()]);
        }
    }
    if b.len() == 0 {
        assert(s =~= a);
    } else {
        let c = b.drop_last();
        assert forall|i: int| 0 <= i < c.len() implies is_digit(#[trigger] c[i]) by {
            assert(c[i] == b[i]);
        }
        lemma_value_of_two(a, c);
        assert(s.drop_last() =~= a + c);
        assert(s.last() == b.last());
        assert(is_digit(b[b.len() - 1]));
        let v = value(a);
        let p = pow10(c.len());
        assert((v * p) * 10 == v * (10 * p)) by (nonlinear_arith);
    }
}

/// Where digits are cut, the number is rounded to the nearest of what is left, halves up.
pub proof fn law_cut_digits_are_rounded(d: Seq<char>, k: int)
    requires
        all_digits(d),
        0 <= k < d.len(),
    ensures
        ({
            let unit = pow10((d.len() - k) as nat);
            2 * value(d) - unit < 2 * (scaled(d, k) * unit) <= 2 * value(d) + unit
        }),
{
    let a = d.take(k);
    let b = d.skip(k);
    let one = b.take(1);
    let c = b.skip(1);
    assert forall|i: int| 0 <= i < a.len() implies is_digit(#[trigger] a[i]) by {
        assert(a[i] == d[i]);
    }
    assert forall|i: int| 0 <= i < b.len() implies is_digit(#[trigger] b[i]) by {
        assert(b[i] == d[i + k]);
    }
    assert forall|i: int| 0 <= i < c.len() implies is_digit(#[trigger] c[i]) by {
        assert(c[i] == b[i + 1]);
    }
    assert(one =~= seq![d[k]]);
    assert(one.drop_last() =~= Seq::empty());
    assert(value(Seq::<char>::empty()) == 0);
    assert(one.last() == d[k]);
    assert(value(one) == value(one.drop_last()) * 10 + digit(one.last()));
    assert(all_digits(one));
    lemma_value_of_two(a, b);
    lemma_value_of_two(one, c);
    assert(a + b =~= d);
    assert(one + c =~= b);
    let h = pow10(c.len());
    let unit = pow10(b.len());
    assert(unit == 10 * h);
    let f = digit(d[k]);
    let v = value(a);
    assert(f >= 5 ==> f * h >= 5 * h) by (nonlinear_arith)
        requires
            h >= 0,
    ;
    assert(f <= 4 ==> f * h <= 4 * h) by (nonlinear_arith)
        requires
            h >= 0,
    ;
    lemma_pow10_pos(c.len());
    assert((v + 1) * unit == v * unit + unit) by (nonlinear_arith);
}

/// Zeros in front count nothing.
proof fn lemma_value_of_padded(n: nat, w: nat)
    ensures
        all_digits(padded(n, w)),
        value(padded(n, w)) == n,
        padded(n, w).len() >= w,
        dec(n).len() <= w ==> padded(n, w).len() == w,
{
    lemma_dec_value(n);
    if dec(n).len() < w {
        let z = zeros((w - dec(n).len()) as nat);
        lemma_value_of_zeros(z.len());
        lemma_value_of_two(z, dec(n));
        let p = pow10(dec(n).len());
        assert(0 * p == 0);
    }
}

/// A run of zeros is nothing.
proof fn lemma_value_of_zeros(n: nat)
    ensures
        all_digits(zeros(n)),
        value(zeros(n)) == 0,
    decreases n,
{
    if n > 0 {
        lemma_value_of_zeros((n - 1) as nat);
        assert(zeros(n).drop_last() =~= zeros((n - 1) as nat));
    }
}

/// A number below a power of ten has no more digits.
proof fn lemma_dec_len(n: nat, w: nat)
    requires
        n < pow10(w),
        w >= 1,
    ensures
        dec(n).len() <= w,
    decreases w,
{
    if n >= 10 {
        assert(w > 1) by {
            if w == 1 {
                assert(pow10(0) == 1);
            }
        }
        lemma_dec_len(n / 10, (w - 1) as nat);
    }
}

/// The digits of a fraction, without the zeros at its end.
proof fn lemma_fraction_digits(f: nat, w: nat)
    requires
        0 < f < pow10(w),
    ensures
        all_digits(fraction_digits(f, w)),
        0 < fraction_digits(f, w).len() <= w,
        value(fraction_digits(f, w)) * pow10((w - fraction_digits(f, w).len()) as nat) == f,
    decreases w,
{
    if w > 0 && f % 10 == 0 {
        lemma_fraction_digits(f / 10, (w - 1) as nat);
        let s = fraction_digits(f, w);
        let n = (w - s.len()) as nat;
        assert(pow10(n) == 10 * pow10((n - 1) as nat));
        let v = value(s);
        let p = pow10((n - 1) as nat);
        assert(v * (10 * p) == 10 * (v * p)) by (nonlinear_arith);
    } else {
        assert(w > 0) by {
            if w == 0 {
                assert(pow10(0) == 1);
            }
        }
        lemma_dec_len(f, w);
        lemma_value_of_padded(f, w);
        assert(pow10(0) == 1);
        let v = value(fraction_digits(f, w));
        assert(v * 1 == v);
    }
}

/// An amount written out in decimal reads back as that amount.
pub proof fn law_micros_text_reads_back(x: int)
    ensures
        micros(micros_text(x)) == Some(x),
{
    let m = if x < 0 {
        -x
    } else {
        x
    };
    let w = (m / 1_000_000) as nat;
    let f = (m % 1_000_000) as nat;
    let a = dec(w);
    let tail = if f == 0 {
        Seq::<char>::empty()
    } else {
        seq!['.'] + fraction_digits(f, 6)
    };
    let fd = if f == 0 {
        Seq::<char>::empty()
    } else {
        fraction_digits(f, 6)
    };
    let body = a + tail;
    let s = micros_text(x);
    lemma_dec_value(w);
    assert(pow10(6) == 1_000_000) by {
        reveal_with_fuel(pow10, 7);
    }
    if f > 0 {
        lemma_fraction_digits(f, 6);
    }
    assert(body[0] == a[0]);
    assert(is_digit(a[0]));
    if x < 0 {
        assert(s =~= seq!['-'] + body);
        assert(s.skip(1) =~= body);
    } else {
        assert(s =~= body);
    }
    assert forall|i: int| 0 <= i < body.len() implies body[i] != 'e' && body[i] != 'E' by {
        if i < a.len() {
            assert(body[i] == a[i]);
            assert(is_digit(a[i]));
        } else {
            assert(body[i] == tail[i - a.len()]);
            if i > a.len() {
                assert(tail[i - a.len()] == fd[i - a.len() - 1]);
                assert(is_digit(fd[i - a.len() - 1]));
            }
        }
    }
    text::lemma_first_at(body, 'e', body.len() as int);
    text::lemma_first_at(body, 'E', body.len() as int);
    assert(body.take(body.len() as int) =~= body);
    assert forall|j: int| 0 <= j < a.len() implies body[j] != '.' by {
        assert(body[j] == a[j]);
        assert(is_digit(a[j]));
    }
    text::lemma_first_at(body, '.', a.len() as int);
    assert(whole_part(body) =~= a);
    assert(frac_part(body) =~= fd);
    assert(all_digits(fd));
    lemma_value_of_two(a, fd);
    let d = a + fd;
    let n = (6 - fd.len()) as nat;
    if f == 0 {
        assert(pow10(0) == 1);
        assert(value(fd) == 0);
        assert(value(d) == w * 1);
        assert(n == 6);
        assert(value(d) * pow10(n) == w * 1_000_000);
    } else {
        let p = pow10(fd.len());
        let q = pow10(n);
        lemma_pow10_splits(fd.len(), n);
        let v = value(fd);
        assert((w * p + v) * q == w * (p * q) + v * q) by (nonlinear_arith);
        assert(fd.len() + n == 6);
        assert(value(d) * q == w * 1_000_000 + f);
    }
    assert(a.len() + 6 - d.len() == n);
    assert(scaled(d, a.len() as int + 6) == value(d) * pow10(n));
}

/// Powers of ten multiply by their exponents.
proof fn lemma_pow10_splits(a: nat, b: nat)
    ensures
        pow10(a) * pow10(b) == pow10(a + b),
    decreases a,
{
    let q = pow10(b);
    if a == 0 {
        assert(1 * q == q);
    } else {
        lemma_pow10_splits((a - 1) as nat, b);
        let p = pow10((a - 1) as nat);
        assert((10 * p) * q == 10 * (p * q)) by (nonlinear_arith);
    }
}

/// A number with so many places is the nearest of that many, halves away from zero, behind
/// its sign.
pub proof fn law_places_round_to_the_nearest(x: int, unit: int, per: int, w: nat, plus: bool)
    requires
        unit > 0,
        unit % 2 == 0,
        per > 0,
    ensures
        ({
            let m = if x < 0 {
                -x
            } else {
                x
            };
            exists|c: nat|
                #![trigger dec((c as int / per) as nat)]
                m - unit / 2 < c * unit <= m + unit / 2 && places(x, unit, per, w, plus) == (
                if x < 0 {
                    seq!['-']
                } else if plus {
                    seq!['+']
                } else {
                    Seq::<char>::empty()
                }) + dec((c as int / per) as nat) + seq!['.'] + padded((c as int % per) as nat, w)
        }),
        two_places(x) == places(x, 10_000, 100, 2, false),
{
    let m = if x < 0 {
        -x
    } else {
        x
    };
    let t = m + unit / 2;
    vstd::arithmetic::div_mod::lemma_fundamental_div_mod(t, unit);
    let c = (t / unit) as nat;
    assert(t / unit >= 0) by (nonlinear_arith)
        requires
            t >= 0,
            unit > 0,
    ;
    assert(c * unit == unit * (t / unit)) by (nonlinear_arith)
        requires
            c == t / unit,
    ;
    assert(dec((c as int / per) as nat) == dec((c as int / per) as nat));
}

} // verus!
