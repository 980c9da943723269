//! Byte-level text primitives: runs, whitespace tokens, lines and decimals.
use vstd::prelude::*;

verus! {

/// The byte classes at which a run of bytes stops.
#[derive(Clone, Copy, Debug, PartialEq, Eq, Structural)]
pub enum Stop {
    Space,
    Newline,
    Colon,
}

/// ASCII whitespace, as `char::is_whitespace` has it for single bytes.
pub open spec fn is_space(b: u8) -> bool {
    b == 32 || (9 <= b && b <= 13)
}

impl Stop {
    pub open spec fn spec_matches(self, b: u8) -> bool {
        match self {
            Stop::Space => is_space(b),
            Stop::Newline => b == 10,
            Stop::Colon => b == 58,
        }
    }

    pub fn matches(&self, b: u8) -> (r: bool)
        ensures
            r == self.spec_matches(b),
    {
        match self {
            Stop::Space => b == 32 || (9 <= b && b <= 13),
            Stop::Newline => b == 10,
            Stop::Colon => b == 58,
        }
    }
}

/// Length of the longest prefix of `s` that holds no byte of class `stop`.
pub open spec fn span(s: Seq<u8>, stop: Stop) -> nat
    decreases s.len(),
{
    if s.len() == 0 || stop.spec_matches(s[0]) {
        0
    } else {
        1 + span(s.drop_first(), stop)
    }
}

/// A prefix of `k` bytes without a `stop` byte, ended by a `stop` byte or by
/// the end of `s`, is the span.
pub proof fn lemma_span_at(s: Seq<u8>, stop: Stop, k: nat)
    requires
        k <= s.len(),
        forall|i: int| 0 <= i < k ==> !stop.spec_matches(#[trigger] s[i]),
        k == s.len() || stop.spec_matches(s[k as int]),
    ensures
        span(s, stop) == k,
    decreases k,
{
    if k > 0 {
        assert(!stop.spec_matches(s[0]));
        let t = s.drop_first();
        assert forall|i: int| 0 <= i < k - 1 implies !stop.spec_matches(#[trigger] t[i]) by {
            assert(t[i] == s[i + 1]);
        }
        if k < s.len() {
            assert(t[k - 1] == s[k as int]);
        }
        lemma_span_at(t, stop, (k - 1) as nat);
    }
}

/// Index of the first byte of class `stop` at or after `start`, or the length.
pub fn run_end(s: &[u8], start: usize, stop: Stop) -> (r: usize)
    requires
        start <= s@.len(),
    ensures
        start <= r <= s@.len(),
        r - start == span(s@.subrange(start as int, s@.len() as int), stop),
{
    let mut i: usize = start;
    while i < s.len() && !stop.matches(s[i])
        invariant
            start <= i <= s@.len(),
            forall|j: int| start <= j < i ==> !stop.spec_matches(#[trigger] s@[j]),
        decreases s@.len() - i,
    {
        i = i + 1;
    }
    proof {
        let t = s@.subrange(start as int, s@.len() as int);
        assert forall|j: int| 0 <= j < i - start implies !stop.spec_matches(#[trigger] t[j]) by {
            assert(t[j] == s@[start + j]);
        }
        if i < s@.len() {
            assert(t[i - start] == s@[i as int]);
        }
        lemma_span_at(t, stop, (i - start) as nat);
    }
    i
}

/// The views of a sequence of byte vectors.
pub open spec fn views(v: Seq<Vec<u8>>) -> Seq<Seq<u8>> {
    v.map_values(|x: Vec<u8>| x@)
}

/// The maximal runs of non-whitespace bytes of `s`, in order.
pub open spec fn tokens(s: Seq<u8>) -> Seq<Seq<u8>>
    decreases s.len(),
{
    if s.len() == 0 {
        seq![]
    } else if is_space(s[0]) {
        tokens(s.drop_first())
    } else {
        let w = span(s, Stop::Space);
        if 0 < w <= s.len() {
            seq![s.take(w as int)] + tokens(s.skip(w as int))
        } else {
            seq![]
        }
    }
}

/// The pieces of `s` between newline bytes; a final newline ends the last
/// piece and opens no new one.
pub open spec fn lines(s: Seq<u8>) -> Seq<Seq<u8>>
    decreases s.len(),
{
    if s.len() == 0 {
        seq![]
    } else {
        let k = span(s, Stop::Newline);
        if k < s.len() {
            seq![s.take(k as int)] + lines(s.skip(k + 1 as int))
        } else {
            seq![s]
        }
    }
}

/// A copy of the bytes `s[a..b]`.
pub fn copy_range(s: &[u8], a: usize, b: usize) -> (r: Vec<u8>)
    requires
        a <= b <= s@.len(),
    ensures
        r@ == s@.subrange(a as int, b as int),
{
    let mut r: Vec<u8> = Vec::new();
    let mut i: usize = a;
    while i < b
        invariant
            a <= i <= b <= s@.len(),
            r@ == s@.subrange(a as int, i as int),
        decreases b - i,
    {
        r.push(s[i]);
        i = i + 1;
        assert(r@ =~= s@.subrange(a as int, i as int));
    }
    r
}

/// Splits `s` at runs of ASCII whitespace.
pub fn split_whitespace(s: &[u8]) -> (r: Vec<Vec<u8>>)
    ensures
        views(r@) == tokens(s@),
{
    let mut out: Vec<Vec<u8>> = Vec::new();
    let mut i: usize = 0;
    assert(s@.skip(0) =~= s@);
    while i < s.len()
        invariant
            i <= s@.len(),
            tokens(s@) == views(out@) + tokens(s@.skip(i as int)),
        decreases s@.len() - i,
    {
        let ghost rest = s@.skip(i as int);
        if Stop::Space.matches(s[i]) {
            assert(rest.drop_first() =~= s@.skip(i + 1));
            i = i + 1;
        } else {
            let e = run_end(s, i, Stop::Space);
            let word = copy_range(s, i, e);
            proof {
                assert(s@.subrange(i as int, s@.len() as int) =~= rest);
                assert(rest.take(e - i) =~= word@);
                assert(rest.skip(e - i) =~= s@.skip(e as int));
                assert(views(out@.push(word)) =~= views(out@).push(word@));
            }
            out.push(word);
            i = e;
        }
    }
    assert(views(out@) + tokens(s@.skip(i as int)) =~= views(out@));
    out
}

/// Splits `s` at newline bytes.
pub fn split_lines(s: &[u8]) -> (r: Vec<Vec<u8>>)
    ensures
        views(r@) == lines(s@),
{
    let mut out: Vec<Vec<u8>> = Vec::new();
    let mut i: usize = 0;
    assert(s@.skip(0) =~= s@);
    while i < s.len()
        invariant
            i <= s@.len(),
            lines(s@) == views(out@) + lines(s@.skip(i as int)),
        decreases s@.len() - i,
    {
        let ghost rest = s@.skip(i as int);
        let e = run_end(s, i, Stop::Newline);
        let piece = copy_range(s, i, e);
        proof {
            assert(s@.subrange(i as int, s@.len() as int) =~= rest);
            assert(views(out@.push(piece)) =~= views(out@).push(piece@));
        }
        out.push(piece);
        if e < s.len() {
            proof {
                assert(rest.take(e - i) =~= piece@);
                assert(rest.skip(e - i + 1) =~= s@.skip(e + 1));
            }
            i = e + 1;
        } else {
            proof {
                assert(rest =~= piece@);
                assert(s@.skip(e as int) =~= Seq::<u8>::empty());
            }
            i = e;
        }
    }
    assert(views(out@) + lines(s@.skip(i as int)) =~= views(out@));
    out
}

pub open spec fn is_digit(b: u8) -> bool {
    48 <= b && b <= 57
}

/// A non-empty run of ASCII digits.
pub open spec fn is_decimal(s: Seq<u8>) -> bool {
    s.len() > 0 && forall|i: int| 0 <= i < s.len() ==> is_digit(#[trigger] s[i])
}

/// The number that a run of ASCII digits writes in base ten.
pub open spec fn digits_value(s: Seq<u8>) -> nat
    decreases s.len(),
{
    if s.len() == 0 {
        0
    } else {
        digits_value(s.drop_last()) * 10 + (s.last() - 48) as nat
    }
}

/// `s` with one trailing newline byte removed, if it ends with one.
pub open spec fn trim_newline(s: Seq<u8>) -> Seq<u8> {
    if s.len() > 0 && s.last() == 10 {
        s.drop_last()
    } else {
        s
    }
}

/// The number written by `s`, if `s` is a run of digits whose value is at
/// most `max`.
pub open spec fn digits_at_most(s: Seq<u8>, max: nat) -> Option<nat> {
    if is_decimal(s) && digits_value(s) <= max {
        Some(digits_value(s))
    } else {
        None
    }
}

/// The number written by `s` as an unsigned integer literal: an optional `+`
/// and then a run of digits, of value at most `max`.
pub open spec fn decimal_at_most(s: Seq<u8>, max: nat) -> Option<nat> {
    if s.len() > 0 && s[0] == 43 {
        digits_at_most(s.drop_first(), max)
    } else {
        digits_at_most(s, max)
    }
}

/// A digit string never writes less than any of its prefixes.
pub proof fn lemma_digits_value_grows(s: Seq<u8>, k: int)
    requires
        0 <= k <= s.len(),
    ensures
        digits_value(s.take(k)) <= digits_value(s),
    decreases s.len() - k,
{
    if k < s.len() {
        lemma_digits_value_grows(s, k + 1);
        assert(s.take(k + 1).drop_last() =~= s.take(k));
    } else {
        assert(s.take(k) =~= s);
    }
}

/// Length of `s` once one trailing newline byte, if any, is removed.
pub fn trimmed_len(s: &[u8]) -> (r: usize)
    ensures
        r <= s@.len(),
        s@.take(r as int) == trim_newline(s@),
{
    let n = s.len();
    if n > 0 && s[n - 1] == 10 {
        assert(s@.take(n - 1) =~= s@.drop_last());
        n - 1
    } else {
        assert(s@.take(n as int) =~= s@);
        n
    }
}

/// Parses the digits `s` as a number no greater than `max`.
fn parse_digits(s: &[u8], max: u64) -> (r: Option<u64>)
    ensures
        r matches Some(v) ==> digits_at_most(s@, max as nat) == Some(v as nat),
        r is None ==> digits_at_most(s@, max as nat) is None,
{
    if s.len() == 0 {
        return None;
    }
    let mut acc: u64 = 0;
    let mut i: usize = 0;
    assert(s@.take(0) =~= Seq::<u8>::empty());
    while i < s.len()
        invariant
            i <= s@.len(),
            acc as nat == digits_value(s@.take(i as int)),
            acc <= max,
            forall|j: int| 0 <= j < i ==> is_digit(#[trigger] s@[j]),
        decreases s@.len() - i,
    {
        let b = s[i];
        assert(s@.take(i + 1).drop_last() =~= s@.take(i as int));
        if b < 48 || b > 57 {
            return None;
        }
        let d = (b - 48) as u64;
        if d > max || acc > (max - d) / 10 {
            proof {
                assert(digits_value(s@.take(i + 1)) > max) by (nonlinear_arith)
                    requires
                        digits_value(s@.take(i + 1)) == acc * 10 + d,
                        d > max || acc > (max - d) / 10,
                ;
                lemma_digits_value_grows(s@, i + 1);
            }
            return None;
        }
        acc = acc * 10 + d;
        i = i + 1;
    }
    assert(s@.take(s@.len() as int) =~= s@);
    Some(acc)
}

/// Parses `s`, an optional `+` and then digits, as a number no greater
/// than `max`.
pub fn parse_decimal(s: &[u8], max: u64) -> (r: Option<u64>)
    ensures
        r matches Some(v) ==> decimal_at_most(s@, max as nat) == Some(v as nat),
        r is None ==> decimal_at_most(s@, max as nat) is None,
{
    if s.len() > 0 && s[0] == 43 {
        let digits = &s[1..s.len()];
        assert(digits@ =~= s@.drop_first());
        parse_digits(digits, max)
    } else {
        parse_digits(s, max)
    }
}

/// The decimal character of the digit `d`.
pub open spec fn digit_char(d: nat) -> char {
    if d == 0 {
        '0'
    } else if d == 1 {
        '1'
    } else if d == 2 {
        '2'
    } else if d == 3 {
        '3'
    } else if d == 4 {
        '4'
    } else if d == 5 {
        '5'
    } else if d == 6 {
        '6'
    } else if d == 7 {
        '7'
    } else if d == 8 {
        '8'
    } else {
        '9'
    }
}

/// `n` written in base ten, without leading zeros.
pub open spec fn decimal(n: nat) -> Seq<char>
    decreases n,
{
    if n < 10 {
        seq![digit_char(n)]
    } else {
        decimal(n / 10) + seq![digit_char(n % 10)]
    }
}

/// The one-character text of the digit `d`.
pub fn digit_text(d: u128) -> (r: &'static str)
    requires
        d < 10,
    ensures
        r@ == seq![digit_char(d as nat)],
{
    proof {
        reveal_strlit("0");
        reveal_strlit("1");
        reveal_strlit("2");
        reveal_strlit("3");
        reveal_strlit("4");
        reveal_strlit("5");
        reveal_strlit("6");
        reveal_strlit("7");
        reveal_strlit("8");
        reveal_strlit("9");
    }
    let r = if d == 0 {
        "0"
    } else if d == 1 {
        "1"
    } else if d == 2 {
        "2"
    } else if d == 3 {
        "3"
    } else if d == 4 {
        "4"
    } else if d == 5 {
        "5"
    } else if d == 6 {
        "6"
    } else if d == 7 {
        "7"
    } else if d == 8 {
        "8"
    } else {
        "9"
    };
    assert(r@ =~= seq![digit_char(d as nat)]);
    r
}

/// Appends `n` in base ten to `out`.
pub fn push_decimal(out: &mut String, n: u128)
    ensures
        final(out)@ == old(out)@ + decimal(n as nat),
    decreases n,
{
    if n >= 10 {
        push_decimal(out, n / 10);
    }
    out.append(digit_text(n % 10));
    assert(final(out)@ =~= old(out)@ + decimal(n as nat));
}

/// Whether two byte strings are equal.
pub fn same_bytes(a: &[u8], b: &[u8]) -> (r: bool)
    ensures
        r == (a@ == b@),
{
    if a.len() != b.len() {
        return false;
    }
    let mut i: usize = 0;
    while i < a.len()
        invariant
            a@.len() == b@.len(),
            i <= a@.len(),
            forall|j: int| 0 <= j < i ==> a@[j] == b@[j],
        decreases a@.len() - i,
    {
        if a[i] != b[i] {
            return false;
        }
        i = i + 1;
    }
    assert(a@ =~= b@);
    true
}

/// A run ends at or before any byte of its class.
pub proof fn lemma_span_before(s: Seq<u8>, stop: Stop, p: int)
    requires
        0 <= p < s.len(),
        stop.spec_matches(s[p]),
    ensures
        span(s, stop) <= p,
    decreases p,
{
    if p > 0 && !stop.spec_matches(s[0]) {
        assert(s.drop_first()[p - 1] == s[p]);
        lemma_span_before(s.drop_first(), stop, p - 1);
    }
}

/// A run that ends inside `a` ends at the same place inside `a + x`.
pub proof fn lemma_span_prefix(a: Seq<u8>, x: Seq<u8>, stop: Stop)
    requires
        span(a, stop) < a.len(),
    ensures
        span(a + x, stop) == span(a, stop),
    decreases a.len(),
{
    assert((a + x)[0] == a[0]);
    if !stop.spec_matches(a[0]) {
        assert((a + x).drop_first() =~= a.drop_first() + x);
        lemma_span_prefix(a.drop_first(), x, stop);
    }
}

/// After a newline, the lines of what follows are lines of their own.
pub proof fn lemma_lines_concat(a: Seq<u8>, x: Seq<u8>)
    requires
        a.len() == 0 || a.last() == 10,
    ensures
        lines(a + x) == lines(a) + lines(x),
    decreases a.len(),
{
    if a.len() == 0 {
        assert(a + x =~= x);
        assert(lines(a) =~= Seq::<Seq<u8>>::empty());
        assert(lines(a) + lines(x) =~= lines(x));
    } else {
        lemma_span_before(a, Stop::Newline, a.len() - 1);
        let k = span(a, Stop::Newline);
        lemma_span_prefix(a, x, Stop::Newline);
        let rest = a.skip(k + 1 as int);
        assert((a + x).take(k as int) =~= a.take(k as int));
        assert((a + x).skip(k + 1 as int) =~= rest + x);
        if rest.len() > 0 {
            assert(rest.last() == a.last());
        }
        lemma_lines_concat(rest, x);
        assert(lines(a + x) =~= lines(a) + lines(x));
    }
}

/// A line with its newline, then more text.
pub proof fn lemma_lines_first(row: Seq<u8>, x: Seq<u8>)
    requires
        forall|i: int| 0 <= i < row.len() ==> row[i] != 10,
    ensures
        lines(row + seq![10u8] + x) == seq![row] + lines(x),
{
    let s = row + seq![10u8] + x;
    assert forall|i: int| 0 <= i < row.len() implies !Stop::Newline.spec_matches(#[trigger] s[i]) by {
        assert(s[i] == row[i]);
    }
    assert(s[row.len() as int] == 10);
    lemma_span_at(s, Stop::Newline, row.len());
    assert(s.take(row.len() as int) =~= row);
    assert(s.skip(row.len() + 1 as int) =~= x);
}

} // verus!
