//! Character-level helpers: Unicode whitespace, splitting into words,
//! splitting on a separator character, and decimal numbers.

use vstd::prelude::*;

verus! {

/// The Unicode `White_Space` property, which is what `char::is_whitespace`
/// tests.
pub open spec fn is_ws(c: char) -> bool {
    ||| ('\u{9}' <= c && c <= '\u{d}')
    ||| c == ' '
    ||| c == '\u{85}'
    ||| c == '\u{a0}'
    ||| c == '\u{1680}'
    ||| ('\u{2000}' <= c && c <= '\u{200a}')
    ||| c == '\u{2028}'
    ||| c == '\u{2029}'
    ||| c == '\u{202f}'
    ||| c == '\u{205f}'
    ||| c == '\u{3000}'
}

/// Every character of `s` is whitespace (so `s.trim()` is empty).
pub open spec fn all_ws(s: Seq<char>) -> bool {
    forall|i: int| 0 <= i < s.len() ==> is_ws(#[trigger] s[i])
}

/// The words of `s` in the sense of `str::split_whitespace`: the maximal
/// runs of non-whitespace characters, left to right.
pub open spec fn words(s: Seq<char>) -> Seq<Seq<char>>
    decreases s.len(),
{
    if s.len() == 0 {
        Seq::empty()
    } else {
        let w = words(s.drop_last());
        let c = s.last();
        if is_ws(c) {
            w
        } else if s.len() > 1 && !is_ws(s[s.len() - 2]) {
            w.update(w.len() - 1, w.last().push(c))
        } else {
            w.push(seq![c])
        }
    }
}

/// The pieces of `s` between occurrences of `sep`, in the sense of
/// `str::split(sep)`: always one more piece than there are separators.
pub open spec fn split_on(s: Seq<char>, sep: char) -> Seq<Seq<char>>
    decreases s.len(),
{
    if s.len() == 0 {
        seq![Seq::empty()]
    } else {
        let p = split_on(s.drop_last(), sep);
        if s.last() == sep {
            p.push(Seq::empty())
        } else {
            p.update(p.len() - 1, p.last().push(s.last()))
        }
    }
}

/// Number of occurrences of `c` in `s`.
pub open spec fn count_char(s: Seq<char>, c: char) -> nat
    decreases s.len(),
{
    if s.len() == 0 {
        0
    } else {
        count_char(s.drop_last(), c) + if s.last() == c { 1nat } else { 0nat }
    }
}

/// `char::is_whitespace`.
pub fn is_whitespace(c: char) -> (b: bool)
    ensures
        b == is_ws(c),
{
    ('\u{9}' <= c && c <= '\u{d}') || c == ' ' || c == '\u{85}' || c == '\u{a0}' || c
        == '\u{1680}' || ('\u{2000}' <= c && c <= '\u{200a}') || c == '\u{2028}' || c
        == '\u{2029}' || c == '\u{202f}' || c == '\u{205f}' || c == '\u{3000}'
}

/// The characters of `s`, in order.
pub fn to_chars(s: &str) -> (v: Vec<char>)
    ensures
        v@ == s@,
{
    let mut v: Vec<char> = Vec::new();
    for c in it: s.chars()
        invariant
            it.seq() == s@,
            v@ == it.seq().take(it.index() as int),
    {
        v.push(c);
    }
    v
}

/// `spans` lists, in order, the positions in `s` of the given pieces:
/// piece `k` is `s[spans[k].0 .. spans[k].1]`, inside `lo..hi`.
pub open spec fn spans_of(s: Seq<char>, lo: int, hi: int, spans: Seq<(usize, usize)>, pieces: Seq<Seq<char>>) -> bool {
    &&& spans.len() == pieces.len()
    &&& forall|k: int| 0 <= k < spans.len() ==> {
        &&& lo <= (#[trigger] spans[k]).0 <= spans[k].1 <= hi
        &&& s.subrange(spans[k].0 as int, spans[k].1 as int) == pieces[k]
    }
}

/// The positions of the words of `chars[lo..hi]`.
pub fn word_spans(chars: &Vec<char>, lo: usize, hi: usize) -> (spans: Vec<(usize, usize)>)
    requires
        lo <= hi <= chars.len(),
    ensures
        spans_of(chars@, lo as int, hi as int, spans@, words(chars@.subrange(lo as int, hi as int))),
{
    let mut spans: Vec<(usize, usize)> = Vec::new();
    let mut i = lo;
    while i < hi
        invariant
            lo <= i <= hi <= chars.len(),
            spans_of(chars@, lo as int, i as int, spans@, words(chars@.subrange(lo as int, i as int))),
            (i > lo && !is_ws(chars@[i - 1])) ==> spans.len() > 0 && spans@.last().1 == i,
        decreases hi - i,
    {
        let ghost before = chars@.subrange(lo as int, i as int);
        let ghost after = chars@.subrange(lo as int, i + 1);
        assert(after.drop_last() == before);
        let c = chars[i];
        if is_whitespace(c) {
        } else if i > lo && !is_whitespace(chars[i - 1]) {
            assert(after[after.len() - 2] == chars@[i - 1]);
            let last = spans.len() - 1;
            let (a, _) = spans[last];
            spans.set(last, (a, i + 1));
            assert(chars@.subrange(a as int, i + 1) == chars@.subrange(a as int, i as int).push(c));
        } else {
            assert(i > lo ==> after[after.len() - 2] == chars@[i - 1]);
            spans.push((i, i + 1));
            assert(chars@.subrange(i as int, i + 1) == seq![c]);
        }
        i = i + 1;
    }
    spans
}

/// The positions of the pieces of `chars[lo..hi]` between occurrences of
/// `sep`.
pub fn split_spans(chars: &Vec<char>, lo: usize, hi: usize, sep: char) -> (spans: Vec<(usize, usize)>)
    requires
        lo <= hi <= chars.len(),
    ensures
        spans_of(chars@, lo as int, hi as int, spans@, split_on(chars@.subrange(lo as int, hi as int), sep)),
        spans@.len() >= 1,
{
    let mut spans: Vec<(usize, usize)> = Vec::new();
    spans.push((lo, lo));
    let mut i = lo;
    assert(chars@.subrange(lo as int, lo as int) == Seq::<char>::empty());
    while i < hi
        invariant
            lo <= i <= hi <= chars.len(),
            spans_of(chars@, lo as int, i as int, spans@, split_on(chars@.subrange(lo as int, i as int), sep)),
            spans.len() > 0,
            spans@.last().1 == i,
        decreases hi - i,
    {
        let ghost before = chars@.subrange(lo as int, i as int);
        let ghost after = chars@.subrange(lo as int, i + 1);
        assert(after.drop_last() == before);
        let c = chars[i];
        if c == sep {
            spans.push((i + 1, i + 1));
            assert(chars@.subrange(i + 1, i + 1) == Seq::<char>::empty());
        } else {
            let last = spans.len() - 1;
            let (a, _) = spans[last];
            spans.set(last, (a, i + 1));
            assert(chars@.subrange(a as int, i + 1) == chars@.subrange(a as int, i as int).push(c));
        }
        i = i + 1;
    }
    spans
}

/// Whether every character of `chars[lo..hi]` is whitespace.
pub fn blank(chars: &Vec<char>, lo: usize, hi: usize) -> (b: bool)
    requires
        lo <= hi <= chars.len(),
    ensures
        b == all_ws(chars@.subrange(lo as int, hi as int)),
{
    let mut i = lo;
    while i < hi
        invariant
            lo <= i <= hi <= chars.len(),
            forall|j: int| lo <= j < i ==> is_ws(chars@[j]),
        decreases hi - i,
    {
        if !is_whitespace(chars[i]) {
            assert(chars@.subrange(lo as int, hi as int)[i - lo] == chars@[i as int]);
            return false;
        }
        i = i + 1;
    }
    assert forall|j: int| 0 <= j < hi - lo implies is_ws(#[trigger] chars@.subrange(lo as int, hi as int)[j]) by {
        assert(chars@.subrange(lo as int, hi as int)[j] == chars@[lo + j]);
    }
    true
}

pub open spec fn is_digit(c: char) -> bool {
    '0' <= c && c <= '9'
}

pub open spec fn all_digits(s: Seq<char>) -> bool {
    forall|i: int| 0 <= i < s.len() ==> is_digit(#[trigger] s[i])
}

/// The value of an ASCII decimal digit.
pub open spec fn digit_value(c: char) -> nat {
    (c as int - '0' as int) as nat
}

/// The ASCII decimal digit of `d < 10`.
pub open spec fn digit_char(d: nat) -> char {
    seq!['0', '1', '2', '3', '4', '5', '6', '7', '8', '9'][d as int]
}

/// The number that a string of decimal digits denotes.
pub open spec fn digits_value(s: Seq<char>) -> nat
    decreases s.len(),
{
    if s.len() == 0 {
        0
    } else {
        digits_value(s.drop_last()) * 10 + digit_value(s.last())
    }
}

/// What `s.parse::<usize>()` gives back, with its error taken as `None`:
/// an optional `+`, then at least one decimal digit, and a value that fits.
pub open spec fn parse_usize_spec(s: Seq<char>) -> Option<usize> {
    let d = if s.len() > 0 && s[0] == '+' { s.drop_first() } else { s };
    if d.len() > 0 && all_digits(d) && digits_value(d) <= usize::MAX {
        Some(digits_value(d) as usize)
    } else {
        None
    }
}

/// The decimal representation of `n`, as `n.to_string()` writes it.
pub open spec fn decimal(n: nat) -> Seq<char>
    decreases n,
{
    if n < 10 {
        seq![digit_char(n)]
    } else {
        decimal(n / 10).push(digit_char(n % 10))
    }
}

proof fn lemma_digit_char(d: nat)
    requires
        d < 10,
    ensures
        is_digit(digit_char(d)),
        digit_value(digit_char(d)) == d,
{
}

proof fn lemma_digits_value_prefix(s: Seq<char>, k: int)
    requires
        0 <= k <= s.len(),
    ensures
        digits_value(s.take(k)) <= digits_value(s),
    decreases s.len(),
{
    if k < s.len() {
        assert(s.drop_last().take(k) == s.take(k));
        lemma_digits_value_prefix(s.drop_last(), k);
    } else {
        assert(s.take(k) == s);
    }
}

/// The decimal representation of a number consists of digits, and reads
/// back as that number.
pub proof fn lemma_decimal_value(n: nat)
    ensures
        decimal(n).len() > 0,
        all_digits(decimal(n)),
        digits_value(decimal(n)) == n,
    decreases n,
{
    if n < 10 {
        lemma_digit_char(n);
        assert(decimal(n).drop_last() == Seq::<char>::empty());
        assert(digits_value(Seq::<char>::empty()) == 0);
    } else {
        lemma_decimal_value(n / 10);
        lemma_digit_char(n % 10);
        let s = decimal(n);
        assert(s.drop_last() == decimal(n / 10));
        assert(s.last() == digit_char(n % 10));
        assert(digits_value(s) == digits_value(decimal(n / 10)) * 10 + digit_value(digit_char(n % 10)));
        assert(n == (n / 10) * 10 + n % 10) by (nonlinear_arith);
        assert forall|i: int| 0 <= i < s.len() implies is_digit(#[trigger] s[i]) by {
            if i < s.len() - 1 {
                assert(s[i] == decimal(n / 10)[i]);
            }
        }
    }
}

/// Parsing what `format_usize` writes gives back the same number: the
/// job ids that `jobs` prints are the ids that `kill %id` accepts.
pub proof fn lemma_parse_decimal(n: usize)
    ensures
        parse_usize_spec(decimal(n as nat)) == Some(n),
{
    lemma_decimal_value(n as nat);
    assert(is_digit(decimal(n as nat)[0]));
}

/// `chars[lo..hi].parse::<usize>().ok()`.
pub fn parse_usize(chars: &Vec<char>, lo: usize, hi: usize) -> (r: Option<usize>)
    requires
        lo <= hi <= chars.len(),
    ensures
        r == parse_usize_spec(chars@.subrange(lo as int, hi as int)),
{
    let ghost s = chars@.subrange(lo as int, hi as int);
    let start = if lo < hi && chars[lo] == '+' { lo + 1 } else { lo };
    let ghost d = chars@.subrange(start as int, hi as int);
    assert(d == if s.len() > 0 && s[0] == '+' { s.drop_first() } else { s });
    if start == hi {
        return None;
    }
    let mut value: usize = 0;
    let mut i = start;
    assert(chars@.subrange(start as int, start as int) == Seq::<char>::empty());
    while i < hi
        invariant
            lo <= start <= i <= hi <= chars.len(),
            d == chars@.subrange(start as int, hi as int),
            s == chars@.subrange(lo as int, hi as int),
            d == if s.len() > 0 && s[0] == '+' { s.drop_first() } else { s },
            all_digits(chars@.subrange(start as int, i as int)),
            value == digits_value(chars@.subrange(start as int, i as int)),
        decreases hi - i,
    {
        let c = chars[i];
        let ghost prefix = chars@.subrange(start as int, i + 1);
        assert(prefix.drop_last() == chars@.subrange(start as int, i as int));
        assert(prefix == d.take(i + 1 - start));
        if !('0' <= c && c <= '9') {
            assert(d[i - start] == c);
            assert(!is_digit(d[i - start]));
            return None;
        }
        let digit = (c as u32 - '0' as u32) as usize;
        assert(digits_value(prefix) == value * 10 + digit_value(c));
        assert(digit == digit_value(c));
        match value.checked_mul(10) {
            None => {
                proof { lemma_digits_value_prefix(d, i + 1 - start); }
                return None;
            }
            Some(v) => match v.checked_add(digit) {
                None => {
                    proof { lemma_digits_value_prefix(d, i + 1 - start); }
                    return None;
                }
                Some(v2) => {
                    value = v2;
                }
            },
        }
        i = i + 1;
    }
    Some(value)
}

/// Appends the decimal representation of `n` to `out`.
fn push_decimal(out: &mut String, n: usize)
    ensures
        final(out)@ == old(out)@ + decimal(n as nat),
    decreases n,
{
    if n >= 10 {
        push_decimal(out, n / 10);
    }
    let digits = "0123456789";
    proof {
        reveal_strlit("0123456789");
    }
    let d = n % 10;
    out.append(digits.substring_char(d, d + 1));
    assert(digits@.subrange(d as int, d + 1) == seq![digit_char(d as nat)]);
}

/// `n.to_string()`.
pub fn format_usize(n: usize) -> (s: String)
    ensures
        s@ == decimal(n as nat),
{
    let mut s = String::new();
    push_decimal(&mut s, n);
    assert(s@ == Seq::<char>::empty() + decimal(n as nat));
    s
}

/// `n.to_string()` has no leading zero: only 0 is written starting with
/// `0`, and it is written `0`.
pub proof fn lemma_decimal_canonical(n: nat)
    ensures
        decimal(n).len() > 0,
        n == 0 ==> decimal(n) == seq!['0'],
        n > 0 ==> decimal(n)[0] != '0',
    decreases n,
{
    if n >= 10 {
        lemma_decimal_canonical(n / 10);
        assert(decimal(n)[0] == decimal(n / 10)[0]);
    }
}

/// What `s.parse::<usize>()` accepts, over all strings: a number written in
/// decimal, with or without a `+` before it, reads as that number; the
/// empty string, a lone `+`, and a string with any other character are
/// refused.
pub proof fn lemma_parse_usize_laws(n: usize, s: Seq<char>, i: int)
    ensures
        parse_usize_spec(decimal(n as nat)) == Some(n),
        parse_usize_spec(seq!['+'] + decimal(n as nat)) == Some(n),
        parse_usize_spec(Seq::empty()) == None::<usize>,
        parse_usize_spec(seq!['+']) == None::<usize>,
        (0 <= i < s.len() && !is_digit(s[i]) && !(i == 0 && s[0] == '+')) ==> parse_usize_spec(s) == None::<usize>,
{
    lemma_parse_decimal(n);
    lemma_decimal_value(n as nat);
    let p = seq!['+'] + decimal(n as nat);
    assert(p.drop_first() == decimal(n as nat));
    assert(seq!['+'].drop_first() == Seq::<char>::empty());
    if 0 <= i < s.len() && !is_digit(s[i]) && !(i == 0 && s[0] == '+') {
        if s.len() > 0 && s[0] == '+' {
            assert(s.drop_first()[i - 1] == s[i]);
        }
    }
}

} // verus!
