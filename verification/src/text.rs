//! Character-level text operations that the specification grammar is built on:
//! splitting at a separator, trimming white space, prefixes, and
//! case-insensitive comparison.
//!
//! The mathematical side works on `Seq<char>`; the executable side works on a
//! vector of characters and on index ranges `[lo, hi)` into it, so that nothing
//! is copied while a text is taken apart.

use vstd::prelude::*;
use vstd::utf8::{
    char_u32_cast,
    decode_first_scalar,
    encode_scalar,
    encode_utf8,
    encode_utf8_first_scalar,
    length_of_first_scalar,
};

verus! {

/// White space in the sense of the Unicode property `White_Space`.
pub open spec fn is_whitespace(c: char) -> bool {
    ||| c == ' '
    ||| ('\u{9}' <= c && c <= '\u{d}')
    ||| c == '\u{85}'
    ||| c == '\u{a0}'
    ||| c == '\u{1680}'
    ||| ('\u{2000}' <= c && c <= '\u{200a}')
    ||| c == '\u{2028}'
    ||| c == '\u{2029}'
    ||| c == '\u{202f}'
    ||| c == '\u{205f}'
    ||| c == '\u{3000}'
}

/// `s` without its leading white space.
pub open spec fn trim_start(s: Seq<char>) -> Seq<char>
    decreases s.len(),
{
    if s.len() > 0 && is_whitespace(s[0]) {
        trim_start(s.drop_first())
    } else {
        s
    }
}

/// `s` without its trailing white space.
pub open spec fn trim_end(s: Seq<char>) -> Seq<char>
    decreases s.len(),
{
    if s.len() > 0 && is_whitespace(s.last()) {
        trim_end(s.drop_last())
    } else {
        s
    }
}

/// `s` without leading and trailing white space.
pub open spec fn trim(s: Seq<char>) -> Seq<char> {
    trim_end(trim_start(s))
}

/// Index of the first occurrence of `c` in `s`, or `s.len()` if there is none.
pub open spec fn index_of(s: Seq<char>, c: char) -> int
    decreases s.len(),
{
    if s.len() == 0 || s[0] == c {
        0
    } else {
        1 + index_of(s.drop_first(), c)
    }
}

/// The pieces of `s` between occurrences of `sep`. A text with `n` separators
/// has `n + 1` pieces, some of which may be empty.
pub open spec fn split(s: Seq<char>, sep: char) -> Seq<Seq<char>>
    decreases s.len(),
{
    let i = index_of(s, sep);
    if 0 <= i < s.len() {
        seq![s.take(i)] + split(s.skip(i + 1), sep)
    } else {
        seq![s]
    }
}

/// Whether `p` is a literal prefix of `s`.
pub open spec fn is_prefix(p: Seq<char>, s: Seq<char>) -> bool {
    p.len() <= s.len() && s.take(p.len() as int) == p
}

/// Whether `c` occurs in `s`.
pub open spec fn contains_char(s: Seq<char>, c: char) -> bool {
    exists|i: int| 0 <= i < s.len() && s[i] == c
}

/// Whether white space occurs in `s`.
pub open spec fn contains_whitespace(s: Seq<char>) -> bool {
    exists|i: int| 0 <= i < s.len() && is_whitespace(s[i])
}

/// The lower-case form of an ASCII capital letter; any other character itself.
pub open spec fn ascii_lower(c: char) -> char {
    if 'A' <= c && c <= 'Z' {
        ((c as u8 + 32) as u8) as char
    } else {
        c
    }
}

/// Whether `s` equals `word` when ASCII capitals in `s` are read as lower-case letters.
pub open spec fn eq_ignore_ascii_case(s: Seq<char>, word: Seq<char>) -> bool {
    s.map_values(|c: char| ascii_lower(c)) == word
}

/// The texts that the ranges cut out of `s`.
pub open spec fn pieces(s: Seq<char>, ranges: Seq<(usize, usize)>) -> Seq<Seq<char>> {
    Seq::new(ranges.len(), |k: int| s.subrange(ranges[k].0 as int, ranges[k].1 as int))
}

/// What `index_of` finds: nothing before it is `c`, and it is `c` unless the text ended.
pub proof fn lemma_index_of(s: Seq<char>, c: char)
    ensures
        0 <= index_of(s, c) <= s.len(),
        forall|k: int| 0 <= k < index_of(s, c) ==> s[k] != c,
        index_of(s, c) < s.len() ==> s[index_of(s, c)] == c,
    decreases s.len(),
{
    if s.len() == 0 || s[0] == c {
    } else {
        let t = s.drop_first();
        lemma_index_of(t, c);
        assert forall|k: int| 0 <= k < index_of(s, c) implies s[k] != c by {
            if k > 0 {
                assert(s[k] == t[k - 1]);
            }
        }
        if index_of(s, c) < s.len() {
            assert(s[index_of(s, c)] == t[index_of(t, c)]);
        }
    }
}

/// An index with nothing equal to `c` before it, which holds `c` or ends the text,
/// is the one that `index_of` finds.
pub proof fn lemma_index_of_is(s: Seq<char>, c: char, i: int)
    requires
        0 <= i <= s.len(),
        forall|k: int| 0 <= k < i ==> s[k] != c,
        i < s.len() ==> s[i] == c,
    ensures
        index_of(s, c) == i,
{
    lemma_index_of(s, c);
}

/// Reads the characters of a text into a vector.
pub fn to_chars(s: &str) -> (v: Vec<char>)
    ensures
        v@ == s@,
{
    let mut v: Vec<char> = Vec::new();
    for c in it: s.chars()
        invariant
            v@ == it.seq().take(it.index() as int),
            it.seq() == s@,
    {
        v.push(c);
    }
    v
}

/// Decides whether a character is white space.
pub fn char_is_whitespace(c: char) -> (b: bool)
    ensures
        b == is_whitespace(c),
{
    c == ' ' || ('\u{9}' <= c && c <= '\u{d}') || c == '\u{85}' || c == '\u{a0}' || c
        == '\u{1680}' || ('\u{2000}' <= c && c <= '\u{200a}') || c == '\u{2028}' || c
        == '\u{2029}' || c == '\u{202f}' || c == '\u{205f}' || c == '\u{3000}'
}

/// Turns an ASCII capital letter into its lower-case form.
pub fn to_ascii_lower(c: char) -> (r: char)
    ensures
        r == ascii_lower(c),
{
    if 'A' <= c && c <= 'Z' {
        ((c as u8) + 32u8) as char
    } else {
        c
    }
}

/// Narrows the range `[lo, hi)` of `chars` to the part without white space at either end.
pub fn trim_range(chars: &Vec<char>, lo: usize, hi: usize) -> (r: (usize, usize))
    requires
        lo <= hi <= chars.len(),
    ensures
        lo <= r.0 <= r.1 <= hi,
        chars@.subrange(r.0 as int, r.1 as int) == trim(chars@.subrange(lo as int, hi as int)),
{
    let ghost s = chars@;
    let mut a = lo;
    while a < hi && char_is_whitespace(chars[a])
        invariant
            lo <= a <= hi <= chars.len(),
            s == chars@,
            trim_start(s.subrange(lo as int, hi as int)) == trim_start(
                s.subrange(a as int, hi as int),
            ),
        decreases hi - a,
    {
        assert(s.subrange(a as int, hi as int).drop_first() == s.subrange(a + 1, hi as int));
        a += 1;
    }
    assert(trim_start(s.subrange(lo as int, hi as int)) == s.subrange(a as int, hi as int));
    let mut b = hi;
    while a < b && char_is_whitespace(chars[b - 1])
        invariant
            a <= b <= hi <= chars.len(),
            s == chars@,
            trim_end(s.subrange(a as int, hi as int)) == trim_end(s.subrange(a as int, b as int)),
        decreases b - a,
    {
        assert(s.subrange(a as int, b as int).drop_last() == s.subrange(a as int, b - 1));
        b -= 1;
    }
    assert(trim_end(s.subrange(a as int, hi as int)) == s.subrange(a as int, b as int));
    (a, b)
}

/// Cuts the range `[lo, hi)` of `chars` at every occurrence of `sep`.
pub fn split_range(chars: &Vec<char>, lo: usize, hi: usize, sep: char) -> (r: Vec<
    (usize, usize),
>)
    requires
        lo <= hi <= chars.len(),
    ensures
        pieces(chars@, r@) == split(chars@.subrange(lo as int, hi as int), sep),
        r.len() >= 1,
        forall|k: int| 0 <= k < r.len() ==> lo <= (#[trigger] r[k]).0 <= r[k].1 <= hi,
{
    let ghost s = chars@;
    let ghost whole = s.subrange(lo as int, hi as int);
    let mut r: Vec<(usize, usize)> = Vec::new();
    let mut start = lo;
    let mut i = lo;
    while i < hi
        invariant
            lo <= start <= i <= hi <= chars.len(),
            s == chars@,
            whole == s.subrange(lo as int, hi as int),
            split(whole, sep) == pieces(s, r@) + split(s.subrange(start as int, hi as int), sep),
            forall|k: int| start <= k < i ==> s[k] != sep,
            forall|k: int| 0 <= k < r.len() ==> lo <= (#[trigger] r[k]).0 <= r[k].1 <= hi,
        decreases hi - i,
    {
        if chars[i] == sep {
            proof {
                let rest = s.subrange(start as int, hi as int);
                lemma_index_of_is(rest, sep, i - start);
                assert(rest.take(i - start) == s.subrange(start as int, i as int));
                assert(rest.skip(i - start + 1) == s.subrange(i + 1, hi as int));
                assert(pieces(s, r@.push((start, i))) == pieces(s, r@) + seq![
                    s.subrange(start as int, i as int),
                ]);
            }
            r.push((start, i));
            start = i + 1;
        }
        i += 1;
    }
    proof {
        let rest = s.subrange(start as int, hi as int);
        lemma_index_of_is(rest, sep, hi - start);
        assert(pieces(s, r@.push((start, hi))) == pieces(s, r@) + seq![rest]);
    }
    r.push((start, hi));
    r
}

/// Decides whether `c` occurs in the range `[lo, hi)` of `chars`.
pub fn range_contains(chars: &Vec<char>, lo: usize, hi: usize, c: char) -> (b: bool)
    requires
        lo <= hi <= chars.len(),
    ensures
        b == contains_char(chars@.subrange(lo as int, hi as int), c),
{
    let ghost sub = chars@.subrange(lo as int, hi as int);
    let mut i = lo;
    while i < hi
        invariant
            lo <= i <= hi <= chars.len(),
            sub == chars@.subrange(lo as int, hi as int),
            forall|k: int| 0 <= k < i - lo ==> sub[k] != c,
        decreases hi - i,
    {
        if chars[i] == c {
            assert(sub[i - lo] == c);
            return true;
        }
        i += 1;
    }
    false
}

/// Decides whether white space occurs in the range `[lo, hi)` of `chars`.
pub fn range_contains_whitespace(chars: &Vec<char>, lo: usize, hi: usize) -> (b: bool)
    requires
        lo <= hi <= chars.len(),
    ensures
        b == contains_whitespace(chars@.subrange(lo as int, hi as int)),
{
    let ghost sub = chars@.subrange(lo as int, hi as int);
    let mut i = lo;
    while i < hi
        invariant
            lo <= i <= hi <= chars.len(),
            sub == chars@.subrange(lo as int, hi as int),
            forall|k: int| 0 <= k < i - lo ==> !is_whitespace(sub[k]),
        decreases hi - i,
    {
        if char_is_whitespace(chars[i]) {
            assert(is_whitespace(sub[i - lo]));
            return true;
        }
        i += 1;
    }
    false
}

/// Decides whether the range `[lo, hi)` of `chars` spells `word`, capitals read as
/// lower-case letters.
pub fn range_eq_ignore_ascii_case(chars: &Vec<char>, lo: usize, hi: usize, word: &str) -> (b:
    bool)
    requires
        lo <= hi <= chars.len(),
    ensures
        b == eq_ignore_ascii_case(chars@.subrange(lo as int, hi as int), word@),
{
    let w = to_chars(word);
    let ghost sub = chars@.subrange(lo as int, hi as int);
    let ghost low = sub.map_values(|c: char| ascii_lower(c));
    if w.len() != hi - lo {
        assert(low.len() != w@.len());
        return false;
    }
    let mut i: usize = 0;
    while i < w.len()
        invariant
            i <= w.len() == hi - lo,
            lo <= hi <= chars.len(),
            sub == chars@.subrange(lo as int, hi as int),
            low == sub.map_values(|c: char| ascii_lower(c)),
            w@ == word@,
            forall|k: int| 0 <= k < i ==> low[k] == w[k],
        decreases w.len() - i,
    {
        if to_ascii_lower(chars[lo + i]) != w[i] {
            assert(low[i as int] != w[i as int]);
            return false;
        }
        i += 1;
    }
    assert(low =~= w@);
    true
}

/// The texts of a list of strings.
pub open spec fn texts(v: Seq<String>) -> Seq<Seq<char>> {
    v.map_values(|s: String| s@)
}

/// The encoding of a prefix is a prefix of the encoding.
pub proof fn lemma_prefix_is_encoded_prefix(p: Seq<char>, s: Seq<char>)
    requires
        is_prefix(p, s),
    ensures
        encode_utf8(p).len() <= encode_utf8(s).len(),
        forall|k: int| 0 <= k < encode_utf8(p).len() ==> encode_utf8(s)[k] == encode_utf8(p)[k],
    decreases p.len(),
{
    if p.len() > 0 {
        let p1 = p.drop_first();
        let s1 = s.drop_first();
        assert(s.take(p.len() as int)[0] == p[0]);
        assert(s1.take(p1.len() as int) =~= p1) by {
            assert forall|k: int| 0 <= k < p1.len() implies s1.take(p1.len() as int)[k]
                == p1[k] by {
                assert(s.take(p.len() as int)[k + 1] == p[k + 1]);
            }
        }
        lemma_prefix_is_encoded_prefix(p1, s1);
        let head = encode_scalar(p[0] as u32);
        assert forall|k: int| 0 <= k < encode_utf8(p).len() implies encode_utf8(s)[k]
            == encode_utf8(p)[k] by {
            if k >= head.len() {
                assert(encode_utf8(s)[k] == encode_utf8(s1)[k - head.len()]);
                assert(encode_utf8(p)[k] == encode_utf8(p1)[k - head.len()]);
            }
        }
    }
}

/// A text whose encoding is a prefix of the encoding of another text is a
/// prefix of that text.
pub proof fn lemma_encoded_prefix_is_prefix(p: Seq<char>, s: Seq<char>)
    requires
        encode_utf8(p).len() <= encode_utf8(s).len(),
        forall|k: int| 0 <= k < encode_utf8(p).len() ==> encode_utf8(s)[k] == encode_utf8(p)[k],
    ensures
        is_prefix(p, s),
    decreases p.len(),
{
    if p.len() == 0 {
        assert(s.take(0) =~= p);
    } else {
        let bp = encode_utf8(p);
        let bs = encode_utf8(s);
        encode_utf8_first_scalar(p);
        assert(bp.len() >= encode_scalar(p[0] as u32).len());
        assert(s.len() > 0);
        encode_utf8_first_scalar(s);
        let n = length_of_first_scalar(bp);
        assert(bs[0] == bp[0]);
        assert(length_of_first_scalar(bs) == n);
        assert(n >= 2 ==> bs[1] == bp[1]);
        assert(n >= 3 ==> bs[2] == bp[2]);
        assert(n >= 4 ==> bs[3] == bp[3]);
        assert(decode_first_scalar(bs) == decode_first_scalar(bp));
        char_u32_cast(p[0], decode_first_scalar(bp));
        char_u32_cast(s[0], decode_first_scalar(bs));
        assert(p[0] == s[0]);
        let p1 = p.drop_first();
        let s1 = s.drop_first();
        assert forall|k: int| 0 <= k < encode_utf8(p1).len() implies encode_utf8(s1)[k]
            == encode_utf8(p1)[k] by {
            assert(bs[k + n] == encode_utf8(s1)[k]);
            assert(bp[k + n] == encode_utf8(p1)[k]);
        }
        lemma_encoded_prefix_is_prefix(p1, s1);
        assert(s.take(p.len() as int) =~= p) by {
            assert forall|k: int| 0 <= k < p.len() implies s.take(p.len() as int)[k] == p[k] by {
                if k > 0 {
                    assert(s1.take(p1.len() as int)[k - 1] == p1[k - 1]);
                }
            }
        }
    }
}

/// Decides whether `prefix` is a literal prefix of `text`, by comparing their bytes.
pub fn starts_with(text: &str, prefix: &str) -> (b: bool)
    ensures
        b == is_prefix(prefix@, text@),
{
    let t = text.as_bytes();
    let p = prefix.as_bytes();
    if p.len() > t.len() {
        proof {
            if is_prefix(prefix@, text@) {
                lemma_prefix_is_encoded_prefix(prefix@, text@);
            }
        }
        return false;
    }
    let mut i: usize = 0;
    while i < p.len()
        invariant
            i <= p.len() <= t.len(),
            t@ == encode_utf8(text@),
            p@ == encode_utf8(prefix@),
            forall|k: int| 0 <= k < i ==> t[k] == p[k],
        decreases p.len() - i,
    {
        if t[i] != p[i] {
            proof {
                if is_prefix(prefix@, text@) {
                    lemma_prefix_is_encoded_prefix(prefix@, text@);
                }
            }
            return false;
        }
        i += 1;
    }
    proof {
        lemma_encoded_prefix_is_prefix(prefix@, text@);
    }
    true
}

/// Joins two texts.
pub fn concat2(a: &str, b: &str) -> (r: String)
    ensures
        r@ == a@ + b@,
{
    let mut r = String::new();
    r.append(a);
    r.append(b);
    assert(r@ == a@ + b@);
    r
}

/// Joins three texts.
pub fn concat3(a: &str, b: &str, c: &str) -> (r: String)
    ensures
        r@ == a@ + b@ + c@,
{
    let mut r = String::new();
    r.append(a);
    r.append(b);
    r.append(c);
    assert(r@ == a@ + b@ + c@);
    r
}

} // verus!
