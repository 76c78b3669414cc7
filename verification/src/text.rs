//! Text as sequences of characters: white space, splitting, searching,
//! reading and writing decimal numbers.
//!
//! A `str` or a `String` is seen through its view, the sequence of its
//! characters. The executable functions work on slices of characters and are
//! stated against the specification function of the same purpose.

use vstd::prelude::*;
use vstd::slice::slice_subrange;
use vstd::string::*;
use vstd::utf8::*;

verus! {

/// `String::push` appends one character.
pub assume_specification[ String::push ](s: &mut String, c: char)
    ensures
        final(s)@ == old(s)@.push(c),
;

// ---------------------------------------------------------------------------
// Characters and strings
// ---------------------------------------------------------------------------

/// The characters of `s`.
pub fn chars_of(s: &str) -> (r: Vec<char>)
    ensures
        r@ == s@,
{
    let mut v: Vec<char> = Vec::new();
    for c in it: s.chars()
        invariant
            v@ == s@.take(it.index()),
            it.seq() == s@,
    {
        v.push(c);
    }
    v
}

/// The string whose characters are `v`.
pub fn string_of(v: &[char]) -> (r: String)
    ensures
        r@ == v@,
{
    let mut s = String::new();
    let mut i: usize = 0;
    while i < v.len()
        invariant
            i <= v.len(),
            s@ == v@.take(i as int),
        decreases v.len() - i,
    {
        s.push(v[i]);
        i += 1;
    }
    s
}

/// Tells whether two strings hold the same characters.
pub fn same(a: &str, b: &str) -> (r: bool)
    ensures
        r == (a@ == b@),
{
    let x = a.as_bytes();
    let y = b.as_bytes();
    proof {
        encode_utf8_decode_utf8(a@);
        encode_utf8_decode_utf8(b@);
    }
    if x.len() != y.len() {
        return false;
    }
    let mut i: usize = 0;
    while i < x.len()
        invariant
            i <= x.len(),
            x.len() == y.len(),
            x@ == encode_utf8(a@),
            y@ == encode_utf8(b@),
            forall|k: int| 0 <= k < i ==> x@[k] == y@[k],
        decreases x.len() - i,
    {
        if x[i] != y[i] {
            return false;
        }
        i += 1;
    }
    assert(x@ == y@);
    true
}

/// The views of a list of strings.
pub open spec fn texts(v: Seq<String>) -> Seq<Seq<char>> {
    Seq::new(v.len(), |i: int| v[i]@)
}

/// The views of a list of character slices.
pub open spec fn slices(v: Seq<&[char]>) -> Seq<Seq<char>> {
    Seq::new(v.len(), |i: int| v[i]@)
}

/// The view of a text that may be missing.
pub open spec fn text_view(s: Option<String>) -> Option<Seq<char>> {
    match s {
        Some(t) => Some(t@),
        None => None,
    }
}

/// The views of a list of pairs of texts.
pub open spec fn pairs(v: Seq<(String, String)>) -> Seq<(Seq<char>, Seq<char>)> {
    Seq::new(v.len(), |i: int| (v[i].0@, v[i].1@))
}

/// A copy of a list of strings.
pub fn copy_texts(v: &Vec<String>) -> (r: Vec<String>)
    ensures
        texts(r@) == texts(v@),
        r@ == v@,
{
    let mut out: Vec<String> = Vec::new();
    let mut i: usize = 0;
    while i < v.len()
        invariant
            i <= v.len(),
            out@ == v@.take(i as int),
        decreases v.len() - i,
    {
        out.push(v[i].clone());
        i += 1;
    }
    assert(v@.take(v@.len() as int) == v@);
    out
}

// ---------------------------------------------------------------------------
// White space
// ---------------------------------------------------------------------------

/// The characters that count as white space (Unicode `White_Space`).
pub open spec fn is_space(c: char) -> bool {
    ||| '\u{9}' <= c <= '\u{d}'
    ||| c == ' '
    ||| c == '\u{85}'
    ||| c == '\u{a0}'
    ||| c == '\u{1680}'
    ||| '\u{2000}' <= c <= '\u{200a}'
    ||| c == '\u{2028}'
    ||| c == '\u{2029}'
    ||| c == '\u{202f}'
    ||| c == '\u{205f}'
    ||| c == '\u{3000}'
}

/// Tells whether `c` is white space.
pub fn space(c: char) -> (r: bool)
    ensures
        r == is_space(c),
{
    ('\u{9}' <= c && c <= '\u{d}') || c == ' ' || c == '\u{85}' || c == '\u{a0}' || c == '\u{1680}'
        || ('\u{2000}' <= c && c <= '\u{200a}') || c == '\u{2028}' || c == '\u{2029}' || c
        == '\u{202f}' || c == '\u{205f}' || c == '\u{3000}'
}

/// `s` without its leading white space.
pub open spec fn trim_start(s: Seq<char>) -> Seq<char>
    decreases s.len(),
{
    if s.len() > 0 && is_space(s[0]) {
        trim_start(s.drop_first())
    } else {
        s
    }
}

/// `s` without its trailing white space.
pub open spec fn trim_end(s: Seq<char>) -> Seq<char>
    decreases s.len(),
{
    if s.len() > 0 && is_space(s.last()) {
        trim_end(s.drop_last())
    } else {
        s
    }
}

/// `s` without white space at either end.
pub open spec fn trim(s: Seq<char>) -> Seq<char> {
    trim_end(trim_start(s))
}

/// Drops leading white space.
pub fn trimmed_start(s: &[char]) -> (r: &[char])
    ensures
        r@ == trim_start(s@),
{
    let mut i: usize = 0;
    assert(s@.skip(0) == s@);
    while i < s.len() && space(s[i])
        invariant
            i <= s.len(),
            trim_start(s@.skip(i as int)) == trim_start(s@),
        decreases s.len() - i,
    {
        assert(s@.skip(i as int).drop_first() == s@.skip(i + 1));
        i += 1;
    }
    let r = slice_subrange(s, i, s.len());
    assert(r@ == s@.skip(i as int));
    r
}

/// Drops trailing white space.
pub fn trimmed_end(s: &[char]) -> (r: &[char])
    ensures
        r@ == trim_end(s@),
{
    let mut n: usize = s.len();
    assert(s@.take(n as int) == s@);
    while n > 0 && space(s[n - 1])
        invariant
            n <= s.len(),
            trim_end(s@.take(n as int)) == trim_end(s@),
        decreases n,
    {
        assert(s@.take(n as int).drop_last() == s@.take(n - 1));
        n -= 1;
    }
    let r = slice_subrange(s, 0, n);
    assert(r@ == s@.take(n as int));
    r
}

/// Drops white space at both ends.
pub fn trimmed(s: &[char]) -> (r: &[char])
    ensures
        r@ == trim(s@),
{
    trimmed_end(trimmed_start(s))
}

/// `s` without white space at either end, as a string.
pub fn trim_text(s: &str) -> (r: String)
    ensures
        r@ == trim(s@),
{
    let v = chars_of(s);
    string_of(trimmed(v.as_slice()))
}

/// Tells whether `s` holds nothing but white space.
pub fn blank(s: &str) -> (r: bool)
    ensures
        r == (trim(s@).len() == 0),
{
    let v = chars_of(s);
    trimmed(v.as_slice()).len() == 0
}

/// `s` without any leading `c`.
pub open spec fn trim_start_char(s: Seq<char>, c: char) -> Seq<char>
    decreases s.len(),
{
    if s.len() > 0 && s[0] == c {
        trim_start_char(s.drop_first(), c)
    } else {
        s
    }
}

/// `s` without any trailing `c`.
pub open spec fn trim_end_char(s: Seq<char>, c: char) -> Seq<char>
    decreases s.len(),
{
    if s.len() > 0 && s.last() == c {
        trim_end_char(s.drop_last(), c)
    } else {
        s
    }
}

/// Drops every leading `c`.
pub fn trimmed_start_char(s: &[char], c: char) -> (r: &[char])
    ensures
        r@ == trim_start_char(s@, c),
{
    let mut i: usize = 0;
    assert(s@.skip(0) == s@);
    while i < s.len() && s[i] == c
        invariant
            i <= s.len(),
            trim_start_char(s@.skip(i as int), c) == trim_start_char(s@, c),
        decreases s.len() - i,
    {
        assert(s@.skip(i as int).drop_first() == s@.skip(i + 1));
        i += 1;
    }
    let r = slice_subrange(s, i, s.len());
    assert(r@ == s@.skip(i as int));
    r
}

/// Drops every trailing `c`.
pub fn trimmed_end_char(s: &[char], c: char) -> (r: &[char])
    ensures
        r@ == trim_end_char(s@, c),
{
    let mut n: usize = s.len();
    assert(s@.take(n as int) == s@);
    while n > 0 && s[n - 1] == c
        invariant
            n <= s.len(),
            trim_end_char(s@.take(n as int), c) == trim_end_char(s@, c),
        decreases n,
    {
        assert(s@.take(n as int).drop_last() == s@.take(n - 1));
        n -= 1;
    }
    let r = slice_subrange(s, 0, n);
    assert(r@ == s@.take(n as int));
    r
}

/// The words of `s`: its longest runs of characters that are not white space.
pub open spec fn words(s: Seq<char>) -> Seq<Seq<char>>
    decreases s.len(),
{
    let t = trim_start(s);
    let n = word_len(t);
    if 0 < n <= t.len() && t.len() <= s.len() {
        seq![t.take(n)] + words(t.skip(n))
    } else {
        seq![]
    }
}

/// How many characters `s` has before its first white space.
pub open spec fn word_len(s: Seq<char>) -> int
    decreases s.len(),
{
    if s.len() > 0 && !is_space(s[0]) {
        1 + word_len(s.drop_first())
    } else {
        0
    }
}

/// `trim_start` never lengthens its argument.
pub proof fn lemma_trim_start_len(s: Seq<char>)
    ensures
        trim_start(s).len() <= s.len(),
    decreases s.len(),
{
    if s.len() > 0 && is_space(s[0]) {
        lemma_trim_start_len(s.drop_first());
    }
}

/// The length of the first word of `s`.
fn first_word_len(s: &[char]) -> (n: usize)
    ensures
        n == word_len(s@),
        n <= s.len(),
{
    let mut n: usize = 0;
    assert(s@.skip(0) == s@);
    while n < s.len() && !space(s[n])
        invariant
            n <= s.len(),
            word_len(s@) == n + word_len(s@.skip(n as int)),
        decreases s.len() - n,
    {
        assert(s@.skip(n as int).drop_first() == s@.skip(n + 1));
        n += 1;
    }
    n
}

/// Splits at white space.
pub fn split_words(s: &[char]) -> (r: Vec<&[char]>)
    ensures
        slices(r@) == words(s@),
{
    let mut out: Vec<&[char]> = Vec::new();
    let mut rest: &[char] = s;
    loop
        invariant_except_break
            slices(out@) + words(rest@) == words(s@),
        ensures
            slices(out@) == words(s@),
        decreases rest.len(),
    {
        let ghost before = out@;
        let t = trimmed_start(rest);
        proof {
            lemma_trim_start_len(rest@);
        }
        let n = first_word_len(t);
        if n == 0 {
            assert(words(rest@) == Seq::<Seq<char>>::empty());
            break;
        }
        let w = slice_subrange(t, 0, n);
        let after = slice_subrange(t, n, t.len());
        assert(w@ == t@.take(n as int));
        assert(after@ == t@.skip(n as int));
        out.push(w);
        assert(slices(out@) == slices(before).push(w@));
        assert(words(rest@) == seq![w@] + words(after@));
        assert(slices(before) + (seq![w@] + words(after@)) == slices(before).push(w@) + words(
            after@,
        ));
        rest = after;
    }
    out
}

// ---------------------------------------------------------------------------
// Splitting
// ---------------------------------------------------------------------------

/// Where `c` first stands in `s`, or the length of `s` when it does not.
pub open spec fn position(s: Seq<char>, c: char) -> int
    decreases s.len(),
{
    if s.len() == 0 || s[0] == c {
        0
    } else {
        1 + position(s.drop_first(), c)
    }
}

/// `position` is the least index at which the character stands.
pub proof fn lemma_position(s: Seq<char>, c: char)
    ensures
        0 <= position(s, c) <= s.len(),
        position(s, c) < s.len() ==> s[position(s, c)] == c,
        forall|i: int| 0 <= i < position(s, c) ==> s[i] != c,
        position(s, c) < s.len() <==> s.contains(c),
    decreases s.len(),
{
    if s.len() > 0 && s[0] != c {
        lemma_position(s.drop_first(), c);
        let p = position(s.drop_first(), c);
        assert forall|i: int| 0 <= i < 1 + p implies s[i] != c by {
            if i > 0 {
                assert(s.drop_first()[i - 1] == s[i]);
            }
        }
        if s.contains(c) {
            let k = choose|k: int| 0 <= k < s.len() && s[k] == c;
            assert(s.drop_first()[k - 1] == c);
        }
    } else if s.len() > 0 {
        assert(s[0] == c);
    }
}

/// The least index of `c` in `s`, or the length of `s`.
pub fn position_of(s: &[char], c: char) -> (r: usize)
    ensures
        r == position(s@, c),
        r <= s.len(),
{
    let mut i: usize = 0;
    assert(s@.skip(0) == s@);
    while i < s.len() && s[i] != c
        invariant
            i <= s.len(),
            position(s@, c) == i + position(s@.skip(i as int), c),
        decreases s.len() - i,
    {
        assert(s@.skip(i as int).drop_first() == s@.skip(i + 1));
        i += 1;
    }
    i
}

/// Tells whether `c` stands in `s`.
pub fn has_char(s: &[char], c: char) -> (r: bool)
    ensures
        r == s@.contains(c),
{
    proof {
        lemma_position(s@, c);
    }
    position_of(s, c) < s.len()
}

/// The pieces of `s` between the occurrences of `c`; at least one piece.
pub open spec fn split(s: Seq<char>, c: char) -> Seq<Seq<char>>
    decreases s.len(),
{
    let i = position(s, c);
    if 0 <= i < s.len() {
        seq![s.take(i)] + split(s.skip(i + 1), c)
    } else {
        seq![s]
    }
}

/// No part holds the character at which the text was split.
pub proof fn lemma_parts_are_free(s: Seq<char>, c: char)
    ensures
        forall|i: int| 0 <= i < split(s, c).len() ==> !(#[trigger] split(s, c)[i]).contains(c),
    decreases s.len(),
{
    let k = position(s, c);
    lemma_position(s, c);
    if k < s.len() {
        let rest = split(s.skip(k + 1), c);
        lemma_parts_are_free(s.skip(k + 1), c);
        assert(!s.take(k).contains(c));
        assert forall|i: int| 0 <= i < split(s, c).len() implies !(#[trigger] split(s, c)[i]).contains(
            c,
        ) by {
            assert(split(s, c) == seq![s.take(k)] + rest);
            if i > 0 {
                assert(split(s, c)[i] == rest[i - 1]);
            }
        }
    } else {
        assert(!s.contains(c));
        assert(split(s, c) == seq![s]);
    }
}

/// A character that a text does not hold stands in none of its parts.
pub proof fn lemma_parts_hold(s: Seq<char>, c: char, x: char)
    requires
        !s.contains(x),
    ensures
        forall|i: int| 0 <= i < split(s, c).len() ==> !(#[trigger] split(s, c)[i]).contains(x),
    decreases s.len(),
{
    let k = position(s, c);
    lemma_position(s, c);
    if k < s.len() {
        let rest = split(s.skip(k + 1), c);
        assert forall|j: int| 0 <= j < s.len() - k - 1 implies #[trigger] s.skip(k + 1)[j] != x by {
            assert(s[k + 1 + j] == s.skip(k + 1)[j]);
        }
        lemma_parts_hold(s.skip(k + 1), c, x);
        assert(!s.take(k).contains(x));
        assert(split(s, c) == seq![s.take(k)] + rest);
        assert forall|i: int| 0 <= i < split(s, c).len() implies !(#[trigger] split(
            s,
            c,
        )[i]).contains(x) by {
            if i > 0 {
                assert(split(s, c)[i] == rest[i - 1]);
            }
        }
    } else {
        assert(split(s, c) == seq![s]);
    }
}

/// A part at the end, after the character at which a text is split, stands alone.
pub proof fn lemma_split_last(a: Seq<char>, b: Seq<char>, c: char)
    requires
        !b.contains(c),
    ensures
        split(a.push(c) + b, c) == split(a, c).push(b),
    decreases a.len(),
{
    let s = a.push(c) + b;
    let k = position(a, c);
    let j = position(s, c);
    lemma_position(a, c);
    lemma_position(s, c);
    assert(s[k] == c);
    assert(forall|i: int| 0 <= i < k ==> s[i] == a[i]);
    assert(j == k);
    assert(s.take(k) =~= a.take(k));
    if k < a.len() {
        assert(s.skip(k + 1) =~= a.skip(k + 1).push(c) + b);
        lemma_split_last(a.skip(k + 1), b, c);
        assert(split(s, c) =~= split(a, c).push(b));
    } else {
        lemma_position(b, c);
        assert(a.take(k) =~= a);
        assert(s.skip(k + 1) =~= b);
        assert(split(b, c) == seq![b]);
        assert(split(a, c) == seq![a]);
        assert(split(s, c) == seq![a] + seq![b]);
        assert(split(s, c) =~= split(a, c).push(b));
    }
}

/// Splits at every `c`.
pub fn split_at_char(s: &[char], c: char) -> (r: Vec<&[char]>)
    ensures
        slices(r@) == split(s@, c),
        r.len() > 0,
{
    let mut out: Vec<&[char]> = Vec::new();
    let mut rest: &[char] = s;
    loop
        invariant_except_break
            slices(out@) + split(rest@, c) == split(s@, c),
        ensures
            slices(out@) == split(s@, c),
            out.len() > 0,
        decreases rest.len(),
    {
        let ghost before = out@;
        let i = position_of(rest, c);
        if i >= rest.len() {
            out.push(rest);
            assert(slices(out@) == slices(before) + seq![rest@]);
            break;
        }
        let w = slice_subrange(rest, 0, i);
        let after = slice_subrange(rest, i + 1, rest.len());
        assert(w@ == rest@.take(i as int));
        assert(after@ == rest@.skip(i + 1));
        out.push(w);
        assert(slices(out@) == slices(before).push(w@));
        assert(slices(before) + (seq![w@] + split(after@, c)) == slices(before).push(w@) + split(
            after@,
            c,
        ));
        rest = after;
    }
    out
}

/// The pieces of `s` cut at the first `n - 1` occurrences of `c`.
pub open spec fn splitn(s: Seq<char>, c: char, n: nat) -> Seq<Seq<char>>
    decreases n,
{
    let i = position(s, c);
    if n == 0 {
        seq![]
    } else if n > 1 && 0 <= i < s.len() {
        seq![s.take(i)] + splitn(s.skip(i + 1), c, (n - 1) as nat)
    } else {
        seq![s]
    }
}

/// Splits at the first `n - 1` occurrences of `c`.
pub fn splitn_at_char(s: &[char], c: char, n: usize) -> (r: Vec<&[char]>)
    ensures
        slices(r@) == splitn(s@, c, n as nat),
{
    let mut out: Vec<&[char]> = Vec::new();
    let mut rest: &[char] = s;
    let mut left: usize = n;
    loop
        invariant_except_break
            left <= n,
            slices(out@) + splitn(rest@, c, left as nat) == splitn(s@, c, n as nat),
        ensures
            slices(out@) == splitn(s@, c, n as nat),
        decreases left,
    {
        let ghost before = out@;
        if left == 0 {
            assert(slices(out@) + Seq::<Seq<char>>::empty() == slices(out@));
            break;
        }
        let i = position_of(rest, c);
        if left == 1 || i >= rest.len() {
            out.push(rest);
            assert(slices(out@) == slices(before) + seq![rest@]);
            break;
        }
        let w = slice_subrange(rest, 0, i);
        let after = slice_subrange(rest, i + 1, rest.len());
        assert(w@ == rest@.take(i as int));
        assert(after@ == rest@.skip(i + 1));
        out.push(w);
        assert(slices(out@) == slices(before).push(w@));
        assert(slices(before) + (seq![w@] + splitn(after@, c, (left - 1) as nat)) == slices(
            before,
        ).push(w@) + splitn(after@, c, (left - 1) as nat));
        rest = after;
        left -= 1;
    }
    out
}

/// `s` without one carriage return at its end.
pub open spec fn strip_return(s: Seq<char>) -> Seq<char> {
    if s.len() > 0 && s.last() == '\r' {
        s.drop_last()
    } else {
        s
    }
}

/// The lines of `s`: each ends with a line feed, or a carriage return and a
/// line feed, which do not belong to it; the last one may end with the text.
pub open spec fn lines(s: Seq<char>) -> Seq<Seq<char>>
    decreases s.len(),
{
    let i = position(s, '\n');
    if s.len() == 0 {
        seq![]
    } else if 0 <= i < s.len() {
        seq![strip_return(s.take(i))] + lines(s.skip(i + 1))
    } else {
        seq![s]
    }
}

/// Splits into lines.
pub fn split_lines(s: &[char]) -> (r: Vec<&[char]>)
    ensures
        slices(r@) == lines(s@),
{
    let mut out: Vec<&[char]> = Vec::new();
    let mut rest: &[char] = s;
    loop
        invariant_except_break
            slices(out@) + lines(rest@) == lines(s@),
        ensures
            slices(out@) == lines(s@),
        decreases rest.len(),
    {
        let ghost before = out@;
        if rest.len() == 0 {
            assert(slices(out@) + Seq::<Seq<char>>::empty() == slices(out@));
            break;
        }
        let i = position_of(rest, '\n');
        if i >= rest.len() {
            out.push(rest);
            assert(slices(out@) == slices(before) + seq![rest@]);
            break;
        }
        let whole = slice_subrange(rest, 0, i);
        let w = if i > 0 && rest[i - 1] == '\r' {
            slice_subrange(rest, 0, i - 1)
        } else {
            whole
        };
        let after = slice_subrange(rest, i + 1, rest.len());
        assert(whole@ == rest@.take(i as int));
        assert(w@ == strip_return(rest@.take(i as int)));
        assert(after@ == rest@.skip(i + 1));
        out.push(w);
        assert(slices(out@) == slices(before).push(w@));
        assert(slices(before) + (seq![w@] + lines(after@)) == slices(before).push(w@) + lines(
            after@,
        ));
        rest = after;
    }
    out
}

// ---------------------------------------------------------------------------
// Searching
// ---------------------------------------------------------------------------

/// Tells whether `p` is a prefix of `s`.
pub open spec fn starts_with(s: Seq<char>, p: Seq<char>) -> bool {
    p.len() <= s.len() && s.take(p.len() as int) == p
}

/// Tells whether `p` is a suffix of `s`.
pub open spec fn ends_with(s: Seq<char>, p: Seq<char>) -> bool {
    p.len() <= s.len() && s.skip(s.len() - p.len()) == p
}

/// Tells whether `p` stands in `s` at `i`.
pub open spec fn stands_at(s: Seq<char>, p: Seq<char>, i: int) -> bool {
    0 <= i && i + p.len() <= s.len() && s.subrange(i, i + p.len()) == p
}

/// Tells whether `p` stands somewhere in `s`.
pub open spec fn contains(s: Seq<char>, p: Seq<char>) -> bool {
    exists|i: int| stands_at(s, p, i)
}

/// Tells whether `p` stands in `s` at `i`.
pub fn found_at(s: &[char], p: &[char], i: usize) -> (r: bool)
    ensures
        r == stands_at(s@, p@, i as int),
{
    if i > s.len() || p.len() > s.len() - i {
        return false;
    }
    let mut k: usize = 0;
    while k < p.len()
        invariant
            k <= p.len(),
            i + p.len() <= s.len(),
            forall|j: int| 0 <= j < k ==> s@[i + j] == p@[j],
        decreases p.len() - k,
    {
        if s[i + k] != p[k] {
            assert(s@.subrange(i as int, i + p.len())[k as int] != p@[k as int]);
            return false;
        }
        k += 1;
    }
    assert(s@.subrange(i as int, i + p.len()) == p@);
    true
}

/// Tells whether `s` begins with `p`.
pub fn begins(s: &[char], p: &[char]) -> (r: bool)
    ensures
        r == starts_with(s@, p@),
{
    assert(p@.len() <= s@.len() ==> s@.subrange(0, p@.len() as int) == s@.take(p@.len() as int));
    found_at(s, p, 0)
}

/// Tells whether `s` ends with `p`.
pub fn ends(s: &[char], p: &[char]) -> (r: bool)
    ensures
        r == ends_with(s@, p@),
{
    if p.len() > s.len() {
        return false;
    }
    assert(s@.subrange(s@.len() - p@.len(), s@.len() as int) == s@.skip(s@.len() - p@.len()));
    found_at(s, p, s.len() - p.len())
}

/// The least place at which `p` stands in `s`.
pub open spec fn first_place(s: Seq<char>, p: Seq<char>, i: int) -> bool {
    &&& stands_at(s, p, i)
    &&& forall|j: int| 0 <= j < i ==> !stands_at(s, p, j)
}

/// The greatest place at which `p` stands in `s`.
pub open spec fn last_place(s: Seq<char>, p: Seq<char>, i: int) -> bool {
    &&& stands_at(s, p, i)
    &&& forall|j: int| i < j ==> !stands_at(s, p, j)
}

/// Finds the first occurrence of `p` in `s`.
pub fn find(s: &[char], p: &[char]) -> (r: Option<usize>)
    ensures
        match r {
            Some(i) => first_place(s@, p@, i as int),
            None => !contains(s@, p@),
        },
{
    let mut i: usize = 0;
    while i <= s.len() && p.len() <= s.len() - i
        invariant
            i <= s.len() + 1,
            forall|j: int| 0 <= j < i ==> !stands_at(s@, p@, j),
        decreases s.len() + 1 - i,
    {
        if found_at(s, p, i) {
            return Some(i);
        }
        if i == s.len() {
            return None;
        }
        i += 1;
    }
    None
}

/// Finds the last occurrence of `p` in `s`.
pub fn find_last(s: &[char], p: &[char]) -> (r: Option<usize>)
    ensures
        match r {
            Some(i) => last_place(s@, p@, i as int),
            None => !contains(s@, p@),
        },
{
    if p.len() > s.len() {
        return None;
    }
    let mut i: usize = s.len() - p.len();
    loop
        invariant
            i + p.len() <= s.len(),
            forall|j: int| i < j ==> !stands_at(s@, p@, j),
        decreases i,
    {
        if found_at(s, p, i) {
            return Some(i);
        }
        if i == 0 {
            return None;
        }
        i -= 1;
    }
}

/// Tells whether `p` stands in `s`.
pub fn holds(s: &[char], p: &str) -> (r: bool)
    ensures
        r == contains(s@, p@),
{
    let v = chars_of(p);
    match find(s, v.as_slice()) {
        Some(i) => {
            assert(stands_at(s@, p@, i as int));
            true
        },
        None => false,
    }
}

/// Tells whether `s` begins with the text `p`.
pub fn begins_text(s: &[char], p: &str) -> (r: bool)
    ensures
        r == starts_with(s@, p@),
{
    let v = chars_of(p);
    begins(s, v.as_slice())
}

/// Tells whether `s` ends with the text `p`.
pub fn ends_text(s: &[char], p: &str) -> (r: bool)
    ensures
        r == ends_with(s@, p@),
{
    let v = chars_of(p);
    ends(s, v.as_slice())
}

/// What follows the prefix `p`, if `s` begins with it.
pub fn after_prefix<'a>(s: &'a [char], p: &str) -> (r: Option<&'a [char]>)
    ensures
        match r {
            Some(t) => starts_with(s@, p@) && t@ == s@.skip(p@.len() as int),
            None => !starts_with(s@, p@),
        },
{
    let v = chars_of(p);
    if begins(s, v.as_slice()) {
        let t = slice_subrange(s, v.len(), s.len());
        assert(t@ == s@.skip(p@.len() as int));
        Some(t)
    } else {
        None
    }
}

/// Tells whether the characters `s` are the text `p`.
pub fn is_text(s: &[char], p: &str) -> (r: bool)
    ensures
        r == (s@ == p@),
{
    let v = chars_of(p);
    if v.len() != s.len() {
        return false;
    }
    assert(s@.take(s@.len() as int) == s@);
    begins(s, v.as_slice())
}

// ---------------------------------------------------------------------------
// Numbers
// ---------------------------------------------------------------------------

/// The decimal digits.
pub open spec fn is_digit(c: char) -> bool {
    '0' <= c <= '9'
}

/// Tells whether every character is a decimal digit.
pub open spec fn all_digits(s: Seq<char>) -> bool {
    forall|i: int| 0 <= i < s.len() ==> is_digit(#[trigger] s[i])
}

/// The number that a run of decimal digits writes.
pub open spec fn digits_value(s: Seq<char>) -> int
    decreases s.len(),
{
    if s.len() == 0 {
        0
    } else {
        digits_value(s.drop_last()) * 10 + (s.last() as int - '0' as int)
    }
}

/// What a text reads as, as an unsigned number no greater than `max`: digits,
/// after at most one plus sign.
pub open spec fn read_unsigned(s: Seq<char>, max: int) -> Option<int> {
    let d = if s.len() > 0 && s[0] == '+' {
        s.skip(1)
    } else {
        s
    };
    if d.len() > 0 && all_digits(d) && digits_value(d) <= max {
        Some(digits_value(d))
    } else {
        None
    }
}

/// What a text reads as, as a signed 64-bit number: digits, after at most one
/// sign.
pub open spec fn read_i64(s: Seq<char>) -> Option<int> {
    if s.len() > 0 && s[0] == '-' {
        let d = s.skip(1);
        if d.len() > 0 && all_digits(d) && digits_value(d) <= 0x8000_0000_0000_0000 {
            Some(-digits_value(d))
        } else {
            None
        }
    } else {
        read_unsigned(s, 0x7fff_ffff_ffff_ffff)
    }
}

/// A longer run of digits writes no smaller a number.
proof fn lemma_digits_grow(s: Seq<char>, n: int)
    requires
        0 <= n <= s.len(),
        all_digits(s),
    ensures
        0 <= digits_value(s.take(n)) <= digits_value(s),
    decreases s.len(),
{
    if n == s.len() {
        assert(s.take(n) == s);
        if n > 0 {
            assert(all_digits(s.drop_last()));
            assert(is_digit(s.last()));
            lemma_digits_grow(s.drop_last(), n - 1);
        }
    } else {
        assert(all_digits(s.drop_last()));
        assert(is_digit(s.last()));
        assert(s.drop_last().take(n) == s.take(n));
        lemma_digits_grow(s.drop_last(), n);
    }
}

/// Tells whether `c` is a decimal digit.
pub fn digit(c: char) -> (r: bool)
    ensures
        r == is_digit(c),
{
    '0' <= c && c <= '9'
}

/// Reads a run of digits no greater than `max`.
fn parse_digits(d: &[char], max: u64) -> (r: Option<u64>)
    ensures
        match r {
            Some(n) => d@.len() > 0 && all_digits(d@) && n == digits_value(d@) && n <= max,
            None => !(d@.len() > 0 && all_digits(d@) && digits_value(d@) <= max),
        },
{
    if d.len() == 0 {
        return None;
    }
    let mut k: usize = 0;
    while k < d.len()
        invariant
            k <= d.len(),
            forall|j: int| 0 <= j < k ==> is_digit(#[trigger] d@[j]),
        decreases d.len() - k,
    {
        if !digit(d[k]) {
            return None;
        }
        k += 1;
    }
    assert(all_digits(d@));
    let mut n: u64 = 0;
    let mut i: usize = 0;
    while i < d.len()
        invariant
            i <= d.len(),
            all_digits(d@),
            n == digits_value(d@.take(i as int)),
            n <= max,
        decreases d.len() - i,
    {
        assert(is_digit(d@[i as int]));
        let c: u64 = d[i] as u64 - '0' as u64;
        proof {
            assert(d@.take(i + 1).drop_last() == d@.take(i as int));
            assert(digits_value(d@.take(i + 1)) == n * 10 + c);
            lemma_digits_grow(d@, i + 1);
        }
        match n.checked_mul(10) {
            Some(m) => {
                match m.checked_add(c) {
                    Some(v) => {
                        if v > max {
                            return None;
                        }
                        n = v;
                    },
                    None => {
                        return None;
                    },
                }
            },
            None => {
                return None;
            },
        }
        i += 1;
    }
    assert(d@.take(d@.len() as int) == d@);
    Some(n)
}

/// Reads an unsigned number no greater than `max`.
pub fn parse_unsigned(s: &[char], max: u64) -> (r: Option<u64>)
    ensures
        match r {
            Some(n) => read_unsigned(s@, max as int) == Some(n as int),
            None => read_unsigned(s@, max as int) is None,
        },
        r matches Some(n) ==> n <= max,
{
    if s.len() > 0 && s[0] == '+' {
        let d = slice_subrange(s, 1, s.len());
        assert(d@ == s@.skip(1));
        parse_digits(d, max)
    } else {
        parse_digits(s, max)
    }
}

/// Reads a 32-bit unsigned number.
pub fn parse_u32(s: &[char]) -> (r: Option<u32>)
    ensures
        match r {
            Some(n) => read_unsigned(s@, u32::MAX as int) == Some(n as int),
            None => read_unsigned(s@, u32::MAX as int) is None,
        },
{
    match parse_unsigned(s, 0xffff_ffff) {
        Some(n) => Some(n as u32),
        None => None,
    }
}

/// Reads a 16-bit unsigned number.
pub fn parse_u16(s: &[char]) -> (r: Option<u16>)
    ensures
        match r {
            Some(n) => read_unsigned(s@, u16::MAX as int) == Some(n as int),
            None => read_unsigned(s@, u16::MAX as int) is None,
        },
{
    match parse_unsigned(s, 0xffff) {
        Some(n) => Some(n as u16),
        None => None,
    }
}

/// Reads a signed 64-bit number.
pub fn parse_i64(s: &[char]) -> (r: Option<i64>)
    ensures
        match r {
            Some(n) => read_i64(s@) == Some(n as int),
            None => read_i64(s@) is None,
        },
{
    if s.len() > 0 && s[0] == '-' {
        let d = slice_subrange(s, 1, s.len());
        assert(d@ == s@.skip(1));
        match parse_digits(d, 0x8000_0000_0000_0000) {
            Some(n) => {
                if n == 0x8000_0000_0000_0000 {
                    Some(i64::MIN)
                } else {
                    Some(-(n as i64))
                }
            },
            None => None,
        }
    } else {
        match parse_unsigned(s, 0x7fff_ffff_ffff_ffff) {
            Some(n) => Some(n as i64),
            None => None,
        }
    }
}

/// The digit that stands for `n`, below ten.
pub open spec fn digit_char(n: int) -> char {
    (('0' as u32) + n) as char
}

/// A natural number in decimal.
pub open spec fn decimal(n: nat) -> Seq<char>
    decreases n,
{
    if n < 10 {
        seq![digit_char(n as int)]
    } else {
        decimal(n / 10).push(digit_char((n % 10) as int))
    }
}

/// A number in decimal is made of digits, and says which number it is.
pub proof fn lemma_decimal(n: nat)
    ensures
        decimal(n).len() > 0,
        forall|i: int| 0 <= i < decimal(n).len() ==> is_digit(#[trigger] decimal(n)[i]),
        digits_value(decimal(n)) == n,
    decreases n,
{
    if n < 10 {
        assert(decimal(n).drop_last() =~= Seq::<char>::empty());
        assert(digits_value(decimal(n).drop_last()) == 0);
    } else {
        lemma_decimal(n / 10);
        assert(decimal(n).drop_last() =~= decimal(n / 10));
    }
}

/// An integer in decimal, with a minus sign when it is negative.
pub open spec fn decimal_int(n: int) -> Seq<char> {
    if n < 0 {
        seq!['-'] + decimal((-n) as nat)
    } else {
        decimal(n as nat)
    }
}

/// The digit that stands for `n`.
fn digit_of(n: u64) -> (c: char)
    requires
        n < 10,
    ensures
        c == digit_char(n as int),
{
    (48u8 + (n as u8)) as char
}

/// Writes a number in decimal.
pub fn write_number(n: u64) -> (r: String)
    ensures
        r@ == decimal(n as nat),
    decreases n,
{
    if n < 10 {
        let mut s = String::new();
        s.push(digit_of(n));
        assert(s@ == seq![digit_char(n as int)]);
        s
    } else {
        let mut s = write_number(n / 10);
        s.push(digit_of(n % 10));
        s
    }
}

/// Writes a signed number in decimal.
pub fn write_signed(n: i64) -> (r: String)
    ensures
        r@ == decimal_int(n as int),
{
    if n >= 0 {
        write_number(n as u64)
    } else {
        let m: u64 = if n == i64::MIN {
            0x8000_0000_0000_0000
        } else {
            (-n) as u64
        };
        let d = write_number(m);
        let mut s = String::new();
        s.push('-');
        s.append(d.as_str());
        assert(s@ == seq!['-'] + decimal((-n) as nat));
        s
    }
}

/// A text without a character.
pub open spec fn without(s: Seq<char>, c: char) -> Seq<char> {
    s.filter(|x: char| x != c)
}

/// The text without a character.
pub fn drop_char(s: &[char], c: char) -> (r: Vec<char>)
    ensures
        r@ == without(s@, c),
{
    let mut out: Vec<char> = Vec::new();
    let mut i: usize = 0;
    proof {
        reveal(Seq::filter);
        assert(without(s@.take(0), c) =~= Seq::<char>::empty());
    }
    while i < s.len()
        invariant
            i <= s@.len(),
            out@ == without(s@.take(i as int), c),
        decreases s@.len() - i,
    {
        proof {
            reveal(Seq::filter);
            assert(s@.take(i + 1).drop_last() =~= s@.take(i as int));
        }
        if s[i] != c {
            out.push(s[i]);
        }
        i += 1;
    }
    assert(s@.take(s@.len() as int) =~= s@);
    out
}

/// A text with one character in the place of another.
pub open spec fn replaced(s: Seq<char>, from: char, to: char) -> Seq<char> {
    Seq::new(
        s.len(),
        |i: int|
            if s[i] == from {
                to
            } else {
                s[i]
            },
    )
}

/// The text with one character in the place of another.
pub fn replace_char(s: &[char], from: char, to: char) -> (r: Vec<char>)
    ensures
        r@ == replaced(s@, from, to),
{
    let mut out: Vec<char> = Vec::new();
    let mut i: usize = 0;
    while i < s.len()
        invariant
            i <= s@.len(),
            out@ == replaced(s@, from, to).take(i as int),
        decreases s@.len() - i,
    {
        let c = s[i];
        out.push(
            if c == from {
                to
            } else {
                c
            },
        );
        assert(replaced(s@, from, to).take(i + 1) =~= replaced(s@, from, to).take(i as int).push(
            replaced(s@, from, to)[i as int],
        ));
        i += 1;
    }
    assert(replaced(s@, from, to).take(i as int) =~= replaced(s@, from, to));
    out
}

/// A character with the capital letters of ASCII made small.
pub open spec fn ascii_lower(c: char) -> char {
    if 'A' <= c <= 'Z' {
        (c as u32 + 32) as char
    } else {
        c
    }
}

/// A text with the capital letters of ASCII made small.
pub open spec fn ascii_folded(s: Seq<char>) -> Seq<char> {
    Seq::new(s.len(), |i: int| ascii_lower(s[i]))
}

fn fold_char(c: char) -> (r: char)
    ensures
        r == ascii_lower(c),
{
    if 'A' <= c && c <= 'Z' {
        let n: u8 = c as u8 + 32;
        n as char
    } else {
        c
    }
}

/// The text with the capital letters of ASCII made small.
pub fn fold_ascii(s: &[char]) -> (r: Vec<char>)
    ensures
        r@ == ascii_folded(s@),
{
    let mut out: Vec<char> = Vec::new();
    let mut i: usize = 0;
    while i < s.len()
        invariant
            i <= s@.len(),
            out@ == ascii_folded(s@).take(i as int),
        decreases s@.len() - i,
    {
        out.push(fold_char(s[i]));
        assert(ascii_folded(s@).take(i + 1) =~= ascii_folded(s@).take(i as int).push(
            ascii_folded(s@)[i as int],
        ));
        i += 1;
    }
    assert(ascii_folded(s@).take(i as int) =~= ascii_folded(s@));
    out
}

/// Several texts with a separator between them.
pub open spec fn joined(parts: Seq<Seq<char>>, sep: Seq<char>) -> Seq<char>
    decreases parts.len(),
{
    if parts.len() == 0 {
        seq![]
    } else if parts.len() == 1 {
        parts[0]
    } else {
        joined(parts.drop_last(), sep) + sep + parts.last()
    }
}

/// The texts with a separator between them.
pub fn join_slices(parts: &Vec<&[char]>, sep: &str) -> (r: String)
    ensures
        r@ == joined(slices(parts@), sep@),
{
    let mut out = "".to_owned();
    let ghost all = slices(parts@);
    let mut i: usize = 0;
    proof {
        reveal_strlit("");
        assert(out@ =~= Seq::<char>::empty());
    }
    while i < parts.len()
        invariant
            i <= parts@.len(),
            all == slices(parts@),
            out@ == joined(all.take(i as int), sep@),
        decreases parts@.len() - i,
    {
        if i > 0 {
            out.append(sep);
        }
        let piece = string_of(parts[i]);
        out.append(piece.as_str());
        proof {
            let t = all.take(i + 1);
            assert(t.drop_last() =~= all.take(i as int));
            assert(t.last() == all[i as int]);
            if i == 0 {
                assert(out@ =~= piece@);
            }
        }
        i += 1;
    }
    assert(all.take(i as int) =~= all);
    out
}

/// Two texts in a row.
pub fn cat2(a: &str, b: &str) -> (r: String)
    ensures
        r@ == a@ + b@,
{
    let mut out = a.to_owned();
    out.append(b);
    out
}

/// Three texts in a row.
pub fn cat3(a: &str, b: &str, c: &str) -> (r: String)
    ensures
        r@ == a@ + b@ + c@,
{
    let mut out = a.to_owned();
    out.append(b);
    out.append(c);
    out
}

/// Four texts in a row.
pub fn cat4(a: &str, b: &str, c: &str, d: &str) -> (r: String)
    ensures
        r@ == a@ + b@ + c@ + d@,
{
    let mut out = a.to_owned();
    out.append(b);
    out.append(c);
    out.append(d);
    out
}

/// Five texts in a row.
pub fn cat5(a: &str, b: &str, c: &str, d: &str, e: &str) -> (r: String)
    ensures
        r@ == a@ + b@ + c@ + d@ + e@,
{
    let mut out = a.to_owned();
    out.append(b);
    out.append(c);
    out.append(d);
    out.append(e);
    out
}

/// Six texts in a row.
pub fn cat6(a: &str, b: &str, c: &str, d: &str, e: &str, f: &str) -> (r: String)
    ensures
        r@ == a@ + b@ + c@ + d@ + e@ + f@,
{
    let mut out = a.to_owned();
    out.append(b);
    out.append(c);
    out.append(d);
    out.append(e);
    out.append(f);
    out
}

/// How many digits a text begins with.
pub open spec fn digit_run(s: Seq<char>) -> int
    decreases s.len(),
{
    if s.len() == 0 || !is_digit(s[0]) {
        0
    } else {
        1 + digit_run(s.drop_first())
    }
}

/// The digits that a text begins with.
pub fn leading_digits(s: &[char]) -> (r: &[char])
    ensures
        r@ == s@.take(digit_run(s@)),
        0 <= digit_run(s@) <= s@.len(),
{
    let mut i: usize = 0;
    assert(s@.skip(0) =~= s@);
    while i < s.len() && digit(s[i])
        invariant
            i <= s@.len(),
            digit_run(s@) == i + digit_run(s@.skip(i as int)),
        decreases s@.len() - i,
    {
        assert(s@.skip(i as int).drop_first() =~= s@.skip(i + 1));
        i += 1;
    }
    let r = slice_subrange(s, 0, i);
    assert(r@ =~= s@.take(i as int));
    r
}

/// Tells whether a text has only characters of ASCII.
pub open spec fn is_ascii_text(s: Seq<char>) -> bool {
    forall|i: int| 0 <= i < s.len() ==> (#[trigger] s[i] as u32) < 128
}

/// A character with the small letters of ASCII made capital.
pub open spec fn ascii_upper(c: char) -> char {
    if 'a' <= c <= 'z' {
        (c as u32 - 32) as char
    } else {
        c
    }
}

/// A text with the small letters of ASCII made capital.
pub open spec fn ascii_raised(s: Seq<char>) -> Seq<char> {
    Seq::new(s.len(), |i: int| ascii_upper(s[i]))
}

/// The small form of a text.
pub uninterp spec fn lowercase(s: Seq<char>) -> Seq<char>;

/// `str::to_lowercase`: the result depends on the text alone, and of a text in
/// ASCII it makes the capital letters small. Which other letters have a small
/// form is left unsaid.
#[verifier::external_body]
pub(crate) fn to_lowercase(s: &str) -> (r: String)
    ensures
        r@ == lowercase(s@),
        is_ascii_text(s@) ==> r@ == ascii_folded(s@),
{
    s.to_lowercase()
}

/// The capital form of a text.
pub uninterp spec fn uppercase(s: Seq<char>) -> Seq<char>;

/// `str::to_uppercase`: the result depends on the text alone, and of a text in
/// ASCII it makes the small letters capital. Which other letters have a capital
/// form is left unsaid.
#[verifier::external_body]
pub(crate) fn to_uppercase(s: &str) -> (r: String)
    ensures
        r@ == uppercase(s@),
        is_ascii_text(s@) ==> r@ == ascii_raised(s@),
{
    s.to_uppercase()
}

/// A number that was written is read back as itself, up to the greatest that may be read.
pub proof fn numbers_are_read_back(n: nat, max: int)
    ensures
        read_unsigned(decimal(n), max) == (if n <= max {
            Some(n as int)
        } else {
            None::<int>
        }),
{
    lemma_decimal(n);
    assert(is_digit(decimal(n)[0]));
    assert(decimal(n)[0] != '+');
}

/// A signed number of 64 bits that was written is read back as itself.
pub proof fn signed_numbers_are_read_back(n: i64)
    ensures
        read_i64(decimal_int(n as int)) == Some(n as int),
{
    let m: nat = if n < 0 {
        (-n) as nat
    } else {
        n as nat
    };
    lemma_decimal(m);
    numbers_are_read_back(m, 0x7fff_ffff_ffff_ffff);
    assert(is_digit(decimal(m)[0]));
    if n < 0 {
        assert(decimal_int(n as int).skip(1) =~= decimal(m));
    }
}

/// Tells whether a text is made of white space alone.
pub open spec fn is_white(s: Seq<char>) -> bool {
    forall|i: int| 0 <= i < s.len() ==> is_space(#[trigger] s[i])
}

/// Trimming takes white space from both ends, all of it and nothing else. It hands out what
/// was taken from the front and from the end.
pub proof fn trimming_takes_white_space(s: Seq<char>) -> (r: (Seq<char>, Seq<char>))
    ensures
        s == r.0 + trim(s) + r.1,
        is_white(r.0),
        is_white(r.1),
        trim(s).len() > 0 ==> !is_space(trim(s)[0]) && !is_space(trim(s).last()),
{
    let front = trimming_the_front(s);
    let t = trim_start(s);
    let end = trimming_the_end(t);
    assert(s =~= front + trim(s) + end);
    if trim(s).len() > 0 {
        assert(trim(s)[0] == t[0]);
    }
    (front, end)
}

proof fn trimming_the_front(s: Seq<char>) -> (r: Seq<char>)
    ensures
        s == r + trim_start(s),
        is_white(r),
        trim_start(s).len() > 0 ==> !is_space(trim_start(s)[0]),
    decreases s.len(),
{
    if s.len() > 0 && is_space(s[0]) {
        let rest = trimming_the_front(s.drop_first());
        let r = seq![s[0]] + rest;
        let t = s.drop_first();
        assert(t == rest + trim_start(t));
        assert(s =~= seq![s[0]] + t);
        assert(s =~= r + trim_start(s));
        r
    } else {
        let r = Seq::<char>::empty();
        assert(s =~= r + s);
        r
    }
}

proof fn trimming_the_end(s: Seq<char>) -> (r: Seq<char>)
    ensures
        s == trim_end(s) + r,
        is_white(r),
        trim_end(s).len() > 0 ==> !is_space(trim_end(s).last()),
    decreases s.len(),
{
    if s.len() > 0 && is_space(s.last()) {
        let rest = trimming_the_end(s.drop_last());
        let r = rest.push(s.last());
        let t = s.drop_last();
        assert(t == trim_end(t) + rest);
        assert(s =~= t.push(s.last()));
        assert(s =~= trim_end(s) + r);
        r
    } else {
        let r = Seq::<char>::empty();
        assert(s =~= s + r);
        r
    }
}

/// A text without white space at its ends is what trimming leaves of it, whatever white space
/// stands around it.
pub proof fn trimming_leaves_the_rest(a: Seq<char>, s: Seq<char>, b: Seq<char>)
    requires
        is_white(a),
        is_white(b),
        s.len() > 0 ==> !is_space(s[0]) && !is_space(s.last()),
    ensures
        trim(a + s + b) == s,
    decreases b.len(), a.len(),
{
    let t = a + s + b;
    if a.len() > 0 {
        assert(is_space(a[0]));
        assert(t.drop_first() =~= a.drop_first() + s + b);
        trimming_leaves_the_rest(a.drop_first(), s, b);
    } else if b.len() > 0 {
        assert(is_space(b.last()));
        trimming_leaves_the_rest(a, s, b.drop_last());
        if s.len() == 0 {
            assert(is_space(b[0]));
            assert(t =~= b);
            trimming_leaves_the_rest(b, s, Seq::empty());
            assert(b + s + Seq::<char>::empty() =~= b);
        } else {
            assert(t[0] == s[0]);
            assert((a + s + b.drop_last())[0] == s[0]);
            assert(t.drop_last() =~= a + s + b.drop_last());
        }
    } else {
        assert(t =~= s);
    }
}

/// Texts that do not hold a character, joined by it, are taken apart at it again.
pub proof fn joined_parts_are_split(parts: Seq<Seq<char>>, c: char)
    requires
        parts.len() > 0,
        forall|i: int| 0 <= i < parts.len() ==> !(#[trigger] parts[i]).contains(c),
    ensures
        split(joined(parts, seq![c]), c) == parts,
    decreases parts.len(),
{
    if parts.len() == 1 {
        lemma_position(parts[0], c);
        assert(split(parts[0], c) =~= parts);
    } else {
        let front = parts.drop_last();
        joined_parts_are_split(front, c);
        let a = joined(front, seq![c]);
        assert(joined(parts, seq![c]) =~= a.push(c) + parts.last());
        lemma_split_last(a, parts.last(), c);
        assert(front.push(parts.last()) =~= parts);
    }
}

/// A text that is cut in three at a character keeps in its last part whatever follows the
/// second one.
pub proof fn cutting_in_three(a: Seq<char>, b: Seq<char>, rest: Seq<char>, c: char)
    requires
        !a.contains(c),
        !b.contains(c),
    ensures
        splitn(a.push(c) + b.push(c) + rest, c, 3) == seq![a, b, rest],
{
    let s = a.push(c) + b.push(c) + rest;
    let t = b.push(c) + rest;
    lemma_position(s, c);
    lemma_position(t, c);
    assert(s[a.len() as int] == c);
    assert(position(s, c) == a.len()) by {
        if position(s, c) < a.len() {
            assert(a[position(s, c)] == c);
        }
    }
    assert(s.take(a.len() as int) =~= a);
    assert(s.skip(a.len() as int + 1) =~= t);
    assert(t[b.len() as int] == c);
    assert(position(t, c) == b.len()) by {
        if position(t, c) < b.len() {
            assert(b[position(t, c)] == c);
        }
    }
    assert(t.take(b.len() as int) =~= b);
    assert(t.skip(b.len() as int + 1) =~= rest);
    reveal_with_fuel(splitn, 4);
    assert(splitn(s, c, 3) =~= seq![a, b, rest]);
}

/// The first line of a text ends at its first line feed, with or without a carriage return
/// before that, and the other lines are those of what follows.
pub proof fn lines_end_at_line_feeds(line: Seq<char>, rest: Seq<char>)
    requires
        !line.contains('\n'),
        line.len() > 0 ==> line.last() != '\r',
    ensures
        lines(line.push('\n') + rest) == seq![line] + lines(rest),
        lines(line.push('\r').push('\n') + rest) == seq![line] + lines(rest),
        line.len() > 0 ==> lines(line) == seq![line],
{
    let one = line.push('\n') + rest;
    let two = line.push('\r').push('\n') + rest;
    lemma_position(one, '\n');
    lemma_position(two, '\n');
    lemma_position(line, '\n');
    assert(one[line.len() as int] == '\n');
    assert(two[line.len() as int + 1] == '\n');
    assert(two[line.len() as int] == '\r');
    assert(position(one, '\n') == line.len()) by {
        if position(one, '\n') < line.len() {
            assert(line[position(one, '\n')] == '\n');
        }
    }
    assert(position(two, '\n') == line.len() + 1) by {
        if position(two, '\n') < line.len() {
            assert(line[position(two, '\n')] == '\n');
        }
    }
    assert(one.take(line.len() as int) =~= line);
    assert(one.skip(line.len() as int + 1) =~= rest);
    assert(two.take(line.len() as int + 1) =~= line.push('\r'));
    assert(line.push('\r').drop_last() =~= line);
    assert(two.skip(line.len() as int + 2) =~= rest);
}

/// A word ends at white space: of a text that begins with one, the words are that one and
/// those of what follows.
pub proof fn words_end_at_white_space(before: Seq<char>, word: Seq<char>, rest: Seq<char>)
    requires
        is_white(before),
        word.len() > 0,
        forall|i: int| 0 <= i < word.len() ==> !is_space(#[trigger] word[i]),
        rest.len() > 0 ==> is_space(rest[0]),
    ensures
        words(before + word + rest) == seq![word] + words(rest),
{
    let s = before + word + rest;
    let t = word + rest;
    lemma_start_of(before, t);
    assert(s =~= before + t);
    assert(t[0] == word[0]);
    lemma_word_len(word, rest);
    assert(t.take(word.len() as int) =~= word);
    assert(t.skip(word.len() as int) =~= rest);
}

proof fn lemma_start_of(before: Seq<char>, t: Seq<char>)
    requires
        is_white(before),
        t.len() > 0 ==> !is_space(t[0]),
    ensures
        trim_start(before + t) == t,
    decreases before.len(),
{
    if before.len() > 0 {
        assert(is_space(before[0]));
        assert((before + t).drop_first() =~= before.drop_first() + t);
        lemma_start_of(before.drop_first(), t);
    } else {
        assert(before + t =~= t);
    }
}

proof fn lemma_word_len(word: Seq<char>, rest: Seq<char>)
    requires
        forall|i: int| 0 <= i < word.len() ==> !is_space(#[trigger] word[i]),
        rest.len() > 0 ==> is_space(rest[0]),
    ensures
        word_len(word + rest) == word.len(),
    decreases word.len(),
{
    if word.len() > 0 {
        assert(!is_space(word[0]));
        assert((word + rest).drop_first() =~= word.drop_first() + rest);
        assert forall|i: int| 0 <= i < word.len() - 1 implies !is_space(
            #[trigger] word.drop_first()[i],
        ) by {
            assert(word[i + 1] == word.drop_first()[i]);
        }
        lemma_word_len(word.drop_first(), rest);
    } else {
        assert(word + rest =~= rest);
    }
}

/// The small and the capital letters of ASCII stand for one another, and nothing else changes.
pub proof fn letters_change_their_size(s: Seq<char>)
    ensures
        ascii_folded(ascii_raised(s)) == ascii_folded(s),
        ascii_raised(ascii_folded(s)) == ascii_raised(s),
        ascii_folded("ABCDEFGHIJKLMNOPQRSTUVWXYZ"@) == "abcdefghijklmnopqrstuvwxyz"@,
        ascii_raised("abcdefghijklmnopqrstuvwxyz"@) == "ABCDEFGHIJKLMNOPQRSTUVWXYZ"@,
        forall|i: int|
            0 <= i < s.len() && !('a' <= s[i] <= 'z') ==> #[trigger] ascii_raised(s)[i] == s[i],
        forall|i: int|
            0 <= i < s.len() && !('A' <= s[i] <= 'Z') ==> #[trigger] ascii_folded(s)[i] == s[i],
{
    reveal_strlit("ABCDEFGHIJKLMNOPQRSTUVWXYZ");
    reveal_strlit("abcdefghijklmnopqrstuvwxyz");
    assert forall|i: int| 0 <= i < s.len() implies #[trigger] ascii_folded(ascii_raised(s))[i]
        == ascii_folded(s)[i] by {
        lemma_sizes(s[i]);
    }
    assert forall|i: int| 0 <= i < s.len() implies #[trigger] ascii_raised(ascii_folded(s))[i]
        == ascii_raised(s)[i] by {
        lemma_sizes(s[i]);
    }
    assert(ascii_folded(ascii_raised(s)) =~= ascii_folded(s));
    assert(ascii_raised(ascii_folded(s)) =~= ascii_raised(s));
    assert(ascii_folded("ABCDEFGHIJKLMNOPQRSTUVWXYZ"@) =~= "abcdefghijklmnopqrstuvwxyz"@);
    assert(ascii_raised("abcdefghijklmnopqrstuvwxyz"@) =~= "ABCDEFGHIJKLMNOPQRSTUVWXYZ"@);
}

proof fn lemma_sizes(c: char)
    ensures
        ascii_lower(ascii_upper(c)) == ascii_lower(c),
        ascii_upper(ascii_lower(c)) == ascii_upper(c),
{
}

/// Nothing that is printed counts as white space, and of the first characters just the blank and
/// those that move to another place do; further on it is the blanks of other widths.
pub proof fn white_space_is_not_printed(c: char)
    ensures
        '!' <= c <= '~' ==> !is_space(c),
        c < ' ' ==> (is_space(c) <==> '\t' <= c <= '\r'),
        is_space(' ') && is_space('\n') && is_space('\t') && is_space('\r'),
        '\u{a1}' <= c <= '\u{167f}' ==> !is_space(c),
        '\u{2000}' <= c <= '\u{200a}' ==> is_space(c),
        c > '\u{3000}' ==> !is_space(c),
        is_space('\u{85}') && is_space('\u{a0}') && is_space('\u{1680}') && is_space('\u{2028}'),
        is_space('\u{2029}') && is_space('\u{202f}') && is_space('\u{205f}'),
        is_space('\u{3000}'),
{
}

/// A number is written in base ten: one more digit at its end makes it ten times as large, and
/// adds that digit.
pub proof fn numbers_are_written_in_base_ten(n: nat, d: nat)
    requires
        n > 0,
        d < 10,
    ensures
        decimal(10 * n + d) == decimal(n).push(('0' as u32 + d) as char),
        decimal(d) == seq![('0' as u32 + d) as char],
        decimal_int(-(n as int)) == seq!['-'] + decimal(n),
{
    assert((10 * n + d) / 10 == n && (10 * n + d) % 10 == d);
}

/// A text begins with another just where that can be made whole, and so it is with its end and
/// with any place in it.
pub proof fn texts_stand_in_others(a: Seq<char>, p: Seq<char>, b: Seq<char>, s: Seq<char>)
    ensures
        starts_with(p + b, p),
        ends_with(a + p, p),
        stands_at(a + p + b, p, a.len() as int),
        contains(a + p + b, p),
        starts_with(s, p) ==> s == p + s.skip(p.len() as int),
        ends_with(s, p) ==> s == s.take(s.len() - p.len()) + p,
{
    assert((p + b).take(p.len() as int) =~= p);
    assert((a + p).skip(a.len() as int) =~= p);
    assert((a + p + b).subrange(a.len() as int, a.len() as int + p.len()) =~= p);
    assert(stands_at(a + p + b, p, a.len() as int));
    if starts_with(s, p) {
        assert(s =~= s.take(p.len() as int) + s.skip(p.len() as int));
    }
    if ends_with(s, p) {
        assert(s =~= s.take(s.len() - p.len()) + s.skip(s.len() - p.len()));
    }
}

/// One character in the place of another changes just where that stood, and two such changes
/// can be taken back where the second character was not there before.
pub proof fn replacing_can_be_taken_back(s: Seq<char>, from: char, to: char, i: int)
    requires
        0 <= i < s.len(),
    ensures
        replaced(s, from, to).len() == s.len(),
        s[i] == from ==> replaced(s, from, to)[i] == to,
        s[i] != from ==> replaced(s, from, to)[i] == s[i],
        !s.contains(to) ==> replaced(replaced(s, from, to), to, from) == s,
{
    if !s.contains(to) {
        assert(replaced(replaced(s, from, to), to, from) =~= s);
    }
}

/// A text with anything but digits in it, after one sign at most, is read as no number, and so
/// is an empty one.
pub proof fn other_texts_are_no_numbers(s: Seq<char>, i: int, max: int)
    requires
        0 <= i < s.len(),
        !is_digit(s[i]),
        i > 0 || (s[0] != '+' && s[0] != '-'),
    ensures
        read_unsigned(s, max) is None,
        read_i64(s) is None,
        read_unsigned(Seq::empty(), max) is None,
        read_i64(Seq::empty()) is None,
        read_unsigned(seq!['-'], max) is None,
{
    let d = s.skip(1);
    if i > 0 {
        assert(d[i - 1] == s[i]);
    }
    let m = seq!['-'];
    assert(m[0] == '-' && !is_digit('-'));
}

} // verus!
