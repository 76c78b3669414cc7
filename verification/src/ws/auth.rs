//! Who may connect.

use vstd::prelude::*;
use vstd::string::*;
use vstd::utf8::encode_utf8_decode_utf8;

use crate::text::{after_prefix, chars_of, split_at_char, starts_with, string_of};
use crate::text::{joined, joined_parts_are_split, slices, split};

verus! {

/// Compares two byte strings without stopping at the first difference, so that
/// the time taken does not tell where it is.
pub fn constant_time_eq(a: &[u8], b: &[u8]) -> (r: bool)
    ensures
        r == (a@ == b@),
{
    if a.len() != b.len() {
        return false;
    }
    let mut diff: u8 = 0;
    let mut i: usize = 0;
    while i < a.len()
        invariant
            i <= a@.len(),
            a@.len() == b@.len(),
            diff == 0 <==> (forall|j: int| 0 <= j < i ==> a@[j] == b@[j]),
        decreases a@.len() - i,
    {
        let x = a[i];
        let y = b[i];
        let d = diff;
        diff = d | (x ^ y);
        assert((d | (x ^ y)) == 0 <==> d == 0 && x == y) by (bit_vector);
        i += 1;
    }
    proof {
        if diff == 0 {
            assert(a@ =~= b@);
        }
    }
    diff == 0
}

/// The value of the first pair that is a token, from the pair at `i` on.
pub open spec fn token_from(pairs: Seq<Seq<char>>, i: int) -> Option<Seq<char>>
    decreases pairs.len() - i,
{
    if i < 0 || i >= pairs.len() {
        None
    } else if starts_with(pairs[i], "token="@) {
        Some(pairs[i].skip("token="@.len() as int))
    } else {
        token_from(pairs, i + 1)
    }
}

/// The token that a query presents: the value of its first pair `token=value`.
pub open spec fn presented(query: Seq<char>) -> Option<Seq<char>> {
    token_from(split(query, '&'), 0)
}

/// The token that a query presents.
pub fn presented_token(query: &str) -> (r: Option<String>)
    ensures
        match r {
            Some(t) => presented(query@) == Some(t@),
            None => presented(query@) is None,
        },
{
    let chars = chars_of(query);
    let pairs = split_at_char(chars.as_slice(), '&');
    let ghost all = split(query@, '&');
    let mut i: usize = 0;
    while i < pairs.len()
        invariant
            i <= pairs@.len(),
            slices(pairs@) == all,
            all == split(query@, '&'),
            token_from(all, 0) == token_from(all, i as int),
        decreases pairs@.len() - i,
    {
        assert(all[i as int] == pairs@[i as int]@);
        match after_prefix(pairs[i], "token=") {
            Some(rest) => {
                return Some(string_of(rest));
            },
            None => {},
        }
        i += 1;
    }
    None
}

/// Tells whether a connection is let in: no token is asked for, or the query
/// presents the one that is.
pub fn authorised(query: &str, expected: &Option<String>) -> (r: bool)
    ensures
        r == match *expected {
            Some(t) => presented(query@) == Some(t@),
            None => true,
        },
{
    match expected {
        None => true,
        Some(t) => match presented_token(query) {
            None => false,
            Some(p) => {
                let a = p.as_str().as_bytes_vec();
                let b = t.as_str().as_bytes_vec();
                proof {
                    encode_utf8_decode_utf8(p@);
                    encode_utf8_decode_utf8(t@);
                }
                constant_time_eq(a.as_slice(), b.as_slice())
            },
        },
    }
}

/// What a connection that is not let in is told.
pub fn refusal() -> (r: (u16, String))
    ensures
        r.0 == 401,
        r.1@ == "missing or invalid token"@,
{
    (401, "missing or invalid token".to_owned())
}

/// A query presents the token of its first pair that names one, whatever the other pairs are.
pub proof fn queries_present_their_token(pairs: Seq<Seq<char>>, i: int, value: Seq<char>)
    requires
        0 <= i < pairs.len(),
        forall|j: int| 0 <= j < pairs.len() ==> !(#[trigger] pairs[j]).contains('&'),
        forall|j: int| 0 <= j < i ==> !starts_with(#[trigger] pairs[j], "token="@),
        pairs[i] == "token="@ + value,
    ensures
        presented(joined(pairs, seq!['&'])) == Some(value),
{
    joined_parts_are_split(pairs, '&');
    lemma_token_at(pairs, 0, i, value);
}

/// A query in which no pair names a token presents none.
pub proof fn queries_without_a_token_present_none(pairs: Seq<Seq<char>>)
    requires
        pairs.len() > 0,
        forall|j: int| 0 <= j < pairs.len() ==> !(#[trigger] pairs[j]).contains('&'),
        forall|j: int| 0 <= j < pairs.len() ==> !starts_with(#[trigger] pairs[j], "token="@),
    ensures
        presented(joined(pairs, seq!['&'])) is None,
{
    joined_parts_are_split(pairs, '&');
    lemma_no_token(pairs, 0);
}

proof fn lemma_token_at(pairs: Seq<Seq<char>>, k: int, i: int, value: Seq<char>)
    requires
        0 <= k <= i < pairs.len(),
        forall|j: int| 0 <= j < i ==> !starts_with(#[trigger] pairs[j], "token="@),
        pairs[i] == "token="@ + value,
    ensures
        token_from(pairs, k) == Some(value),
    decreases i - k,
{
    reveal_strlit("token=");
    if k < i {
        lemma_token_at(pairs, k + 1, i, value);
    } else {
        assert(pairs[i].take("token="@.len() as int) =~= "token="@);
        assert(pairs[i].skip("token="@.len() as int) =~= value);
    }
}

proof fn lemma_no_token(pairs: Seq<Seq<char>>, k: int)
    requires
        0 <= k <= pairs.len(),
        forall|j: int| 0 <= j < pairs.len() ==> !starts_with(#[trigger] pairs[j], "token="@),
    ensures
        token_from(pairs, k) is None,
    decreases pairs.len() - k,
{
    if k < pairs.len() {
        lemma_no_token(pairs, k + 1);
    }
}

} // verus!
