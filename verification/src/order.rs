//! The order of texts, and lists kept in a stable order.

use vstd::prelude::*;

use crate::text::chars_of;

verus! {

// ---------------------------------------------------------------------------
// The order of texts
// ---------------------------------------------------------------------------

/// The order of texts: that of their first different characters, a proper
/// prefix first.
pub open spec fn before(a: Seq<char>, b: Seq<char>) -> bool
    decreases a.len(),
{
    if b.len() == 0 {
        false
    } else if a.len() == 0 {
        true
    } else if a[0] != b[0] {
        a[0] < b[0]
    } else {
        before(a.drop_first(), b.drop_first())
    }
}

/// No text comes before itself.
pub proof fn lemma_before_irreflexive(a: Seq<char>)
    ensures
        !before(a, a),
    decreases a.len(),
{
    if a.len() > 0 {
        lemma_before_irreflexive(a.drop_first());
    }
}

/// The order is transitive.
pub proof fn lemma_before_transitive(a: Seq<char>, b: Seq<char>, c: Seq<char>)
    requires
        before(a, b),
        before(b, c),
    ensures
        before(a, c),
    decreases a.len(),
{
    if a.len() > 0 && b.len() > 0 && c.len() > 0 && a[0] == b[0] && b[0] == c[0] {
        lemma_before_transitive(a.drop_first(), b.drop_first(), c.drop_first());
    }
}

/// Of two different texts one comes before the other.
pub proof fn lemma_before_total(a: Seq<char>, b: Seq<char>)
    ensures
        before(a, b) || before(b, a) || a == b,
    decreases a.len(),
{
    if a.len() > 0 && b.len() > 0 && a[0] == b[0] {
        lemma_before_total(a.drop_first(), b.drop_first());
        if a.drop_first() == b.drop_first() {
            assert(a == seq![a[0]] + a.drop_first());
            assert(b == seq![b[0]] + b.drop_first());
        }
    } else if a.len() == 0 && b.len() == 0 {
        assert(a == b);
    }
}

/// Of two texts that each come before the other there is no pair.
pub proof fn lemma_before_asymmetric(a: Seq<char>, b: Seq<char>)
    requires
        before(a, b),
    ensures
        !before(b, a),
{
    if before(b, a) {
        lemma_before_transitive(a, b, a);
        lemma_before_irreflexive(a);
    }
}

/// Tells whether `a` comes before `b`.
pub fn comes_before(a: &[char], b: &[char]) -> (r: bool)
    ensures
        r == before(a@, b@),
{
    let mut i: usize = 0;
    assert(a@.skip(0) == a@);
    assert(b@.skip(0) == b@);
    while i < a.len() && i < b.len() && a[i] == b[i]
        invariant
            i <= a.len(),
            i <= b.len(),
            before(a@, b@) == before(a@.skip(i as int), b@.skip(i as int)),
        decreases a.len() - i,
    {
        assert(a@.skip(i as int).drop_first() == a@.skip(i + 1));
        assert(b@.skip(i as int).drop_first() == b@.skip(i + 1));
        i += 1;
    }
    if i == b.len() {
        false
    } else if i == a.len() {
        true
    } else {
        a[i] < b[i]
    }
}

/// Tells whether the text `a` comes before the text `b`.
pub fn text_before(a: &str, b: &str) -> (r: bool)
    ensures
        r == before(a@, b@),
{
    let x = chars_of(a);
    let y = chars_of(b);
    comes_before(x.as_slice(), y.as_slice())
}

// ---------------------------------------------------------------------------
// Lists in a stable order
// ---------------------------------------------------------------------------

/// Where an item stands in a list: first by its group, then by its text.
pub struct Rank {
    pub group: u8,
    pub text: Vec<char>,
}

/// What a rank stands for.
pub struct RankView {
    pub group: u8,
    pub text: Seq<char>,
}

impl View for Rank {
    type V = RankView;

    open spec fn view(&self) -> RankView {
        RankView { group: self.group, text: self.text@ }
    }
}

/// The order of ranks.
pub open spec fn rank_before(a: RankView, b: RankView) -> bool {
    a.group < b.group || (a.group == b.group && before(a.text, b.text))
}

/// Tells whether `a` comes before `b`.
fn ranks_before(a: &Rank, b: &Rank) -> (r: bool)
    ensures
        r == rank_before(a@, b@),
{
    a.group < b.group || (a.group == b.group && comes_before(a.text.as_slice(), b.text.as_slice()))
}

proof fn lemma_rank_transitive(a: RankView, b: RankView, c: RankView)
    requires
        rank_before(a, b),
        rank_before(b, c),
    ensures
        rank_before(a, c),
{
    if a.group == b.group && b.group == c.group {
        lemma_before_transitive(a.text, b.text, c.text);
    }
}

proof fn lemma_rank_irreflexive(a: RankView)
    ensures
        !rank_before(a, a),
{
    lemma_before_irreflexive(a.text);
}

proof fn lemma_rank_total(a: RankView, b: RankView)
    ensures
        rank_before(a, b) || rank_before(b, a) || a == b,
{
    lemma_before_total(a.text, b.text);
}

/// No item comes before one that stands earlier in the list.
pub open spec fn in_order<T>(s: Seq<(RankView, T)>) -> bool {
    forall|i: int, j: int| 0 <= i < j < s.len() ==> !rank_before(s[j].0, s[i].0)
}

/// Where an item of rank `k` goes: behind every item that does not come after
/// it.
pub open spec fn slot<T>(s: Seq<(RankView, T)>, k: RankView) -> int
    decreases s.len(),
{
    if s.len() == 0 || rank_before(k, s[0].0) {
        0
    } else {
        1 + slot(s.drop_first(), k)
    }
}

/// The list with one more item, behind those of the same rank.
pub open spec fn placed<T>(s: Seq<(RankView, T)>, k: RankView, x: T) -> Seq<(RankView, T)> {
    s.insert(slot(s, k), (k, x))
}

proof fn lemma_slot<T>(s: Seq<(RankView, T)>, k: RankView)
    ensures
        0 <= slot(s, k) <= s.len(),
        slot(s, k) < s.len() ==> rank_before(k, s[slot(s, k)].0),
        forall|i: int| 0 <= i < slot(s, k) ==> !rank_before(k, #[trigger] s[i].0),
    decreases s.len(),
{
    if s.len() > 0 && !rank_before(k, s[0].0) {
        lemma_slot(s.drop_first(), k);
        assert forall|i: int| 0 <= i < slot(s, k) implies !rank_before(k, #[trigger] s[i].0) by {
            if i > 0 {
                assert(s.drop_first()[i - 1] == s[i]);
            }
        }
    }
}

/// The slot is the only place that parts the items that come after `k` from
/// the others.
proof fn lemma_slot_unique<T>(s: Seq<(RankView, T)>, k: RankView, p: int)
    requires
        0 <= p <= s.len(),
        forall|i: int| 0 <= i < p ==> !rank_before(k, #[trigger] s[i].0),
        p < s.len() ==> rank_before(k, s[p].0),
    ensures
        slot(s, k) == p,
{
    lemma_slot(s, k);
    let q = slot(s, k);
    if q < p {
        assert(!rank_before(k, s[q].0));
    }
    if p < q {
        assert(!rank_before(k, s[p].0));
    }
}

/// A list in order stays in order when an item is placed in it, holds just the
/// items that it held and the new one, and keeps the others as they stood.
pub proof fn lemma_placed<T>(s: Seq<(RankView, T)>, k: RankView, x: T)
    requires
        in_order(s),
    ensures
        in_order(placed(s, k, x)),
        placed(s, k, x).len() == s.len() + 1,
        0 <= slot(s, k) <= s.len(),
        placed(s, k, x)[slot(s, k)] == (k, x),
        placed(s, k, x).remove(slot(s, k)) == s,
        placed(s, k, x).to_multiset() == s.to_multiset().insert((k, x)),
        forall|i: int|
            slot(s, k) < i < s.len() + 1 ==> rank_before(k, #[trigger] placed(s, k, x)[i].0),
        forall|i: int| 0 <= i < slot(s, k) ==> !rank_before(k, #[trigger] placed(s, k, x)[i].0),
{
    broadcast use vstd::seq_lib::group_to_multiset_ensures;

    lemma_slot(s, k);
    let p = slot(s, k);
    let t = placed(s, k, x);
    assert(t.remove(p) == s);
    assert forall|i: int| p < i < t.len() implies rank_before(k, #[trigger] t[i].0) by {
        assert(t[i] == s[i - 1]);
        if i - 1 > p {
            assert(!rank_before(s[i - 1].0, s[p].0));
            lemma_rank_total(s[i - 1].0, s[p].0);
            if rank_before(s[p].0, s[i - 1].0) {
                lemma_rank_transitive(k, s[p].0, s[i - 1].0);
            }
        }
    }
    assert forall|i: int, j: int| 0 <= i < j < t.len() implies !rank_before(t[j].0, t[i].0) by {
        if j == p {
            assert(t[i] == s[i]);
        } else if i == p {
            assert(rank_before(k, t[j].0));
            if rank_before(t[j].0, k) {
                lemma_rank_transitive(t[j].0, k, t[j].0);
                lemma_rank_irreflexive(t[j].0);
            }
        } else {
            let i0 = if i < p { i } else { i - 1 };
            let j0 = if j < p { j } else { j - 1 };
            assert(t[i] == s[i0]);
            assert(t[j] == s[j0]);
            assert(!rank_before(s[j0].0, s[i0].0));
        }
    }
    assert(s.insert(p, (k, x)).to_multiset() == s.to_multiset().insert((k, x)));
}

/// The list that results when items are placed one after another.
pub open spec fn arranged<T>(items: Seq<(RankView, T)>) -> Seq<(RankView, T)>
    decreases items.len(),
{
    if items.len() == 0 {
        seq![]
    } else {
        placed(arranged(items.drop_last()), items.last().0, items.last().1)
    }
}

/// Arranging items puts them in order and neither drops nor adds any.
pub proof fn lemma_arranged<T>(items: Seq<(RankView, T)>)
    ensures
        in_order(arranged(items)),
        arranged(items).len() == items.len(),
        arranged(items).to_multiset() == items.to_multiset(),
    decreases items.len(),
{
    broadcast use vstd::seq_lib::group_to_multiset_ensures;

    if items.len() > 0 {
        let front = items.drop_last();
        lemma_arranged(front);
        lemma_placed(arranged(front), items.last().0, items.last().1);
        assert(items == front.push(items.last()));
        assert((items.last().0, items.last().1) == items.last());
    } else {
        assert(arranged(items) == items);
    }
}

/// The second components of a list of pairs.
pub open spec fn seconds<T>(s: Seq<(RankView, T)>) -> Seq<T> {
    Seq::new(s.len(), |i: int| s[i].1)
}

/// A list with each item replaced.
pub open spec fn mapped<T, U>(s: Seq<(RankView, T)>, f: spec_fn(T) -> U) -> Seq<(RankView, U)> {
    Seq::new(s.len(), |i: int| (s[i].0, f(s[i].1)))
}

proof fn lemma_slot_mapped<T, U>(s: Seq<(RankView, T)>, k: RankView, f: spec_fn(T) -> U)
    ensures
        slot(mapped(s, f), k) == slot(s, k),
    decreases s.len(),
{
    if s.len() > 0 {
        assert(mapped(s, f).drop_first() == mapped(s.drop_first(), f));
        lemma_slot_mapped(s.drop_first(), k, f);
    }
}

/// Where an item goes depends on the ranks alone.
pub proof fn lemma_placed_mapped<T, U>(
    s: Seq<(RankView, T)>,
    k: RankView,
    x: T,
    f: spec_fn(T) -> U,
)
    ensures
        mapped(placed(s, k, x), f) == placed(mapped(s, f), k, f(x)),
{
    lemma_slot(s, k);
    lemma_slot_mapped(s, k, f);
    assert(mapped(placed(s, k, x), f) =~= placed(mapped(s, f), k, f(x)));
}

/// A list that is kept in order while items are added.
pub struct Sorter<T> {
    ranks: Vec<Rank>,
    items: Vec<T>,
}

impl<T> View for Sorter<T> {
    type V = Seq<(RankView, T)>;

    closed spec fn view(&self) -> Seq<(RankView, T)> {
        Seq::new(self.items@.len(), |i: int| (self.ranks@[i]@, self.items@[i]))
    }
}

impl<T> Sorter<T> {
    /// As many ranks as items, and all in order.
    pub closed spec fn wf(&self) -> bool {
        &&& self.ranks@.len() == self.items@.len()
        &&& in_order(self@)
    }

    /// An empty list.
    pub fn new() -> (r: Self)
        ensures
            r.wf(),
            r@ == Seq::<(RankView, T)>::empty(),
    {
        Sorter { ranks: Vec::new(), items: Vec::new() }
    }

    /// Adds an item behind those that do not come after it.
    pub fn add(&mut self, rank: Rank, item: T)
        requires
            old(self).wf(),
        ensures
            final(self).wf(),
            final(self)@ == placed(old(self)@, rank@, item),
    {
        let ghost s = self@;
        let ghost k = rank@;
        let ghost x = item;
        let mut lo: usize = 0;
        let mut hi: usize = self.items.len();
        while lo < hi
            invariant
                lo <= hi <= self.items@.len(),
                self@ == s,
                self.wf(),
                k == rank@,
                in_order(s),
                forall|i: int| 0 <= i < lo ==> !rank_before(k, #[trigger] s[i].0),
                forall|i: int| hi <= i < s.len() ==> rank_before(k, #[trigger] s[i].0),
            decreases hi - lo,
        {
            let mid: usize = lo + (hi - lo) / 2;
            assert(s[mid as int].0 == self.ranks@[mid as int]@);
            if ranks_before(&rank, &self.ranks[mid]) {
                assert forall|i: int| mid <= i < s.len() implies rank_before(
                    k,
                    #[trigger] s[i].0,
                ) by {
                    if i > mid {
                        assert(!rank_before(s[i].0, s[mid as int].0));
                        lemma_rank_total(s[i].0, s[mid as int].0);
                        if rank_before(s[mid as int].0, s[i].0) {
                            lemma_rank_transitive(k, s[mid as int].0, s[i].0);
                        }
                    }
                }
                hi = mid;
            } else {
                assert forall|i: int| 0 <= i <= mid implies !rank_before(k, #[trigger] s[i].0) by {
                    if i < mid {
                        assert(!rank_before(s[mid as int].0, s[i].0));
                        if rank_before(k, s[i].0) {
                            lemma_rank_total(s[i].0, s[mid as int].0);
                            if rank_before(s[i].0, s[mid as int].0) {
                                lemma_rank_transitive(k, s[i].0, s[mid as int].0);
                            }
                        }
                    }
                }
                lo = mid + 1;
            }
        }
        proof {
            lemma_slot_unique(s, k, lo as int);
            lemma_placed(s, k, x);
        }
        self.ranks.insert(lo, rank);
        self.items.insert(lo, item);
        assert(self@ =~= placed(s, k, x));
    }

    /// The items in order.
    pub fn into_items(self) -> (r: Vec<T>)
        requires
            self.wf(),
        ensures
            r@ == seconds(self@),
            in_order(self@),
    {
        let ghost s = self@;
        let items = self.items;
        assert(items@ =~= seconds(s));
        items
    }
}

/// Texts are in the order of the first characters in which they differ, and one comes before
/// all that it begins.
pub proof fn texts_differ_at_one_place(
    same: Seq<char>,
    x: char,
    a: Seq<char>,
    y: char,
    b: Seq<char>,
)
    requires
        x < y,
    ensures
        before(same.push(x) + a, same.push(y) + b),
        before(same, same.push(x) + a),
    decreases same.len(),
{
    let s = same.push(x) + a;
    let t = same.push(y) + b;
    if same.len() > 0 {
        let rest = same.drop_first();
        texts_differ_at_one_place(rest, x, a, y, b);
        assert(s[0] == same[0] && t[0] == same[0]);
        assert(s.drop_first() =~= rest.push(x) + a);
        assert(t.drop_first() =~= rest.push(y) + b);
    } else {
        assert(s[0] == x && t[0] == y);
    }
}

} // verus!
