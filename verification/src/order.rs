//! The alphanumeric order (digit runs compare as numbers) and a stable sort
//! by it. Every order that a user of the library sees is this one.
use vstd::prelude::*;

verus! {

/// How one string stands to another in the alphanumeric order.
#[derive(Clone, Copy, Debug, PartialEq, Eq, Structural)]
pub enum Rank {
    Less,
    Equal,
    Greater,
}

/// The rank that `alphanumeric_sort::compare_str` gives to the pair `(a, b)`.
pub uninterp spec fn alphanumeric_rank(a: Seq<char>, b: Seq<char>) -> Rank;

/// Calls `alphanumeric_sort::compare_str`. Trusted: the result is the rank
/// that the function computes for the two strings, which depends on nothing
/// but their characters.
#[verifier::external_body]
pub(crate) fn compare_str(a: &str, b: &str) -> (r: Rank)
    ensures
        r == alphanumeric_rank(a@, b@),
{
    match alphanumeric_sort::compare_str(a, b) {
        std::cmp::Ordering::Less => Rank::Less,
        std::cmp::Ordering::Equal => Rank::Equal,
        std::cmp::Ordering::Greater => Rank::Greater,
    }
}

/// `a` stands strictly before `b`.
pub open spec fn precedes(a: Seq<char>, b: Seq<char>) -> bool {
    alphanumeric_rank(a, b) == Rank::Less
}

/// `a` may stand directly before `b` in a sorted sequence: `a` precedes `b`,
/// or at least `b` does not precede `a`.
pub open spec fn in_order(a: Seq<char>, b: Seq<char>) -> bool {
    precedes(a, b) || !precedes(b, a)
}

/// `a` stands directly before `b` in a strictly increasing sequence.
pub open spec fn strictly_in_order(a: Seq<char>, b: Seq<char>) -> bool {
    precedes(a, b) || alphanumeric_rank(b, a) == Rank::Greater
}

/// A value that is ordered by a string of its own.
pub trait HasKey {
    /// The string by which the value is ordered.
    spec fn key(&self) -> Seq<char>;
}

/// A value that can hand out the string by which it is ordered.
pub trait Keyed: HasKey {
    fn key_str(&self) -> (k: &str)
        ensures
            k@ == self.key(),
    ;
}

impl HasKey for String {
    open spec fn key(&self) -> Seq<char> {
        self@
    }
}

impl Keyed for String {
    fn key_str(&self) -> (k: &str) {
        self.as_str()
    }
}

impl HasKey for Seq<char> {
    open spec fn key(&self) -> Seq<char> {
        *self
    }
}

/// The keys of `s`, in order.
pub open spec fn keys<T: HasKey>(s: Seq<T>) -> Seq<Seq<char>> {
    Seq::new(s.len(), |i: int| s[i].key())
}

/// Every neighbouring pair of keys is in order.
pub open spec fn ordered(k: Seq<Seq<char>>) -> bool {
    forall|i: int| 0 <= i < k.len() - 1 ==> in_order(#[trigger] k[i], k[i + 1])
}

/// Every neighbouring pair of keys is strictly in order.
pub open spec fn strictly_ordered(k: Seq<Seq<char>>) -> bool {
    forall|i: int| 0 <= i < k.len() - 1 ==> strictly_in_order(#[trigger] k[i], k[i + 1])
}

/// Where `x` enters the sorted sequence `s`: behind the last element that it
/// does not precede, so that equal keys keep their order of arrival.
pub open spec fn insertion_point<T: HasKey>(s: Seq<T>, x: T) -> int
    decreases s.len(),
{
    if s.len() > 0 && precedes(x.key(), s.last().key()) {
        insertion_point(s.drop_last(), x)
    } else {
        s.len() as int
    }
}

/// `s` with `x` entered at its insertion point.
pub open spec fn inserted<T: HasKey>(s: Seq<T>, x: T) -> Seq<T> {
    s.insert(insertion_point(s, x), x)
}

/// The stable alphanumeric sort of `s` by key.
pub open spec fn sorted<T: HasKey>(s: Seq<T>) -> Seq<T>
    decreases s.len(),
{
    if s.len() == 0 {
        s
    } else {
        inserted(sorted(s.drop_last()), s.last())
    }
}

/// The insertion point lies within the sequence, everything from it on is
/// preceded by `x`, and the element before it is not.
pub proof fn lemma_insertion_point<T: HasKey>(s: Seq<T>, x: T)
    ensures
        0 <= insertion_point(s, x) <= s.len(),
        forall|k: int| insertion_point(s, x) <= k < s.len() ==> precedes(x.key(), #[trigger] s[k].key()),
        insertion_point(s, x) > 0 ==> !precedes(x.key(), s[insertion_point(s, x) - 1].key()),
    decreases s.len(),
{
    if s.len() > 0 && precedes(x.key(), s.last().key()) {
        let init = s.drop_last();
        lemma_insertion_point(init, x);
        assert forall|k: int| insertion_point(s, x) <= k < s.len() implies precedes(
            x.key(),
            #[trigger] s[k].key(),
        ) by {
            if k < init.len() {
                assert(s[k] == init[k]);
            }
        }
    }
}

/// A position with the two properties of the insertion point is the
/// insertion point.
pub proof fn lemma_insertion_point_unique<T: HasKey>(s: Seq<T>, x: T, j: int)
    requires
        0 <= j <= s.len(),
        forall|k: int| j <= k < s.len() ==> precedes(x.key(), #[trigger] s[k].key()),
        j > 0 ==> !precedes(x.key(), s[j - 1].key()),
    ensures
        insertion_point(s, x) == j,
    decreases s.len(),
{
    if s.len() > 0 && precedes(x.key(), s.last().key()) {
        assert(j < s.len());
        lemma_insertion_point_unique(s.drop_last(), x, j);
    } else if s.len() > 0 {
        if j < s.len() {
            assert(precedes(x.key(), s[s.len() - 1].key()));
        }
    }
}

/// Sorting keeps every element, as often as it occurred.
pub proof fn lemma_sorted_permutes<T: HasKey>(s: Seq<T>)
    ensures
        sorted(s).to_multiset() == s.to_multiset(),
        sorted(s).len() == s.len(),
    decreases s.len(),
{
    broadcast use vstd::seq_lib::group_to_multiset_ensures;
    if s.len() > 0 {
        let init = s.drop_last();
        let t = sorted(init);
        lemma_sorted_permutes(init);
        lemma_insertion_point(t, s.last());
        let j = insertion_point(t, s.last());
        vstd::seq_lib::lemma_multiset_commutative(t.take(j), t.skip(j));
        assert(t.take(j) + t.skip(j) == t);
        assert(t.insert(j, s.last()) == t.take(j).push(s.last()) + t.skip(j));
        vstd::seq_lib::lemma_multiset_commutative(t.take(j).push(s.last()), t.skip(j));
        assert(init.push(s.last()) == s);
    }
}

/// The keys of a sorted sequence are in order.
pub proof fn lemma_sorted_ordered<T: HasKey>(s: Seq<T>)
    ensures
        ordered(keys(sorted(s))),
    decreases s.len(),
{
    if s.len() > 0 {
        let t = sorted(s.drop_last());
        let x = s.last();
        lemma_sorted_ordered(s.drop_last());
        lemma_insertion_point(t, x);
        let j = insertion_point(t, x);
        let r = t.insert(j, x);
        assert forall|i: int| 0 <= i < keys(r).len() - 1 implies in_order(
            #[trigger] keys(r)[i],
            keys(r)[i + 1],
        ) by {
            if i + 1 < j {
                assert(in_order(keys(t)[i], keys(t)[i + 1]));
            } else if i + 1 == j {
            } else if i == j {
                assert(precedes(x.key(), t[j].key()));
            } else {
                assert(in_order(keys(t)[i - 1], keys(t)[i]));
            }
        }
    }
}

/// The insertion point looks at keys alone.
pub proof fn lemma_insertion_point_map<A: HasKey, B: HasKey>(s: Seq<A>, x: A, f: spec_fn(A) -> B)
    requires
        forall|a: A| #[trigger] f(a).key() == a.key(),
    ensures
        insertion_point(s.map_values(f), f(x)) == insertion_point(s, x),
    decreases s.len(),
{
    if s.len() > 0 {
        assert(s.map_values(f).drop_last() == s.drop_last().map_values(f));
        assert(s.map_values(f).last() == f(s.last()));
        lemma_insertion_point_map(s.drop_last(), x, f);
    }
}

/// Sorting and a change of form that keeps every key may go in either
/// order.
pub proof fn lemma_sorted_map<A: HasKey, B: HasKey>(s: Seq<A>, f: spec_fn(A) -> B)
    requires
        forall|a: A| #[trigger] f(a).key() == a.key(),
    ensures
        sorted(s.map_values(f)) == sorted(s).map_values(f),
    decreases s.len(),
{
    if s.len() > 0 {
        let init = s.drop_last();
        let x = s.last();
        lemma_sorted_map(init, f);
        assert(s.map_values(f).drop_last() == init.map_values(f));
        assert(s.map_values(f).last() == f(x));
        let t = sorted(init);
        lemma_insertion_point_map(t, x, f);
        lemma_insertion_point(t, x);
        let j = insertion_point(t, x);
        assert(t.map_values(f).insert(j, f(x)) =~= t.insert(j, x).map_values(f));
    } else {
        assert(s.map_values(f) =~= Seq::<B>::empty());
        assert(sorted(s).map_values(f) =~= Seq::<B>::empty());
    }
}

/// On the strings of `k` the alphanumeric rank is that of an order: one
/// ranks greater than another just where the other ranks less than it, and
/// what precedes a string that precedes a third precedes the third.
pub open spec fn ranks_as_order(k: Seq<Seq<char>>) -> bool {
    &&& forall|i: int, j: int|
        0 <= i < k.len() && 0 <= j < k.len() ==> ((#[trigger] alphanumeric_rank(k[i], k[j]))
            == Rank::Greater) == (alphanumeric_rank(k[j], k[i]) == Rank::Less)
    &&& forall|i: int, j: int, l: int|
        #![trigger precedes(k[i], k[j]), precedes(k[j], k[l])]
        0 <= i < k.len() && 0 <= j < k.len() && 0 <= l < k.len() && precedes(k[i], k[j])
            && precedes(k[j], k[l]) ==> precedes(k[i], k[l])
}

/// Where the rank is that of an order on the keys at hand, no key of a
/// sequence in order ranks greater than the next.
pub proof fn lemma_ordered_never_greater(k: Seq<Seq<char>>)
    requires
        ordered(k),
        ranks_as_order(k),
    ensures
        forall|i: int|
            0 <= i < k.len() - 1 ==> #[trigger] alphanumeric_rank(k[i], k[i + 1]) != Rank::Greater,
{
    assert forall|i: int| 0 <= i < k.len() - 1 implies #[trigger] alphanumeric_rank(
        k[i],
        k[i + 1],
    ) != Rank::Greater by {
        assert(in_order(k[i], k[i + 1]));
        assert((alphanumeric_rank(k[i], k[i + 1]) == Rank::Greater) == (alphanumeric_rank(
            k[i + 1],
            k[i],
        ) == Rank::Less));
    }
}

/// Where the rank is that of an order on the keys at hand, every key of a
/// strictly increasing sequence precedes the key at `j` behind it.
pub proof fn lemma_precedes_later(k: Seq<Seq<char>>, i: int, j: int)
    requires
        strictly_ordered(k),
        ranks_as_order(k),
        0 <= i < j < k.len(),
    ensures
        precedes(k[i], k[j]),
    decreases j - i,
{
    assert(strictly_in_order(k[j - 1], k[j]));
    assert((alphanumeric_rank(k[j], k[j - 1]) == Rank::Greater) == (alphanumeric_rank(
        k[j - 1],
        k[j],
    ) == Rank::Less));
    assert(precedes(k[j - 1], k[j]));
    if i < j - 1 {
        lemma_precedes_later(k, i, j - 1);
        assert(precedes(k[i], k[j - 1]) && precedes(k[j - 1], k[j]));
    }
}

/// Enters `x` into the sorted vector at its insertion point.
pub fn insert_sorted<T: Keyed>(items: &mut Vec<T>, x: T)
    ensures
        final(items)@ == inserted(old(items)@, x),
{
    let mut j: usize = items.len();
    while j > 0 && compare_str(x.key_str(), items[j - 1].key_str()) == Rank::Less
        invariant
            j <= items.len(),
            items@ == old(items)@,
            forall|k: int| j <= k < items.len() ==> precedes(x.key(), #[trigger] items@[k].key()),
        decreases j,
    {
        j -= 1;
    }
    proof {
        lemma_insertion_point_unique(items@, x, j as int);
    }
    items.insert(j, x);
}

/// The elements of `items` from the last to the first.
pub fn reversed<T>(items: Vec<T>) -> (r: Vec<T>)
    ensures
        r@ == items@.reverse(),
{
    let mut items = items;
    let ghost all = items@;
    let mut r: Vec<T> = Vec::new();
    while items.len() > 0
        invariant
            items.len() + r.len() == all.len(),
            items@ == all.take(items.len() as int),
            forall|k: int| 0 <= k < r.len() ==> r@[k] == all[all.len() - 1 - k],
        decreases items.len(),
    {
        let x = items.pop().unwrap();
        r.push(x);
    }
    assert(r@ =~= all.reverse());
    r
}

/// Sorts `items` by key in the alphanumeric order; elements whose keys do
/// not precede one another keep their order.
pub fn sort<T: Keyed>(items: Vec<T>) -> (r: Vec<T>)
    ensures
        r@ == sorted(items@),
        r@.to_multiset() == items@.to_multiset(),
        ordered(keys(r@)),
{
    let ghost all = items@;
    let mut reversed = reversed(items);
    let mut r: Vec<T> = Vec::new();
    while reversed.len() > 0
        invariant
            reversed.len() <= all.len(),
            forall|k: int| 0 <= k < reversed.len() ==> reversed@[k] == all[all.len() - 1 - k],
            r@ == sorted(all.take(all.len() - reversed.len())),
        decreases reversed.len(),
    {
        let ghost n = all.len() - reversed.len();
        let x = reversed.pop().unwrap();
        assert(all.take(n + 1).drop_last() == all.take(n));
        assert(all.take(n + 1).last() == x);
        insert_sorted(&mut r, x);
    }
    proof {
        assert(all.take(all.len() as int) == all);
        lemma_sorted_permutes(all);
        lemma_sorted_ordered(all);
    }
    r
}

} // verus!
