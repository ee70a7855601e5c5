//! The order in which a catalog lists its units: a stable sort by a textual
//! key, with the proof that the outcome is sorted and rearranges its input.

use crate::text::{differ_at, precedes};
use vstd::prelude::*;

verus! {

/// The texts that `keys` hold.
pub open spec fn texts(keys: Seq<Vec<char>>) -> Seq<Seq<char>> {
    Seq::new(keys.len(), |i: int| keys[i]@)
}

/// The positions that `order` holds, as mathematical integers.
pub open spec fn positions(order: Seq<usize>) -> Seq<int> {
    Seq::new(order.len(), |i: int| order[i] as int)
}

/// Where `key` goes in `order`, a sorted arrangement of positions of
/// `keys`: behind every member whose key does not come after `key`.
pub open spec fn place(order: Seq<int>, keys: Seq<Seq<char>>, key: Seq<char>) -> int
    decreases order.len(),
{
    if order.len() > 0 && precedes(key, keys[order.last()]) {
        place(order.drop_last(), keys, key)
    } else {
        order.len() as int
    }
}

/// The positions of the first `n` keys, sorted by key; keys that are equal
/// stay in the order in which they stand in `keys`.
pub open spec fn sort_prefix(keys: Seq<Seq<char>>, n: nat) -> Seq<int>
    decreases n,
{
    if n == 0 {
        Seq::empty()
    } else {
        let before = sort_prefix(keys, (n - 1) as nat);
        before.insert(place(before, keys, keys[n - 1]), n - 1)
    }
}

/// The positions of `keys`, sorted by key; keys that are equal stay in the
/// order in which they stand in `keys`.
pub open spec fn sort_order(keys: Seq<Seq<char>>) -> Seq<int> {
    sort_prefix(keys, keys.len())
}

/// `items` taken in the order that `order` gives.
pub open spec fn arrange<T>(items: Seq<T>, order: Seq<int>) -> Seq<T> {
    Seq::new(order.len(), |i: int| items[order[i]])
}

/// `order` holds each of the positions `0..n` once.
pub open spec fn is_arrangement(order: Seq<int>, n: nat) -> bool {
    &&& order.len() == n
    &&& forall|i: int| 0 <= i < order.len() ==> 0 <= #[trigger] order[i] < n
    &&& forall|i: int, j: int|
        0 <= i < j < order.len() ==> #[trigger] order[i] != #[trigger] order[j]
    &&& forall|v: int| 0 <= v < n ==> order.contains(v)
}

/// Along `order` no key comes before an earlier one, and of two equal keys
/// the one that stands first in `keys` comes first.
pub open spec fn in_order(keys: Seq<Seq<char>>, order: Seq<int>) -> bool {
    forall|i: int, j: int|
        0 <= i < j < order.len() ==> {
            &&& !precedes(keys[#[trigger] order[j]], keys[#[trigger] order[i]])
            &&& (keys[order[i]] == keys[order[j]] ==> order[i] < order[j])
        }
}

/// No text comes before itself.
pub proof fn lemma_precedes_irreflexive(a: Seq<char>)
    ensures
        !precedes(a, a),
{
    assert forall|k: int| !#[trigger] differ_at(a, a, k) by {}
}

/// The order of texts is transitive.
pub proof fn lemma_precedes_transitive(a: Seq<char>, b: Seq<char>, c: Seq<char>)
    requires
        precedes(a, b),
        precedes(b, c),
    ensures
        precedes(a, c),
{
    let k1 = choose|k: int| #[trigger] differ_at(a, b, k);
    let k2 = choose|k: int| #[trigger] differ_at(b, c, k);
    if k1 <= k2 {
        assert(b.take(k1) =~= b.take(k2).take(k1));
        assert(c.take(k1) =~= c.take(k2).take(k1));
        if k1 < k2 {
            assert(b[k1] == b.take(k2)[k1]);
            assert(c[k1] == c.take(k2)[k1]);
        }
        assert(differ_at(a, c, k1));
    } else {
        assert(a.take(k2) =~= a.take(k1).take(k2));
        assert(b.take(k2) =~= b.take(k1).take(k2));
        assert(a[k2] == a.take(k1)[k2]);
        assert(b[k2] == b.take(k1)[k2]);
        assert(differ_at(a, c, k2));
    }
}

/// Two texts that agree on their first `k` characters are equal, or one
/// comes before the other.
proof fn lemma_precedes_total_from(a: Seq<char>, b: Seq<char>, k: int)
    requires
        0 <= k <= a.len(),
        k <= b.len(),
        a.take(k) == b.take(k),
    ensures
        a == b || precedes(a, b) || precedes(b, a),
    decreases a.len() - k,
{
    if k == a.len() {
        if k == b.len() {
            assert(a.take(k) =~= a);
            assert(b.take(k) =~= b);
        } else {
            assert(differ_at(a, b, k));
        }
    } else if k == b.len() {
        assert(differ_at(b, a, k));
    } else if a[k] == b[k] {
        assert(a.take(k + 1) =~= a.take(k).push(a[k]));
        assert(b.take(k + 1) =~= b.take(k).push(b[k]));
        lemma_precedes_total_from(a, b, k + 1);
    } else if (a[k] as int) < (b[k] as int) {
        assert(differ_at(a, b, k));
    } else {
        assert(differ_at(b, a, k));
    }
}

/// Of two different texts one comes before the other.
pub proof fn lemma_precedes_total(a: Seq<char>, b: Seq<char>)
    ensures
        a == b || precedes(a, b) || precedes(b, a),
{
    assert(a.take(0) =~= b.take(0));
    lemma_precedes_total_from(a, b, 0);
}

/// The place of a key lies within the arrangement, every member from the
/// place on has a key that comes after it, and the member just before the
/// place has not.
pub proof fn lemma_place(order: Seq<int>, keys: Seq<Seq<char>>, key: Seq<char>)
    ensures
        0 <= place(order, keys, key) <= order.len(),
        forall|j: int|
            place(order, keys, key) <= j < order.len() ==> precedes(
                key,
                keys[#[trigger] order[j]],
            ),
        place(order, keys, key) > 0 ==> !precedes(
            key,
            keys[order[place(order, keys, key) - 1]],
        ),
    decreases order.len(),
{
    if order.len() > 0 && precedes(key, keys[order.last()]) {
        lemma_place(order.drop_last(), keys, key);
        let p = place(order, keys, key);
        assert forall|j: int| p <= j < order.len() implies precedes(
            key,
            keys[#[trigger] order[j]],
        ) by {
            if j < order.len() - 1 {
                assert(order.drop_last()[j] == order[j]);
            }
        }
        if p > 0 {
            assert(order.drop_last()[p - 1] == order[p - 1]);
        }
    }
}

/// The sorted positions of the first `n` keys hold each of `0..n` once, and
/// along them the keys never fall, equal keys keeping their first order.
pub proof fn lemma_sort_prefix(keys: Seq<Seq<char>>, n: nat)
    requires
        n <= keys.len(),
    ensures
        is_arrangement(sort_prefix(keys, n), n),
        in_order(keys, sort_prefix(keys, n)),
    decreases n,
{
    if n > 0 {
        let before = sort_prefix(keys, (n - 1) as nat);
        let key = keys[n - 1];
        let p = place(before, keys, key);
        let after = before.insert(p, n - 1);
        lemma_sort_prefix(keys, (n - 1) as nat);
        lemma_place(before, keys, key);
        before.insert_ensures(p, n - 1);
        assert forall|i: int| 0 <= i < after.len() implies 0 <= #[trigger] after[i] < n by {
            if i < p {
                assert(after[i] == before[i]);
            } else if i > p {
                assert(after[i] == before[i - 1]);
            }
        }
        assert forall|v: int| 0 <= v < n implies after.contains(v) by {
            if v == n - 1 {
                assert(after[p] == v);
            } else {
                assert(before.contains(v));
                let w = choose|w: int| 0 <= w < before.len() && before[w] == v;
                if w < p {
                    assert(after[w] == v);
                } else {
                    assert(after[w + 1] == v);
                }
            }
        }
        assert forall|i: int, j: int| 0 <= i < j < after.len() implies {
            &&& #[trigger] after[i] != #[trigger] after[j]
            &&& !precedes(keys[after[j]], keys[after[i]])
            &&& (keys[after[i]] == keys[after[j]] ==> after[i] < after[j])
        } by {
            if j == p {
                assert(after[i] == before[i]);
                assert(after[j] == n - 1);
                let low = keys[before[i]];
                let edge = keys[before[p - 1]];
                if precedes(key, low) {
                    if i < p - 1 {
                        assert(!precedes(keys[before[p - 1]], keys[before[i]]));
                        lemma_precedes_total(edge, low);
                        if edge != low {
                            lemma_precedes_transitive(key, low, edge);
                        }
                    }
                    assert(false);
                }
            } else if i == p {
                assert(after[i] == n - 1);
                assert(after[j] == before[j - 1]);
                let high = keys[before[j - 1]];
                assert(precedes(key, high));
                lemma_precedes_irreflexive(key);
                if precedes(high, key) {
                    lemma_precedes_transitive(key, high, key);
                }
            } else {
                let bi = if i < p {
                    i
                } else {
                    i - 1
                };
                let bj = if j < p {
                    j
                } else {
                    j - 1
                };
                assert(after[i] == before[bi]);
                assert(after[j] == before[bj]);
                assert(bi < bj);
                assert(!precedes(keys[before[bj]], keys[before[bi]]));
            }
        }
    }
}

/// The sorted positions of `keys` hold each position once, and along them
/// the keys never fall, equal keys keeping their first order.
pub proof fn lemma_sort_order(keys: Seq<Seq<char>>)
    ensures
        is_arrangement(sort_order(keys), keys.len()),
        in_order(keys, sort_order(keys)),
{
    lemma_sort_prefix(keys, keys.len());
}

/// There is one way only to put the first `n` positions in order: an
/// arrangement along which the keys never fall and equal keys keep their
/// first order is the sorted one.
pub proof fn lemma_sorted_is_unique(keys: Seq<Seq<char>>, a: Seq<int>, b: Seq<int>, n: nat)
    requires
        n <= keys.len(),
        is_arrangement(a, n),
        is_arrangement(b, n),
        in_order(keys, a),
        in_order(keys, b),
    ensures
        a == b,
{
    assert forall|i: int| 0 <= i < n implies a[i] == b[i] by {
        lemma_agree_up_to(keys, a, b, n, i);
    }
    assert(a =~= b);
}

/// Two ordered arrangements of the same positions agree at every place up
/// to `i`.
proof fn lemma_agree_up_to(keys: Seq<Seq<char>>, a: Seq<int>, b: Seq<int>, n: nat, i: int)
    requires
        n <= keys.len(),
        is_arrangement(a, n),
        is_arrangement(b, n),
        in_order(keys, a),
        in_order(keys, b),
        0 <= i < n,
    ensures
        forall|k: int| 0 <= k <= i ==> a[k] == b[k],
    decreases i,
{
    if i > 0 {
        lemma_agree_up_to(keys, a, b, n, i - 1);
    }
    if a[i] != b[i] {
        assert(b.contains(a[i]));
        let j = choose|j: int| 0 <= j < b.len() && b[j] == a[i];
        assert(a.contains(b[i]));
        let m = choose|m: int| 0 <= m < a.len() && a[m] == b[i];
        if j < i {
            assert(a[j] == b[j]);
            assert(a[j] != a[i]);
        }
        if m < i {
            assert(a[m] == b[m]);
            assert(b[m] != b[i]);
        }
        // a[i] stands behind b[i] in `b`, and b[i] behind a[i] in `a`
        assert(i < j && i < m);
        let x = keys[a[i]];
        let y = keys[b[i]];
        assert(!precedes(keys[b[j]], keys[b[i]]));
        assert(!precedes(keys[a[m]], keys[a[i]]));
        lemma_precedes_total(x, y);
        assert(x == y);
        assert(b[i] < b[j]);
        assert(a[i] < a[m]);
        assert(false);
    }
}

/// Tells whether `a` comes before `b` in the lexicographic order of their
/// scalar values.
pub fn chars_precede(a: &[char], b: &[char]) -> (r: bool)
    ensures
        r == precedes(a@, b@),
{
    let mut i: usize = 0;
    while i < a.len() && i < b.len()
        invariant
            i <= a@.len(),
            i <= b@.len(),
            a@.take(i as int) == b@.take(i as int),
        decreases a@.len() - i,
    {
        let x = a[i];
        let y = b[i];
        if x != y {
            let less = x < y;
            proof {
                if less {
                    assert(differ_at(a@, b@, i as int));
                } else {
                    lemma_no_witness(a@, b@, i as int);
                }
            }
            return less;
        }
        assert(a@.take(i + 1) =~= a@.take(i as int).push(x));
        assert(b@.take(i + 1) =~= b@.take(i as int).push(y));
        i += 1;
    }
    proof {
        if i < b.len() {
            assert(differ_at(a@, b@, i as int));
        } else {
            lemma_no_witness(a@, b@, i as int);
        }
    }
    i < b.len()
}

/// Where two texts agree up to position `k` and there `b` ends or holds the
/// smaller character, `a` does not come before `b`.
proof fn lemma_no_witness(a: Seq<char>, b: Seq<char>, k: int)
    requires
        0 <= k <= a.len(),
        k <= b.len(),
        a.take(k) == b.take(k),
        k == b.len() || (k < a.len() && (b[k] as int) < (a[k] as int)),
    ensures
        !precedes(a, b),
{
    assert forall|w: int| !#[trigger] differ_at(a, b, w) by {
        if differ_at(a, b, w) {
            if w < k {
                assert(a[w] == a.take(k)[w]);
                assert(b[w] == b.take(k)[w]);
            } else if w > k {
                assert(a[k] == a.take(w)[k]);
                assert(b[k] == b.take(w)[k]);
            }
        }
    }
}

/// The positions of `keys`, sorted by key; keys that are equal stay in the
/// order in which they stand in `keys`.
pub fn sorted_order(keys: &Vec<Vec<char>>) -> (order: Vec<usize>)
    ensures
        positions(order@) == sort_order(texts(keys@)),
        order@.len() == keys@.len(),
        forall|i: int| 0 <= i < order@.len() ==> #[trigger] order@[i] < keys@.len(),
{
    let ghost all = texts(keys@);
    let mut order: Vec<usize> = Vec::new();
    let mut x: usize = 0;
    assert(positions(order@) =~= sort_prefix(all, 0));
    while x < keys.len()
        invariant
            all == texts(keys@),
            x <= keys@.len(),
            order@.len() == x,
            forall|i: int| 0 <= i < order@.len() ==> #[trigger] order@[i] < x,
            positions(order@) == sort_prefix(all, x as nat),
        decreases keys@.len() - x,
    {
        let ghost before = positions(order@);
        let ghost key = all[x as int];
        let mut p: usize = order.len();
        assert(before.take(p as int) =~= before);
        while p > 0 && chars_precede(keys[x].as_slice(), keys[order[p - 1]].as_slice())
            invariant
                all == texts(keys@),
                x < keys@.len(),
                key == all[x as int],
                before == positions(order@),
                p <= order@.len(),
                forall|i: int| 0 <= i < order@.len() ==> #[trigger] order@[i] < x,
                place(before, all, key) == place(before.take(p as int), all, key),
            decreases p,
        {
            assert(before.take(p as int).last() == order@[p - 1] as int);
            assert(before.take(p as int).drop_last() =~= before.take(p - 1));
            p -= 1;
        }
        proof {
            if p > 0 {
                assert(before.take(p as int).last() == order@[p - 1] as int);
            }
            assert(place(before, all, key) == p);
        }
        order.insert(p, x);
        assert(positions(order@) =~= before.insert(p as int, x as int));
        x += 1;
    }
    order
}


/// The positions `0..n` in rising order.
pub open spec fn identity(n: nat) -> Seq<int> {
    Seq::new(n, |i: int| i)
}

/// Sorting what is sorted changes nothing: the keys taken in sorted order
/// are in order as they stand.
pub proof fn lemma_sort_idempotent(keys: Seq<Seq<char>>)
    ensures
        sort_order(arrange(keys, sort_order(keys))) == identity(keys.len()),
{
    let order = sort_order(keys);
    let sorted = arrange(keys, order);
    let n = keys.len();
    lemma_sort_order(keys);
    lemma_sort_order(sorted);
    let same = identity(n);
    assert(is_arrangement(same, n)) by {
        assert forall|v: int| 0 <= v < n implies same.contains(v) by {
            assert(same[v] == v);
        }
    }
    assert(in_order(sorted, same)) by {
        assert forall|i: int, j: int| 0 <= i < j < same.len() implies {
            &&& !precedes(sorted[#[trigger] same[j]], sorted[#[trigger] same[i]])
            &&& (sorted[same[i]] == sorted[same[j]] ==> same[i] < same[j])
        } by {
            assert(sorted[i] == keys[order[i]]);
            assert(sorted[j] == keys[order[j]]);
        }
    }
    lemma_sorted_is_unique(sorted, sort_order(sorted), same, n);
}


/// A value that is kept in order by a textual key.
pub trait Keyed: View + Sized {
    /// The key by which values of this kind are put in order.
    spec fn sort_key(&self) -> Seq<char>;

    /// The characters of the key.
    fn sort_key_chars(&self) -> (key: Vec<char>)
        ensures
            key@ == self.sort_key(),
    ;

    /// A value that holds what this one holds.
    fn replica(&self) -> (copy: Self)
        ensures
            copy@ == self@,
    ;
}

/// What the values of `items` hold, in order.
pub open spec fn views<T: View>(items: Seq<T>) -> Seq<T::V> {
    Seq::new(items.len(), |i: int| items[i]@)
}

/// The keys of `items`, in order.
pub open spec fn sort_keys<T: Keyed>(items: Seq<T>) -> Seq<Seq<char>> {
    Seq::new(items.len(), |i: int| items[i].sort_key())
}

/// `items` in the order of their keys; values whose keys are equal stay in
/// the order in which they stand in `items`.
pub fn sorted_by_key<T: Keyed>(items: &Vec<T>) -> (sorted: Vec<T>)
    ensures
        views(sorted@) == arrange(views(items@), sort_order(sort_keys(items@))),
{
    let mut keys: Vec<Vec<char>> = Vec::new();
    let mut i: usize = 0;
    while i < items.len()
        invariant
            i <= items@.len(),
            keys@.len() == i,
            forall|k: int| 0 <= k < i ==> (#[trigger] keys@[k])@ == items@[k].sort_key(),
        decreases items@.len() - i,
    {
        keys.push(items[i].sort_key_chars());
        i += 1;
    }
    assert(texts(keys@) =~= sort_keys(items@));
    let order = sorted_order(&keys);
    let ghost wanted = sort_order(sort_keys(items@));
    let mut sorted: Vec<T> = Vec::new();
    let mut j: usize = 0;
    while j < order.len()
        invariant
            j <= order@.len(),
            order@.len() == items@.len(),
            positions(order@) == wanted,
            forall|k: int| 0 <= k < order@.len() ==> #[trigger] order@[k] < items@.len(),
            sorted@.len() == j,
            forall|k: int| 0 <= k < j ==> (#[trigger] sorted@[k])@ == items@[wanted[k]]@,
        decreases order@.len() - j,
    {
        assert(wanted[j as int] == order@[j as int]);
        sorted.push(items[order[j]].replica());
        j += 1;
    }
    assert(views(sorted@) =~= arrange(views(items@), wanted));
    sorted
}

} // verus!
