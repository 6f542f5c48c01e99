//! Sorting, by keys.
//!
//! What is sorted is a list of places: the places of a list of keys, put in
//! the order in which the keys ascend. Whatever hangs on the keys is then
//! taken in that order.

use vstd::prelude::*;

verus! {

/// A key that things are ordered by.
pub trait Key: Sized {
    /// Whether `self` comes before `other`, or is as good.
    spec fn key_le(&self, other: &Self) -> bool;

    /// See [`Key::key_le`].
    fn le(&self, other: &Self) -> (b: bool)
        ensures
            b == self.key_le(other),
    ;

    /// Of two keys one comes before the other, or is as good.
    proof fn lemma_total(a: &Self, b: &Self)
        ensures
            a.key_le(b) || b.key_le(a),
    ;

    /// What comes before something that comes before a third comes before
    /// the third.
    proof fn lemma_transitive(a: &Self, b: &Self, c: &Self)
        requires
            a.key_le(b),
            b.key_le(c),
        ensures
            a.key_le(c),
    ;
}

/// The places from `lo` up to `hi`.
pub open spec fn places(lo: int, hi: int) -> Seq<usize> {
    Seq::new((hi - lo) as nat, |k: int| (lo + k) as usize)
}

/// The keys at the places that `order` lists ascend.
pub open spec fn ascends<K: Key>(order: Seq<usize>, keys: Seq<K>) -> bool {
    forall|a: int, b: int|
        0 <= a < b < order.len() ==> (#[trigger] keys[order[a] as int]).key_le(
            #[trigger] &keys[order[b] as int],
        )
}

/// `order` lists places of `keys` only.
pub open spec fn in_range<K>(order: Seq<usize>, keys: Seq<K>) -> bool {
    forall|a: int| 0 <= a < order.len() ==> (#[trigger] order[a]) < keys.len()
}

/// Places whose keys are as good as each other stand in `order` as they
/// stand among the keys: the earlier place first.
pub open spec fn keeps_ties<K: Key>(order: Seq<usize>, keys: Seq<K>) -> bool {
    forall|a: int, b: int|
        0 <= a < b < order.len() && (#[trigger] keys[order[b] as int]).key_le(
            #[trigger] &keys[order[a] as int],
        ) ==> order[a] < order[b]
}

/// `order` lists every place of `keys` once, the keys at the places it
/// lists ascend, and places with keys as good as each other keep their
/// order.
pub open spec fn is_order_of<K: Key>(order: Seq<usize>, keys: Seq<K>) -> bool {
    &&& order.to_multiset() == places(0, keys.len() as int).to_multiset()
    &&& order.len() == keys.len()
    &&& order.no_duplicates()
    &&& in_range(order, keys)
    &&& ascends(order, keys)
    &&& keeps_ties(order, keys)
}

/// The things at the places that `order` lists, in that order.
pub open spec fn picked<T>(s: Seq<T>, order: Seq<usize>) -> Seq<T> {
    Seq::new(order.len(), |i: int| s[order[i] as int])
}

fn merge<K: Key>(keys: &Vec<K>, left: &Vec<usize>, right: &Vec<usize>, Ghost(split): Ghost<int>) -> (out:
    Vec<usize>)
    requires
        in_range(left@, keys@),
        in_range(right@, keys@),
        ascends(left@, keys@),
        ascends(right@, keys@),
        keeps_ties(left@, keys@),
        keeps_ties(right@, keys@),
        forall|a: int| 0 <= a < left@.len() ==> (#[trigger] left@[a]) < split,
        forall|b: int| 0 <= b < right@.len() ==> (#[trigger] right@[b]) >= split,
    ensures
        out@.to_multiset() == left@.to_multiset().add(right@.to_multiset()),
        in_range(out@, keys@),
        ascends(out@, keys@),
        keeps_ties(out@, keys@),
        forall|p: int|
            0 <= p < out@.len() ==> left@.contains(#[trigger] out@[p]) || right@.contains(out@[p]),
{
    broadcast use vstd::seq_lib::group_to_multiset_ensures;

    let mut out: Vec<usize> = Vec::new();
    let n: usize = left.len();
    let m: usize = right.len();
    let mut i: usize = 0;
    let mut j: usize = 0;
    proof {
        assert(left@.subrange(0, 0) =~= Seq::<usize>::empty());
        assert(right@.subrange(0, 0) =~= Seq::<usize>::empty());
        assert(out@.to_multiset() =~= left@.subrange(0, 0).to_multiset().add(
            right@.subrange(0, 0).to_multiset(),
        ));
    }
    while i < n || j < m
        invariant
            n == left@.len(),
            m == right@.len(),
            i <= n,
            j <= m,
            in_range(left@, keys@),
            in_range(right@, keys@),
            ascends(left@, keys@),
            ascends(right@, keys@),
            in_range(out@, keys@),
            ascends(out@, keys@),
            keeps_ties(left@, keys@),
            keeps_ties(right@, keys@),
            keeps_ties(out@, keys@),
            forall|a: int| 0 <= a < left@.len() ==> (#[trigger] left@[a]) < split,
            forall|b: int| 0 <= b < right@.len() ==> (#[trigger] right@[b]) >= split,
            forall|p: int|
                0 <= p < out@.len() && (#[trigger] out@[p]) < split ==> exists|a: int|
                    0 <= a < i && left@[a] == out@[p],
            forall|p: int|
                0 <= p < out@.len() && (#[trigger] out@[p]) >= split ==> exists|b: int|
                    0 <= b < j && right@[b] == out@[p],
            forall|p: int, a: int|
                0 <= p < out@.len() && i <= a < n && out@[p] >= split ==> !(
                #[trigger] keys@[left@[a] as int]).key_le(#[trigger] &keys@[out@[p] as int]),
            out@.to_multiset() == left@.subrange(0, i as int).to_multiset().add(
                right@.subrange(0, j as int).to_multiset(),
            ),
            forall|p: int, a: int|
                0 <= p < out@.len() && i <= a < n ==> (#[trigger] keys@[out@[p] as int]).key_le(
                    #[trigger] &keys@[left@[a] as int],
                ),
            forall|p: int, b: int|
                0 <= p < out@.len() && j <= b < m ==> (#[trigger] keys@[out@[p] as int]).key_le(
                    #[trigger] &keys@[right@[b] as int],
                ),
        decreases (n - i) + (m - j),
    {
        let ghost before = out@;
        let take_left: bool = if j >= m {
            true
        } else if i >= n {
            false
        } else {
            keys[left[i]].le(&keys[right[j]])
        };
        if take_left {
            let x: usize = left[i];
            out.push(x);
            proof {
                assert forall|p: int| 0 <= p < out@.len() && (#[trigger] out@[p])
                    < split implies exists|a: int| 0 <= a < i + 1 && left@[a] == out@[p] by {
                    if p < before.len() {
                        let a = choose|a: int| 0 <= a < i && left@[a] == before[p];
                        assert(0 <= a < i + 1 && left@[a] == out@[p]);
                    } else {
                        assert(left@[i as int] == out@[p]);
                    }
                }
                assert forall|p: int| 0 <= p < out@.len() && (#[trigger] out@[p])
                    >= split implies exists|b: int| 0 <= b < j && right@[b] == out@[p] by {
                    assert(left@[i as int] < split);
                    assert(p < before.len());
                    let b = choose|b: int| 0 <= b < j && right@[b] == before[p];
                    assert(0 <= b < j && right@[b] == out@[p]);
                }
                assert forall|p: int, a: int|
                    0 <= p < out@.len() && i + 1 <= a < n && out@[p] >= split implies !(
                #[trigger] keys@[left@[a] as int]).key_le(#[trigger] &keys@[out@[p] as int]) by {
                    assert(left@[i as int] < split);
                    assert(p < before.len());
                    assert(!keys@[left@[a] as int].key_le(&keys@[before[p] as int]));
                }
                assert forall|a: int, b: int|
                    0 <= a < b < out@.len() && (#[trigger] keys@[out@[b] as int]).key_le(
                        #[trigger] &keys@[out@[a] as int],
                    ) implies out@[a] < out@[b] by {
                    if b < before.len() {
                        assert(keys@[before[b] as int].key_le(&keys@[before[a] as int]));
                    } else {
                        if before[a] < split {
                            let c = choose|c: int| 0 <= c < i && left@[c] == before[a];
                            assert(keys@[left@[i as int] as int].key_le(&keys@[left@[c] as int]));
                        } else {
                            assert(!keys@[left@[i as int] as int].key_le(&keys@[before[a] as int]));
                        }
                    }
                }
                assert(left@.subrange(0, i + 1) =~= left@.subrange(0, i as int).push(x));
                vstd::seq_lib::to_multiset_build(left@.subrange(0, i as int), x);
                vstd::seq_lib::to_multiset_build(before, x);
                assert(out@.to_multiset() =~= left@.subrange(0, i + 1).to_multiset().add(
                    right@.subrange(0, j as int).to_multiset(),
                ));
                assert forall|a: int, b: int| 0 <= a < b < out@.len() implies (
                #[trigger] keys@[out@[a] as int]).key_le(#[trigger] &keys@[out@[b] as int]) by {
                    if b == before.len() {
                        assert(keys@[before[a] as int].key_le(&keys@[left@[i as int] as int]));
                    } else {
                        assert(keys@[before[a] as int].key_le(&keys@[before[b] as int]));
                    }
                }
                assert forall|p: int, a: int| 0 <= p < out@.len() && i + 1 <= a < n implies (
                #[trigger] keys@[out@[p] as int]).key_le(#[trigger] &keys@[left@[a] as int]) by {
                    if p == before.len() {
                        assert(keys@[left@[i as int] as int].key_le(&keys@[left@[a] as int]));
                    } else {
                        assert(keys@[before[p] as int].key_le(&keys@[left@[a] as int]));
                    }
                }
                assert forall|p: int, b: int| 0 <= p < out@.len() && j <= b < m implies (
                #[trigger] keys@[out@[p] as int]).key_le(#[trigger] &keys@[right@[b] as int]) by {
                    if p == before.len() {
                        assert(keys@[left@[i as int] as int].key_le(&keys@[right@[j as int] as int]));
                        if b > j {
                            assert(keys@[right@[j as int] as int].key_le(
                                &keys@[right@[b] as int],
                            ));
                            K::lemma_transitive(
                                &keys@[left@[i as int] as int],
                                &keys@[right@[j as int] as int],
                                &keys@[right@[b] as int],
                            );
                        }
                    } else {
                        assert(keys@[before[p] as int].key_le(&keys@[right@[b] as int]));
                    }
                }
            }
            i += 1;
        } else {
            let x: usize = right[j];
            out.push(x);
            proof {
                assert forall|p: int| 0 <= p < out@.len() && (#[trigger] out@[p])
                    < split implies exists|a: int| 0 <= a < i && left@[a] == out@[p] by {
                    assert(right@[j as int] >= split);
                    assert(p < before.len());
                    let a = choose|a: int| 0 <= a < i && left@[a] == before[p];
                    assert(0 <= a < i && left@[a] == out@[p]);
                }
                assert forall|p: int| 0 <= p < out@.len() && (#[trigger] out@[p])
                    >= split implies exists|b: int| 0 <= b < j + 1 && right@[b] == out@[p] by {
                    if p < before.len() {
                        let b = choose|b: int| 0 <= b < j && right@[b] == before[p];
                        assert(0 <= b < j + 1 && right@[b] == out@[p]);
                    } else {
                        assert(right@[j as int] == out@[p]);
                    }
                }
                assert forall|p: int, a: int|
                    0 <= p < out@.len() && i <= a < n && out@[p] >= split implies !(
                #[trigger] keys@[left@[a] as int]).key_le(#[trigger] &keys@[out@[p] as int]) by {
                    if p < before.len() {
                        assert(!keys@[left@[a] as int].key_le(&keys@[before[p] as int]));
                    } else {
                        assert(!keys@[left@[i as int] as int].key_le(&keys@[right@[j as int] as int]));
                        if a > i && keys@[left@[a] as int].key_le(&keys@[right@[j as int] as int]) {
                            assert(keys@[left@[i as int] as int].key_le(&keys@[left@[a] as int]));
                            K::lemma_transitive(
                                &keys@[left@[i as int] as int],
                                &keys@[left@[a] as int],
                                &keys@[right@[j as int] as int],
                            );
                        }
                    }
                }
                assert forall|a: int, b: int|
                    0 <= a < b < out@.len() && (#[trigger] keys@[out@[b] as int]).key_le(
                        #[trigger] &keys@[out@[a] as int],
                    ) implies out@[a] < out@[b] by {
                    if b < before.len() {
                        assert(keys@[before[b] as int].key_le(&keys@[before[a] as int]));
                    } else {
                        assert(right@[j as int] >= split);
                        if before[a] >= split {
                            let c = choose|c: int| 0 <= c < j && right@[c] == before[a];
                            assert(keys@[right@[j as int] as int].key_le(&keys@[right@[c] as int]));
                        }
                    }
                }
                assert(right@.subrange(0, j + 1) =~= right@.subrange(0, j as int).push(x));
                vstd::seq_lib::to_multiset_build(right@.subrange(0, j as int), x);
                vstd::seq_lib::to_multiset_build(before, x);
                assert(out@.to_multiset() =~= left@.subrange(0, i as int).to_multiset().add(
                    right@.subrange(0, j + 1).to_multiset(),
                ));
                assert forall|a: int, b: int| 0 <= a < b < out@.len() implies (
                #[trigger] keys@[out@[a] as int]).key_le(#[trigger] &keys@[out@[b] as int]) by {
                    if b == before.len() {
                        assert(keys@[before[a] as int].key_le(&keys@[right@[j as int] as int]));
                    } else {
                        assert(keys@[before[a] as int].key_le(&keys@[before[b] as int]));
                    }
                }
                assert forall|p: int, b: int| 0 <= p < out@.len() && j + 1 <= b < m implies (
                #[trigger] keys@[out@[p] as int]).key_le(#[trigger] &keys@[right@[b] as int]) by {
                    if p == before.len() {
                        assert(keys@[right@[j as int] as int].key_le(&keys@[right@[b] as int]));
                    } else {
                        assert(keys@[before[p] as int].key_le(&keys@[right@[b] as int]));
                    }
                }
                assert forall|p: int, a: int| 0 <= p < out@.len() && i <= a < n implies (
                #[trigger] keys@[out@[p] as int]).key_le(#[trigger] &keys@[left@[a] as int]) by {
                    if p == before.len() {
                        K::lemma_total(
                            &keys@[left@[i as int] as int],
                            &keys@[right@[j as int] as int],
                        );
                        assert(keys@[right@[j as int] as int].key_le(&keys@[left@[i as int] as int]));
                        if a > i {
                            assert(keys@[left@[i as int] as int].key_le(&keys@[left@[a] as int]));
                            K::lemma_transitive(
                                &keys@[right@[j as int] as int],
                                &keys@[left@[i as int] as int],
                                &keys@[left@[a] as int],
                            );
                        }
                    } else {
                        assert(keys@[before[p] as int].key_le(&keys@[left@[a] as int]));
                    }
                }
            }
            j += 1;
        }
    }
    proof {
        assert(left@.subrange(0, n as int) =~= left@);
        assert(right@.subrange(0, m as int) =~= right@);
        assert forall|p: int| 0 <= p < out@.len() implies left@.contains(#[trigger] out@[p])
            || right@.contains(out@[p]) by {
            if out@[p] < split {
                let a = choose|a: int| 0 <= a < i && left@[a] == out@[p];
                assert(left@[a] == out@[p]);
            } else {
                let b = choose|b: int| 0 <= b < j && right@[b] == out@[p];
                assert(right@[b] == out@[p]);
            }
        }
    }
    out
}

fn sort_range<K: Key>(keys: &Vec<K>, lo: usize, hi: usize) -> (out: Vec<usize>)
    requires
        lo <= hi <= keys@.len(),
    ensures
        out@.to_multiset() == places(lo as int, hi as int).to_multiset(),
        in_range(out@, keys@),
        ascends(out@, keys@),
        keeps_ties(out@, keys@),
        forall|a: int| 0 <= a < out@.len() ==> lo <= (#[trigger] out@[a]) < hi,
    decreases hi - lo,
{
    let mut out: Vec<usize> = Vec::new();
    if hi - lo == 0 {
        assert(out@ =~= places(lo as int, hi as int));
        return out;
    }
    if hi - lo == 1 {
        out.push(lo);
        assert(out@ =~= places(lo as int, hi as int));
        return out;
    }
    let mid: usize = lo + (hi - lo) / 2;
    let left = sort_range(keys, lo, mid);
    let right = sort_range(keys, mid, hi);
    proof {
        let a = places(lo as int, mid as int);
        let b = places(mid as int, hi as int);
        assert(a + b =~= places(lo as int, hi as int));
        vstd::seq_lib::lemma_multiset_commutative(a, b);
    }
    let out = merge(keys, &left, &right, Ghost(mid as int));
    proof {
        assert forall|a: int| 0 <= a < out@.len() implies lo <= (#[trigger] out@[a]) < hi by {
            if left@.contains(out@[a]) {
                let c = choose|c: int| 0 <= c < left@.len() && left@[c] == out@[a];
                assert(lo <= left@[c] < mid);
            } else {
                let c = choose|c: int| 0 <= c < right@.len() && right@[c] == out@[a];
                assert(mid <= right@[c] < hi);
            }
        }
    }
    out
}

/// The places hold no place twice.
pub proof fn lemma_places(n: nat)
    requires
        n <= usize::MAX,
    ensures
        places(0, n as int).no_duplicates(),
        places(0, n as int).len() == n,
        forall|k: int| 0 <= k < n ==> (#[trigger] places(0, n as int)[k]) == k,
{
}

/// The places of `keys` in an order in which the keys ascend.
pub fn sorted_places<K: Key>(keys: &Vec<K>) -> (order: Vec<usize>)
    ensures
        is_order_of(order@, keys@),
{
    let order = sort_range(keys, 0, keys.len());
    proof {
        let all = places(0, keys@.len() as int);
        lemma_places(keys@.len());
        vstd::seq_lib::to_multiset_len(order@);
        vstd::seq_lib::to_multiset_len(all);
        all.lemma_multiset_has_no_duplicates();
        order@.lemma_multiset_has_no_duplicates_conv();
    }
    order
}

/// Two lists of places that list the same places as often pick the same
/// things as often.
pub proof fn lemma_picked_same<T>(s: Seq<T>, a: Seq<usize>, b: Seq<usize>)
    requires
        a.to_multiset() == b.to_multiset(),
        forall|i: int| 0 <= i < a.len() ==> (#[trigger] a[i]) < s.len(),
    ensures
        picked(s, a).to_multiset() == picked(s, b).to_multiset(),
    decreases a.len(),
{
    broadcast use vstd::seq_lib::group_to_multiset_ensures;

    vstd::seq_lib::to_multiset_len(a);
    vstd::seq_lib::to_multiset_len(b);
    if a.len() == 0 {
        assert(picked(s, a) =~= picked(s, b));
    } else {
        let x = a.last();
        assert(a.contains(x));
        vstd::seq_lib::to_multiset_contains(a, x);
        vstd::seq_lib::to_multiset_contains(b, x);
        let j = choose|j: int| 0 <= j < b.len() && b[j] == x;
        let a1 = a.drop_last();
        let b1 = b.remove(j);
        vstd::seq_lib::to_multiset_remove(b, j);
        vstd::seq_lib::to_multiset_remove(a, a.len() - 1);
        assert(a.remove(a.len() - 1) =~= a1);
        lemma_picked_same(s, a1, b1);
        let pa = picked(s, a);
        let pb = picked(s, b);
        assert(pa.drop_last() =~= picked(s, a1));
        assert(pb.remove(j) =~= picked(s, b1));
        vstd::seq_lib::to_multiset_remove(pb, j);
        vstd::seq_lib::to_multiset_remove(pa, pa.len() - 1);
        assert(pa.remove(pa.len() - 1) =~= pa.drop_last());
        assert(pa.last() == s[x as int]);
        assert(pb[j] == s[x as int]);
        assert(pa.to_multiset() =~= pa.drop_last().to_multiset().insert(s[x as int]));
        assert(pb.to_multiset() =~= pb.remove(j).to_multiset().insert(s[x as int]));
    }
}

/// Taking things in an order that lists every place once gives the same
/// things, each as often as before.
pub proof fn lemma_picked_keeps<T, K: Key>(s: Seq<T>, order: Seq<usize>, keys: Seq<K>)
    requires
        is_order_of(order, keys),
        keys.len() == s.len(),
        s.len() <= usize::MAX,
    ensures
        picked(s, order).to_multiset() == s.to_multiset(),
        picked(s, order).len() == s.len(),
{
    let all = places(0, s.len() as int);
    lemma_places(s.len());
    lemma_picked_same(s, order, all);
    assert(picked(s, all) =~= s);
}

impl Key for usize {
    open spec fn key_le(&self, other: &Self) -> bool {
        *self <= *other
    }

    fn le(&self, other: &Self) -> (b: bool) {
        *self <= *other
    }

    proof fn lemma_total(a: &Self, b: &Self) {
    }

    proof fn lemma_transitive(a: &Self, b: &Self, c: &Self) {
    }
}

impl Key for (u16, u128) {
    open spec fn key_le(&self, other: &Self) -> bool {
        self.0 < other.0 || (self.0 == other.0 && self.1 <= other.1)
    }

    fn le(&self, other: &Self) -> (b: bool) {
        self.0 < other.0 || (self.0 == other.0 && self.1 <= other.1)
    }

    proof fn lemma_total(a: &Self, b: &Self) {
    }

    proof fn lemma_transitive(a: &Self, b: &Self, c: &Self) {
    }
}

impl Key for Vec<u8> {
    open spec fn key_le(&self, other: &Self) -> bool {
        crate::order::bytes_le(self@, other@)
    }

    fn le(&self, other: &Self) -> (b: bool) {
        crate::order::bytes_le_exec(self.as_slice(), other.as_slice())
    }

    proof fn lemma_total(a: &Self, b: &Self) {
        crate::order::lemma_bytes_le_total(a@, b@);
    }

    proof fn lemma_transitive(a: &Self, b: &Self, c: &Self) {
        crate::order::lemma_bytes_le_transitive(a@, b@, c@);
    }
}

} // verus!
