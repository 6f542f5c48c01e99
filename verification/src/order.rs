//! The order of strings, and files put in order.

use vstd::prelude::*;
use vstd::string::StringSliceAdditionalSpecFns;
use crate::file::File;
use crate::sorting::{is_order_of, lemma_picked_keeps, picked, sorted_places, Key};

verus! {

/// The order of byte strings: the first difference decides, and a prefix
/// comes first.
pub open spec fn bytes_le(a: Seq<u8>, b: Seq<u8>) -> bool
    decreases a.len(),
{
    if a.len() == 0 {
        true
    } else if b.len() == 0 {
        false
    } else if a[0] != b[0] {
        a[0] < b[0]
    } else {
        bytes_le(a.drop_first(), b.drop_first())
    }
}

/// The order of strings by the bytes of their UTF-8 encoding: the order in
/// which std compares strings.
pub open spec fn str_le(a: Seq<char>, b: Seq<char>) -> bool {
    bytes_le(vstd::utf8::encode_utf8(a), vstd::utf8::encode_utf8(b))
}

/// Of two byte strings one comes first.
pub proof fn lemma_bytes_le_total(a: Seq<u8>, b: Seq<u8>)
    ensures
        bytes_le(a, b) || bytes_le(b, a),
    decreases a.len(),
{
    if a.len() > 0 && b.len() > 0 && a[0] == b[0] {
        lemma_bytes_le_total(a.drop_first(), b.drop_first());
    }
}

/// What comes before something that comes before a third comes before the
/// third.
pub proof fn lemma_bytes_le_transitive(a: Seq<u8>, b: Seq<u8>, c: Seq<u8>)
    requires
        bytes_le(a, b),
        bytes_le(b, c),
    ensures
        bytes_le(a, c),
    decreases a.len(),
{
    if a.len() > 0 && b.len() > 0 && c.len() > 0 && a[0] == b[0] && b[0] == c[0] {
        lemma_bytes_le_transitive(a.drop_first(), b.drop_first(), c.drop_first());
    }
}

/// Whether `a` comes before `b` or is `b`.
pub fn bytes_le_exec(a: &[u8], b: &[u8]) -> (le: bool)
    ensures
        le == bytes_le(a@, b@),
{
    let mut i: usize = 0;
    assert(a@.subrange(0, a@.len() as int) =~= a@);
    assert(b@.subrange(0, b@.len() as int) =~= b@);
    loop
        invariant
            i <= a@.len(),
            i <= b@.len(),
            bytes_le(a@, b@) == bytes_le(a@.subrange(i as int, a@.len() as int), b@.subrange(
                i as int,
                b@.len() as int,
            )),
        decreases a@.len() - i,
    {
        let ghost ra = a@.subrange(i as int, a@.len() as int);
        let ghost rb = b@.subrange(i as int, b@.len() as int);
        if i >= a.len() {
            return true;
        }
        if i >= b.len() {
            return false;
        }
        assert(ra[0] == a@[i as int] && rb[0] == b@[i as int]);
        if a[i] != b[i] {
            return a[i] < b[i];
        }
        proof {
            assert(ra.drop_first() =~= a@.subrange(i + 1, a@.len() as int));
            assert(rb.drop_first() =~= b@.subrange(i + 1, b@.len() as int));
        }
        i += 1;
    }
}

/// `order` lists every place of `keys` once, the keys at the places it
/// lists ascend, and the places of one key keep their order. There is one
/// such order only.
pub open spec fn is_sorted_order(order: Seq<usize>, keys: Seq<Seq<u8>>) -> bool {
    &&& order.len() == keys.len()
    &&& order.no_duplicates()
    &&& forall|a: int| 0 <= a < order.len() ==> (#[trigger] order[a]) < keys.len()
    &&& forall|a: int, b: int|
        0 <= a < b < order.len() ==> bytes_le(
            keys[(#[trigger] order[a]) as int],
            keys[(#[trigger] order[b]) as int],
        )
    &&& forall|a: int, b: int|
        0 <= a < b < order.len() && keys[(#[trigger] order[a]) as int] == keys[(
        #[trigger] order[b]) as int] ==> order[a] < order[b]
}

/// The places of `keys` in ascending order of the keys, the places of one
/// key in their order.
pub fn sorted_order(keys: &Vec<Vec<u8>>) -> (order: Vec<usize>)
    ensures
        is_sorted_order(order@, Seq::new(keys@.len(), |i: int| keys@[i]@)),
        is_order_of(order@, keys@),
{
    let order = sorted_places(keys);
    proof {
        let ks = Seq::new(keys@.len(), |i: int| keys@[i]@);
        assert forall|a: int, b: int| 0 <= a < b < order@.len() implies bytes_le(
            ks[(#[trigger] order@[a]) as int],
            ks[(#[trigger] order@[b]) as int],
        ) by {
            assert(keys@[order@[a] as int].key_le(&keys@[order@[b] as int]));
        }
        assert forall|a: int, b: int|
            0 <= a < b < order@.len() && ks[(#[trigger] order@[a]) as int] == ks[(
            #[trigger] order@[b]) as int] implies order@[a] < order@[b] by {
            lemma_bytes_le_total(ks[order@[b] as int], ks[order@[a] as int]);
            assert(keys@[order@[b] as int].key_le(&keys@[order@[a] as int]));
        }
    }
    order
}

/// The files come largest first.
pub open spec fn sorted_by_size_desc(files: Seq<File>) -> bool {
    forall|i: int, j: int| 0 <= i < j < files.len() ==> files[i].size >= files[j].size
}

/// The files come in the order of their paths.
pub open spec fn sorted_by_path(files: Seq<File>) -> bool {
    forall|i: int, j: int| 0 <= i < j < files.len() ==> str_le(files[i].path@, files[j].path@)
}

/// The files in the order that `order` lists.
fn reordered(files: &Vec<File>, order: &Vec<usize>) -> (out: Vec<File>)
    requires
        forall|i: int| 0 <= i < order@.len() ==> (#[trigger] order@[i]) < files@.len(),
    ensures
        out@ == picked(files@, order@),
{
    let mut out: Vec<File> = Vec::new();
    let n: usize = order.len();
    let mut i: usize = 0;
    while i < n
        invariant
            n == order@.len(),
            i <= n,
            forall|k: int| 0 <= k < order@.len() ==> (#[trigger] order@[k]) < files@.len(),
            out@ == picked(files@, order@).subrange(0, i as int),
        decreases n - i,
    {
        out.push(files[order[i]].clone());
        assert(out@ =~= picked(files@, order@).subrange(0, i + 1));
        i += 1;
    }
    assert(picked(files@, order@).subrange(0, n as int) =~= picked(files@, order@));
    out
}

/// Puts the files largest first; files of one size keep their order.
pub fn sort_by_size_desc(files: &mut Vec<File>)
    ensures
        is_largest_first(final(files)@, old(files)@),
{
    let mut keys: Vec<usize> = Vec::new();
    let n: usize = files.len();
    let mut i: usize = 0;
    while i < n
        invariant
            n == files@.len(),
            files@ == old(files)@,
            i <= n,
            keys@.len() == i,
            forall|k: int| 0 <= k < i ==> (#[trigger] keys@[k]) == usize::MAX - files@[k].size,
        decreases n - i,
    {
        keys.push(usize::MAX - files[i].size);
        i += 1;
    }
    let order = sorted_places(&keys);
    let out = reordered(files, &order);
    proof {
        lemma_picked_keeps(files@, order@, keys@);
        assert forall|a: int, b: int| 0 <= a < b < out@.len() implies out@[a].size
            >= out@[b].size by {
            assert(keys@[order@[a] as int].key_le(&keys@[order@[b] as int]));
        }
        assert forall|a: int, b: int| 0 <= a < b < order@.len() implies #[trigger] larger_before(
            files@,
            order@[a],
            order@[b],
        ) by {
            assert(keys@[order@[a] as int].key_le(&keys@[order@[b] as int]));
            if files@[order@[a] as int].size == files@[order@[b] as int].size {
                assert(keys@[order@[b] as int].key_le(&keys@[order@[a] as int]));
            }
        }
        assert(is_size_order(order@, files@));
    }
    *files = out;
}

/// The encoded paths of some files.
pub open spec fn path_keys(files: Seq<File>) -> Seq<Seq<u8>> {
    Seq::new(files.len(), |i: int| vstd::utf8::encode_utf8(files[i].path@))
}

/// `out` holds the files of `given` in the order of their paths, which is
/// [`str_le`]; files of one path in the order in which they were given.
pub open spec fn is_in_path_order(out: Seq<File>, given: Seq<File>) -> bool {
    &&& out.to_multiset() == given.to_multiset()
    &&& sorted_by_path(out)
    &&& exists|order: Seq<usize>|
        is_sorted_order(order, path_keys(given)) && out == picked(given, order)
}

/// Puts the files in the order of their paths; files of one path keep
/// their order.
pub fn sort_by_path(files: &mut Vec<File>)
    ensures
        is_in_path_order(final(files)@, old(files)@),
{
    let mut keys: Vec<Vec<u8>> = Vec::new();
    let n: usize = files.len();
    let mut i: usize = 0;
    while i < n
        invariant
            n == files@.len(),
            files@ == old(files)@,
            i <= n,
            keys@.len() == i,
            forall|k: int|
                0 <= k < i ==> (#[trigger] keys@[k])@ == vstd::utf8::encode_utf8(files@[k].path@),
        decreases n - i,
    {
        keys.push(vstd::slice::slice_to_vec(files[i].path.as_str().as_bytes()));
        i += 1;
    }
    let order = sorted_order(&keys);
    let out = reordered(files, &order);
    proof {
        lemma_picked_keeps(files@, order@, keys@);
        assert forall|a: int, b: int| 0 <= a < b < out@.len() implies str_le(
            out@[a].path@,
            out@[b].path@,
        ) by {
            assert(keys@[order@[a] as int].key_le(&keys@[order@[b] as int]));
        }
        assert(Seq::new(keys@.len(), |i: int| keys@[i]@) =~= path_keys(files@));
    }
    *files = out;
}

/// Files have one order by path only.
pub proof fn lemma_path_order_unique(given: Seq<File>, first: Seq<File>, second: Seq<File>)
    requires
        is_in_path_order(first, given),
        is_in_path_order(second, given),
    ensures
        first == second,
{
    let a = choose|order: Seq<usize>|
        is_sorted_order(order, path_keys(given)) && first == picked(given, order);
    let b = choose|order: Seq<usize>|
        is_sorted_order(order, path_keys(given)) && second == picked(given, order);
    lemma_sorted_order_unique(path_keys(given), a, b);
}

/// Two byte strings that each come before the other are the same.
pub proof fn lemma_bytes_le_antisymmetric(a: Seq<u8>, b: Seq<u8>)
    requires
        bytes_le(a, b),
        bytes_le(b, a),
    ensures
        a == b,
    decreases a.len(),
{
    if a.len() > 0 && b.len() > 0 {
        lemma_bytes_le_antisymmetric(a.drop_first(), b.drop_first());
        assert(a =~= seq![a[0]] + a.drop_first());
        assert(b =~= seq![b[0]] + b.drop_first());
    } else {
        assert(a =~= b);
    }
}

/// An order of `n` places lists every place.
pub proof fn lemma_order_lists_all(order: Seq<usize>, n: nat, i: int)
    requires
        order.len() == n,
        order.no_duplicates(),
        forall|a: int| 0 <= a < order.len() ==> (#[trigger] order[a]) < n,
        0 <= i < n,
    ensures
        exists|a: int| 0 <= a < order.len() && order[a] == i,
{
    let s = Seq::new(n, |a: int| order[a] as int);
    assert(s.no_duplicates());
    s.unique_seq_to_set();
    vstd::set_lib::lemma_int_range(0, n as int);
    let range = vstd::set_lib::set_int_range(0, n as int);
    assert(s.to_set().subset_of(range)) by {
        assert forall|x: int| s.to_set().contains(x) implies range.contains(x) by {
            let a = choose|a: int| 0 <= a < s.len() && s[a] == x;
            assert(order[a] < n);
        }
    }
    vstd::set_lib::lemma_len_subset(s.to_set(), range);
    vstd::set_lib::lemma_subset_equality(s.to_set(), range);
    assert(range.contains(i));
    assert(s.to_set().contains(i));
    let a = choose|a: int| 0 <= a < s.len() && s[a] == i;
    assert(order[a] == i);
}

/// The place `i` comes before the place `j`: its key comes first, or the
/// two have one key and `i` is the earlier place.
pub open spec fn place_before(keys: Seq<Seq<u8>>, i: usize, j: usize) -> bool {
    (bytes_le(keys[i as int], keys[j as int]) && keys[i as int] != keys[j as int]) || (keys[i as int]
        == keys[j as int] && i < j)
}

/// Each place of `order` comes before all that follow it.
pub open spec fn rises(before: spec_fn(usize, usize) -> bool, order: Seq<usize>) -> bool {
    forall|x: int, y: int| 0 <= x < y < order.len() ==> #[trigger] before(order[x], order[y])
}

/// Of two places at most one comes before the other, and none before
/// itself.
pub open spec fn one_way(before: spec_fn(usize, usize) -> bool) -> bool {
    forall|i: usize, j: usize| !(#[trigger] before(i, j) && before(j, i))
}

/// Two lists of places that both rise and hold the same places are the
/// same list.
pub proof fn lemma_rising_unique(before: spec_fn(usize, usize) -> bool, a: Seq<usize>, b: Seq<usize>)
    requires
        one_way(before),
        rises(before, a),
        rises(before, b),
        forall|e: usize| a.contains(e) <==> b.contains(e),
    ensures
        a == b,
    decreases a.len(),
{
    if a.len() == 0 {
        if b.len() > 0 {
            assert(b.contains(b[0]));
            assert(a.contains(b[0]));
        }
        assert(a =~= b);
    } else {
        assert(a.contains(a[0]));
        assert(b.contains(a[0]));
        let j = choose|j: int| 0 <= j < b.len() && b[j] == a[0];
        assert(b.contains(b[0]));
        assert(a.contains(b[0]));
        let i = choose|i: int| 0 <= i < a.len() && a[i] == b[0];
        if i > 0 && j > 0 {
            assert(before(a[0], a[i]));
            assert(before(b[0], b[j]));
        }
        assert(a[0] == b[0]);
        let ta = a.drop_first();
        let tb = b.drop_first();
        assert forall|e: usize| ta.contains(e) <==> tb.contains(e) by {
            if ta.contains(e) {
                let k = choose|k: int| 0 <= k < ta.len() && ta[k] == e;
                assert(a[k + 1] == e);
                assert(before(a[0], a[k + 1]));
                assert(a.contains(e));
                let l = choose|l: int| 0 <= l < b.len() && b[l] == e;
                assert(tb[l - 1] == e);
            }
            if tb.contains(e) {
                let k = choose|k: int| 0 <= k < tb.len() && tb[k] == e;
                assert(b[k + 1] == e);
                assert(before(b[0], b[k + 1]));
                assert(b.contains(e));
                let l = choose|l: int| 0 <= l < a.len() && a[l] == e;
                assert(ta[l - 1] == e);
            }
        }
        assert forall|x: int, y: int| 0 <= x < y < ta.len() implies #[trigger] before(
            ta[x],
            ta[y],
        ) by {
            assert(before(a[x + 1], a[y + 1]));
        }
        assert forall|x: int, y: int| 0 <= x < y < tb.len() implies #[trigger] before(
            tb[x],
            tb[y],
        ) by {
            assert(before(b[x + 1], b[y + 1]));
        }
        lemma_rising_unique(before, ta, tb);
        assert(a =~= seq![a[0]] + ta);
        assert(b =~= seq![b[0]] + tb);
    }
}

/// Two orders that each list every one of `n` places once list the same
/// places.
pub proof fn lemma_orders_list_the_same(first: Seq<usize>, second: Seq<usize>, n: nat)
    requires
        first.len() == n,
        second.len() == n,
        first.no_duplicates(),
        second.no_duplicates(),
        forall|a: int| 0 <= a < first.len() ==> (#[trigger] first[a]) < n,
        forall|a: int| 0 <= a < second.len() ==> (#[trigger] second[a]) < n,
    ensures
        forall|e: usize| first.contains(e) <==> second.contains(e),
{
    assert forall|e: usize| first.contains(e) <==> second.contains(e) by {
        if first.contains(e) {
            let x = choose|x: int| 0 <= x < first.len() && first[x] == e;
            lemma_order_lists_all(second, n, e as int);
            let y = choose|y: int| 0 <= y < second.len() && second[y] == e as int;
            assert(second[y] == e);
        }
        if second.contains(e) {
            let x = choose|x: int| 0 <= x < second.len() && second[x] == e;
            lemma_order_lists_all(first, n, e as int);
            let y = choose|y: int| 0 <= y < first.len() && first[y] == e as int;
            assert(first[y] == e);
        }
    }
}

/// Keys of any kind have one order only: two lists that each are the order
/// of the keys are the same list.
pub proof fn lemma_order_unique<K: Key>(keys: Seq<K>, first: Seq<usize>, second: Seq<usize>)
    requires
        is_order_of(first, keys),
        is_order_of(second, keys),
    ensures
        first == second,
{
    let before = |i: usize, j: usize|
        keys[i as int].key_le(&keys[j as int]) && (keys[j as int].key_le(&keys[i as int]) ==> i < j);
    assert(one_way(before));
    assert forall|x: int, y: int| 0 <= x < y < first.len() implies #[trigger] before(
        first[x],
        first[y],
    ) by {
        assert(keys[first[x] as int].key_le(&keys[first[y] as int]));
    }
    assert forall|x: int, y: int| 0 <= x < y < second.len() implies #[trigger] before(
        second[x],
        second[y],
    ) by {
        assert(keys[second[x] as int].key_le(&keys[second[y] as int]));
    }
    lemma_orders_list_the_same(first, second, keys.len());
    lemma_rising_unique(before, first, second);
}

/// Keys have one sorted order only.
pub proof fn lemma_sorted_order_unique(keys: Seq<Seq<u8>>, first: Seq<usize>, second: Seq<usize>)
    requires
        is_sorted_order(first, keys),
        is_sorted_order(second, keys),
    ensures
        first == second,
{
    let before = |i: usize, j: usize| place_before(keys, i, j);
    assert(one_way(before)) by {
        assert forall|i: usize, j: usize| !(#[trigger] before(i, j) && before(j, i)) by {
            if before(i, j) && before(j, i) {
                lemma_bytes_le_antisymmetric(keys[i as int], keys[j as int]);
            }
        }
    }
    assert forall|x: int, y: int| 0 <= x < y < first.len() implies #[trigger] before(
        first[x],
        first[y],
    ) by {
        assert(bytes_le(keys[first[x] as int], keys[first[y] as int]));
    }
    assert forall|x: int, y: int| 0 <= x < y < second.len() implies #[trigger] before(
        second[x],
        second[y],
    ) by {
        assert(bytes_le(keys[second[x] as int], keys[second[y] as int]));
    }
    lemma_orders_list_the_same(first, second, keys.len());
    lemma_rising_unique(before, first, second);
}

/// The place `i` comes before the place `j` by size: its file is the
/// larger, or the two are of one size and `i` is the earlier place.
pub open spec fn larger_before(files: Seq<File>, i: usize, j: usize) -> bool {
    files[i as int].size > files[j as int].size || (files[i as int].size == files[j as int].size
        && i < j)
}

/// `order` lists every place of `files` once, larger files first, files of
/// one size in the order in which they stand. There is one such order only.
pub open spec fn is_size_order(order: Seq<usize>, files: Seq<File>) -> bool {
    &&& order.len() == files.len()
    &&& order.no_duplicates()
    &&& forall|a: int| 0 <= a < order.len() ==> (#[trigger] order[a]) < files.len()
    &&& forall|a: int, b: int|
        0 <= a < b < order.len() ==> #[trigger] larger_before(files, order[a], order[b])
}

/// `out` holds the files of `given`, largest first, files of one size in
/// the order in which they were given.
pub open spec fn is_largest_first(out: Seq<File>, given: Seq<File>) -> bool {
    &&& out.to_multiset() == given.to_multiset()
    &&& sorted_by_size_desc(out)
    &&& exists|order: Seq<usize>| is_size_order(order, given) && out == picked(given, order)
}

/// Files have one order by size only.
pub proof fn lemma_size_order_unique(files: Seq<File>, first: Seq<usize>, second: Seq<usize>)
    requires
        is_size_order(first, files),
        is_size_order(second, files),
    ensures
        first == second,
{
    let before = |i: usize, j: usize| larger_before(files, i, j);
    assert(one_way(before));
    assert forall|x: int, y: int| 0 <= x < y < first.len() implies #[trigger] before(
        first[x],
        first[y],
    ) by {
        assert(larger_before(files, first[x], first[y]));
    }
    assert forall|x: int, y: int| 0 <= x < y < second.len() implies #[trigger] before(
        second[x],
        second[y],
    ) by {
        assert(larger_before(files, second[x], second[y]));
    }
    lemma_orders_list_the_same(first, second, files.len());
    lemma_rising_unique(before, first, second);
}

/// Files have one largest-first order only.
pub proof fn lemma_largest_first_unique(given: Seq<File>, first: Seq<File>, second: Seq<File>)
    requires
        is_largest_first(first, given),
        is_largest_first(second, given),
    ensures
        first == second,
{
    let a = choose|order: Seq<usize>| is_size_order(order, given) && first == picked(given, order);
    let b = choose|order: Seq<usize>| is_size_order(order, given) && second == picked(given, order);
    lemma_size_order_unique(given, a, b);
}

} // verus!
