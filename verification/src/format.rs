//! The layout of the cache file.
//!
//! A cache file is a header of three little-endian `u16` (major, minor and
//! patch version of the program that wrote it) followed by records of 18
//! bytes: a little-endian `u16` counter and a little-endian `u128` hash.

use vstd::prelude::*;
use vstd::bytes::{
    spec_u128_from_le_bytes, spec_u128_to_le_bytes, spec_u16_from_le_bytes,
    spec_u16_to_le_bytes, u128_from_le_bytes, u128_to_le_bytes, u16_from_le_bytes,
    u16_to_le_bytes,
};
use vstd::slice::slice_subrange;
use crate::file::feed;
use crate::sorting::{is_order_of, lemma_picked_keeps, picked, sorted_places, Key};

verus! {

/// Size in bytes of the version header.
pub const HEADER_SIZE: usize = 6;

/// Size in bytes of one record.
pub const RECORD_SIZE: usize = 18;

/// Major version of this program.
pub const VERSION_MAJOR: u16 = 0;

/// Minor version of this program.
pub const VERSION_MINOR: u16 = 1;

/// Patch version of this program.
pub const VERSION_PATCH: u16 = 0;

/// One record: a counter and a hash.
pub type Entry = (u16, u128);

/// The version of this program, which a usable cache file must carry.
pub fn current_version() -> (v: (u16, u16, u16))
    ensures
        v == (VERSION_MAJOR, VERSION_MINOR, VERSION_PATCH),
{
    (VERSION_MAJOR, VERSION_MINOR, VERSION_PATCH)
}

/// The six bytes of a header.
pub open spec fn header_bytes(major: u16, minor: u16, patch: u16) -> Seq<u8> {
    spec_u16_to_le_bytes(major) + spec_u16_to_le_bytes(minor) + spec_u16_to_le_bytes(patch)
}

/// The version that the first six bytes of `header` spell.
pub open spec fn header_version(header: Seq<u8>) -> (u16, u16, u16)
    recommends
        header.len() >= HEADER_SIZE,
{
    (
        spec_u16_from_le_bytes(header.subrange(0, 2)),
        spec_u16_from_le_bytes(header.subrange(2, 4)),
        spec_u16_from_le_bytes(header.subrange(4, 6)),
    )
}

/// The 18 bytes of a record.
pub open spec fn record_bytes(e: Entry) -> Seq<u8> {
    spec_u16_to_le_bytes(e.0) + spec_u128_to_le_bytes(e.1)
}

/// The record that 18 bytes spell.
pub open spec fn decode_record(b: Seq<u8>) -> Entry
    recommends
        b.len() == RECORD_SIZE,
{
    (spec_u16_from_le_bytes(b.subrange(0, 2)), spec_u128_from_le_bytes(b.subrange(2, 18)))
}

/// The bytes of a sequence of records, one after the other.
pub open spec fn encode_records(es: Seq<Entry>) -> Seq<u8>
    decreases es.len(),
{
    if es.len() == 0 {
        Seq::empty()
    } else {
        encode_records(es.drop_last()) + record_bytes(es.last())
    }
}

/// The records that a body spells, as many as fit in it whole.
pub open spec fn decode_records(b: Seq<u8>) -> Seq<Entry> {
    Seq::new(
        b.len() / RECORD_SIZE as nat,
        |i: int| decode_record(b.subrange(RECORD_SIZE * i, RECORD_SIZE * i + RECORD_SIZE)),
    )
}

/// The map after the records were put into `m` one by one.
pub open spec fn load_onto(m: Map<u128, u16>, es: Seq<Entry>) -> Map<u128, u16>
    decreases es.len(),
{
    if es.len() == 0 {
        m
    } else {
        load_onto(m, es.drop_last()).insert(es.last().1, es.last().0)
    }
}

/// A counter one run later; it stops at the largest value.
pub open spec fn aged(c: u16) -> u16 {
    if c == u16::MAX {
        c
    } else {
        (c + 1) as u16
    }
}

/// The order of records in a file: by counter, then by hash.
pub open spec fn entry_lt(a: Entry, b: Entry) -> bool {
    a.0 < b.0 || (a.0 == b.0 && a.1 < b.1)
}

/// [`entry_lt`] or equal.
pub open spec fn entry_le(a: Entry, b: Entry) -> bool {
    a.0 < b.0 || (a.0 == b.0 && a.1 <= b.1)
}

/// Every record comes before all that follow it.
pub open spec fn strictly_ordered(s: Seq<Entry>) -> bool {
    forall|i: int, j: int| 0 <= i < j < s.len() ==> entry_lt(s[i], s[j])
}

/// The records of `s` are those of `m`, each one run older.
pub open spec fn lists_aged(s: Seq<Entry>, m: Map<u128, u16>) -> bool {
    forall|e: Entry| #[trigger] s.contains(e) <==> m.contains_key(e.1) && aged(m[e.1]) == e.0
}

/// The records of `m`, each one run older, in file order. A map with
/// finitely many keys has exactly one such sequence.
pub open spec fn ordered_entries(m: Map<u128, u16>) -> Seq<Entry> {
    choose|s: Seq<Entry>| strictly_ordered(s) && lists_aged(s, m)
}

/// The records that a flush keeps: the first `max` in file order.
pub open spec fn kept_entries(m: Map<u128, u16>, max: nat) -> Seq<Entry> {
    let all = ordered_entries(m);
    if all.len() <= max {
        all
    } else {
        all.subrange(0, max as int)
    }
}

/// The bytes of the cache file that a flush writes for `m` under a limit of
/// `max` records.
pub open spec fn file_image(m: Map<u128, u16>, max: nat) -> Seq<u8> {
    header_bytes(VERSION_MAJOR, VERSION_MINOR, VERSION_PATCH) + encode_records(
        kept_entries(m, max),
    )
}

/// Whether a cache file with these bytes is usable: it holds a whole header,
/// the header carries this program's version, and the rest is whole records.
pub open spec fn spec_cache_ok(contents: Seq<u8>) -> bool {
    &&& contents.len() >= HEADER_SIZE
    &&& header_version(contents) == (VERSION_MAJOR, VERSION_MINOR, VERSION_PATCH)
    &&& (contents.len() - HEADER_SIZE) % RECORD_SIZE as int == 0
}

/// The header for a version.
pub fn serialize_version_header(major: u16, minor: u16, patch: u16) -> (header: [u8; 6])
    ensures
        header@ == header_bytes(major, minor, patch),
{
    let a = u16_to_le_bytes(major);
    let b = u16_to_le_bytes(minor);
    let c = u16_to_le_bytes(patch);
    let header: [u8; 6] = [a[0], a[1], b[0], b[1], c[0], c[1]];
    assert(header@ =~= header_bytes(major, minor, patch));
    header
}

/// The version that a header spells, or `None` where `header` is shorter
/// than a header.
pub fn deserialize_version_header(header: &[u8]) -> (v: Option<(u16, u16, u16)>)
    ensures
        v == if header@.len() < HEADER_SIZE {
            None
        } else {
            Some(header_version(header@))
        },
{
    if header.len() < HEADER_SIZE {
        return None;
    }
    let major = u16_from_le_bytes(slice_subrange(header, 0, 2));
    let minor = u16_from_le_bytes(slice_subrange(header, 2, 4));
    let patch = u16_from_le_bytes(slice_subrange(header, 4, 6));
    Some((major, minor, patch))
}

/// The `i`-th record of a body.
pub fn read_record(contents: &[u8], i: usize) -> (e: Entry)
    requires
        i < contents@.len() / RECORD_SIZE as nat,
    ensures
        e == decode_records(contents@)[i as int],
{
    let n: usize = contents.len() / RECORD_SIZE;
    assert(n * 18 <= contents@.len());
    let start: usize = RECORD_SIZE * i;
    let chunk = slice_subrange(contents, start, start + RECORD_SIZE);
    let counter = u16_from_le_bytes(slice_subrange(chunk, 0, 2));
    let hash_value = u128_from_le_bytes(slice_subrange(chunk, 2, RECORD_SIZE));
    (counter, hash_value)
}

/// Appends the first `to_keep` records to `content`.
pub fn write_records(content: &mut Vec<u8>, entries: &Vec<Entry>, to_keep: usize)
    requires
        to_keep <= entries@.len(),
    ensures
        final(content)@ == old(content)@ + encode_records(entries@.subrange(0, to_keep as int)),
{
    let ghost before = content@;
    let mut i: usize = 0;
    assert(encode_records(entries@.subrange(0, 0)) =~= Seq::<u8>::empty());
    while i < to_keep
        invariant
            i <= to_keep <= entries@.len(),
            content@ == before + encode_records(entries@.subrange(0, i as int)),
        decreases to_keep - i,
    {
        let (counter, hash_value) = entries[i];
        let c = u16_to_le_bytes(counter);
        feed(content, c.as_slice());
        let h = u128_to_le_bytes(hash_value);
        feed(content, h.as_slice());
        proof {
            let next = entries@.subrange(0, i + 1);
            assert(next.drop_last() =~= entries@.subrange(0, i as int));
            assert(next.last() == entries@[i as int]);
            assert(content@ =~= before + encode_records(next));
        }
        i += 1;
    }
}

/// Puts the records in file order: by counter, then by hash. The vector
/// then holds the same records, each as often as before.
pub fn sort_entries(entries: &mut Vec<Entry>)
    ensures
        final(entries)@.to_multiset() == old(entries)@.to_multiset(),
        forall|i: int, j: int|
            0 <= i < j < final(entries)@.len() ==> entry_le(
                final(entries)@[i],
                final(entries)@[j],
            ),
{
    let order = sorted_places(entries);
    let mut out: Vec<Entry> = Vec::new();
    let n: usize = order.len();
    let mut i: usize = 0;
    while i < n
        invariant
            n == order@.len(),
            i <= n,
            entries@ == old(entries)@,
            is_order_of(order@, entries@),
            out@ == picked(entries@, order@).subrange(0, i as int),
        decreases n - i,
    {
        out.push(entries[order[i]]);
        assert(out@ =~= picked(entries@, order@).subrange(0, i + 1));
        i += 1;
    }
    proof {
        assert(picked(entries@, order@).subrange(0, n as int) =~= picked(entries@, order@));
        lemma_picked_keeps(entries@, order@, entries@);
        assert forall|a: int, b: int| 0 <= a < b < out@.len() implies entry_le(out@[a], out@[b]) by {
            assert(entries@[order@[a] as int].key_le(&entries@[order@[b] as int]));
        }
    }
    *entries = out;
}

/// The length of encoded records.
pub proof fn lemma_encode_len(es: Seq<Entry>)
    ensures
        encode_records(es).len() == RECORD_SIZE * es.len(),
    decreases es.len(),
{
    vstd::bytes::lemma_auto_spec_u16_to_from_le_bytes();
    vstd::bytes::lemma_auto_spec_u128_to_from_le_bytes();
    if es.len() > 0 {
        lemma_encode_len(es.drop_last());
    }
}

/// Two strictly ordered sequences with the same records are the same
/// sequence.
pub proof fn lemma_ordered_unique(a: Seq<Entry>, b: Seq<Entry>)
    requires
        strictly_ordered(a),
        strictly_ordered(b),
        forall|e: Entry| a.contains(e) <==> b.contains(e),
    ensures
        a == b,
    decreases a.len(),
{
    if a.len() == 0 {
        if b.len() > 0 {
            assert(b.contains(b[0]));
            assert(a.contains(b[0]));
        }
        assert(a =~= b);
    } else {
        assert(a.contains(a[0]));
        assert(b.contains(a[0]));
        let j = choose|j: int| 0 <= j < b.len() && b[j] == a[0];
        assert(b.contains(b[0]));
        assert(a.contains(b[0]));
        let i = choose|i: int| 0 <= i < a.len() && a[i] == b[0];
        if i > 0 && j > 0 {
            assert(entry_lt(a[0], a[i]));
            assert(entry_lt(b[0], b[j]));
        }
        assert(a[0] == b[0]);
        let ta = a.drop_first();
        let tb = b.drop_first();
        assert forall|e: Entry| ta.contains(e) <==> tb.contains(e) by {
            if ta.contains(e) {
                let k = choose|k: int| 0 <= k < ta.len() && ta[k] == e;
                assert(a[k + 1] == e);
                assert(entry_lt(a[0], a[k + 1]));
                assert(a.contains(e));
                let l = choose|l: int| 0 <= l < b.len() && b[l] == e;
                assert(l > 0);
                assert(tb[l - 1] == e);
            }
            if tb.contains(e) {
                let k = choose|k: int| 0 <= k < tb.len() && tb[k] == e;
                assert(b[k + 1] == e);
                assert(entry_lt(b[0], b[k + 1]));
                assert(b.contains(e));
                let l = choose|l: int| 0 <= l < a.len() && a[l] == e;
                assert(l > 0);
                assert(ta[l - 1] == e);
            }
        }
        assert(strictly_ordered(ta)) by {
            assert forall|x: int, y: int| 0 <= x < y < ta.len() implies entry_lt(ta[x], ta[y]) by {
                assert(entry_lt(a[x + 1], a[y + 1]));
            }
        }
        assert(strictly_ordered(tb)) by {
            assert forall|x: int, y: int| 0 <= x < y < tb.len() implies entry_lt(tb[x], tb[y]) by {
                assert(entry_lt(b[x + 1], b[y + 1]));
            }
        }
        lemma_ordered_unique(ta, tb);
        assert(a =~= seq![a[0]] + ta);
        assert(b =~= seq![b[0]] + tb);
    }
}

/// A strictly ordered sequence that lists the aged records of `m` is the
/// file order of `m`.
pub proof fn lemma_is_ordered_entries(m: Map<u128, u16>, s: Seq<Entry>)
    requires
        strictly_ordered(s),
        lists_aged(s, m),
    ensures
        s == ordered_entries(m),
{
    let o = ordered_entries(m);
    assert(strictly_ordered(o) && lists_aged(o, m));
    assert forall|e: Entry| s.contains(e) <==> o.contains(e) by {}
    lemma_ordered_unique(s, o);
}

/// What sorting the collected records of a map gives is its file order.
pub proof fn lemma_ordered_entries_are(m: Map<u128, u16>, collected: Seq<Entry>, sorted: Seq<Entry>)
    requires
        forall|i: int, j: int| 0 <= i < j < collected.len() ==> collected[i].1 != collected[j].1,
        forall|j: int|
            0 <= j < collected.len() ==> m.contains_key(#[trigger] collected[j].1)
                && collected[j].0 == aged(m[collected[j].1]),
        forall|k: u128| m.contains_key(k) ==> collected.contains((aged(m[k]), k)),
        sorted.to_multiset() == collected.to_multiset(),
        forall|i: int, j: int| 0 <= i < j < sorted.len() ==> entry_le(sorted[i], sorted[j]),
    ensures
        sorted == ordered_entries(m),
        sorted.len() == collected.len(),
{
    broadcast use vstd::seq_lib::group_to_multiset_ensures;

    assert(sorted.len() == collected.len()) by {
        vstd::seq_lib::to_multiset_len(sorted);
        vstd::seq_lib::to_multiset_len(collected);
    }
    assert forall|e: Entry| sorted.contains(e) <==> collected.contains(e) by {
        vstd::seq_lib::to_multiset_contains(sorted, e);
        vstd::seq_lib::to_multiset_contains(collected, e);
    }
    assert(collected.no_duplicates());
    collected.lemma_multiset_has_no_duplicates();
    sorted.lemma_multiset_has_no_duplicates_conv();
    assert(strictly_ordered(sorted)) by {
        assert forall|i: int, j: int| 0 <= i < j < sorted.len() implies entry_lt(
            sorted[i],
            sorted[j],
        ) by {
            assert(entry_le(sorted[i], sorted[j]));
            assert(sorted[i] != sorted[j]);
        }
    }
    assert(lists_aged(sorted, m)) by {
        assert forall|e: Entry| #[trigger]
            sorted.contains(e) <==> m.contains_key(e.1) && aged(m[e.1]) == e.0 by {
            if sorted.contains(e) {
                assert(collected.contains(e));
                let j = choose|j: int| 0 <= j < collected.len() && collected[j] == e;
                assert(m.contains_key(collected[j].1));
            }
            if m.contains_key(e.1) && aged(m[e.1]) == e.0 {
                assert(collected.contains((aged(m[e.1]), e.1)));
            }
        }
    }
    lemma_is_ordered_entries(m, sorted);
}

} // verus!
