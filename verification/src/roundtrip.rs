//! What holds between writing a cache file and loading it again.

use vstd::prelude::*;
use vstd::bytes::{
    lemma_auto_spec_u128_to_from_le_bytes, lemma_auto_spec_u16_to_from_le_bytes,
    spec_u128_to_le_bytes, spec_u16_to_le_bytes,
};
use crate::cache::HashCache;
use crate::format::{
    aged, decode_record, decode_records, encode_records, entry_lt, file_image, header_bytes,
    header_version, kept_entries, lemma_encode_len, lemma_is_ordered_entries,
    lists_aged, load_onto, ordered_entries, record_bytes, spec_cache_ok,
    strictly_ordered, Entry, HEADER_SIZE, RECORD_SIZE, VERSION_MAJOR, VERSION_MINOR,
    VERSION_PATCH,
};

verus! {

/// The map whose every counter is one run older.
pub open spec fn aged_map(m: Map<u128, u16>) -> Map<u128, u16> {
    Map::new(|k: u128| m.contains_key(k), |k: u128| aged(m[k]))
}

/// The records with every counter one run older.
pub open spec fn aged_entries(es: Seq<Entry>) -> Seq<Entry> {
    Seq::new(es.len(), |i: int| (aged(es[i].0), es[i].1))
}

/// No hash occurs in two records.
pub open spec fn distinct_hashes(es: Seq<Entry>) -> bool {
    forall|i: int, j: int| 0 <= i < j < es.len() ==> es[i].1 != es[j].1
}

/// The bytes of a cache file of this version with the given records.
pub open spec fn file_of(es: Seq<Entry>) -> Seq<u8> {
    header_bytes(VERSION_MAJOR, VERSION_MINOR, VERSION_PATCH) + encode_records(es)
}

/// `s` with `e` put before the first record that it precedes.
pub open spec fn insert_entry(s: Seq<Entry>, e: Entry) -> Seq<Entry>
    decreases s.len(),
{
    if s.len() == 0 {
        seq![e]
    } else if entry_lt(e, s[0]) {
        seq![e] + s
    } else {
        seq![s[0]] + insert_entry(s.drop_first(), e)
    }
}

/// Inserting a new record into an ordered sequence keeps it ordered and adds
/// that record alone.
pub proof fn lemma_insert_entry(s: Seq<Entry>, e: Entry)
    requires
        strictly_ordered(s),
        !s.contains(e),
    ensures
        strictly_ordered(insert_entry(s, e)),
        forall|x: Entry|
            #![trigger insert_entry(s, e).contains(x)]
            #![trigger s.contains(x)]
            insert_entry(s, e).contains(x) <==> x == e || s.contains(x),
        insert_entry(s, e).len() == s.len() + 1,
    decreases s.len(),
{
    let r = insert_entry(s, e);
    if s.len() == 0 {
        assert(r[0] == e);
        assert forall|x: Entry| r.contains(x) <==> x == e || s.contains(x) by {
            if r.contains(x) {
                let i = choose|i: int| 0 <= i < r.len() && r[i] == x;
            }
        }
    } else if entry_lt(e, s[0]) {
        assert forall|i: int, j: int| 0 <= i < j < r.len() implies entry_lt(r[i], r[j]) by {
            if i == 0 {
                assert(r[j] == s[j - 1]);
                if j - 1 > 0 {
                    assert(entry_lt(s[0], s[j - 1]));
                }
            } else {
                assert(entry_lt(s[i - 1], s[j - 1]));
            }
        }
        assert forall|x: Entry| r.contains(x) <==> x == e || s.contains(x) by {
            if r.contains(x) {
                let i = choose|i: int| 0 <= i < r.len() && r[i] == x;
                if i > 0 {
                    assert(s[i - 1] == x);
                }
            }
            if x == e {
                assert(r[0] == x);
            }
            if s.contains(x) {
                let i = choose|i: int| 0 <= i < s.len() && s[i] == x;
                assert(r[i + 1] == x);
            }
        }
    } else {
        let t = s.drop_first();
        assert(strictly_ordered(t)) by {
            assert forall|i: int, j: int| 0 <= i < j < t.len() implies entry_lt(t[i], t[j]) by {
                assert(entry_lt(s[i + 1], s[j + 1]));
            }
        }
        assert(!t.contains(e)) by {
            if t.contains(e) {
                let i = choose|i: int| 0 <= i < t.len() && t[i] == e;
                assert(s[i + 1] == e);
            }
        }
        lemma_insert_entry(t, e);
        let u = insert_entry(t, e);
        assert(s.contains(s[0]));
        assert(entry_lt(s[0], e));
        assert forall|i: int, j: int| 0 <= i < j < r.len() implies entry_lt(r[i], r[j]) by {
            if i == 0 {
                assert(r[j] == u[j - 1]);
                assert(u.contains(u[j - 1]));
                if u[j - 1] != e {
                    assert(t.contains(u[j - 1]));
                    let k = choose|k: int| 0 <= k < t.len() && t[k] == u[j - 1];
                    assert(entry_lt(s[0], s[k + 1]));
                }
            } else {
                assert(entry_lt(u[i - 1], u[j - 1]));
            }
        }
        assert forall|x: Entry| r.contains(x) <==> x == e || s.contains(x) by {
            if r.contains(x) {
                let i = choose|i: int| 0 <= i < r.len() && r[i] == x;
                if i > 0 {
                    assert(u[i - 1] == x);
                    assert(u.contains(x));
                    if x != e {
                        let k = choose|k: int| 0 <= k < t.len() && t[k] == x;
                        assert(s[k + 1] == x);
                    }
                }
            }
            if x == e {
                assert(u.contains(e));
                let k = choose|k: int| 0 <= k < u.len() && u[k] == e;
                assert(r[k + 1] == x);
            }
            if s.contains(x) {
                let i = choose|i: int| 0 <= i < s.len() && s[i] == x;
                if i == 0 {
                    assert(r[0] == x);
                } else {
                    assert(t[i - 1] == x);
                    assert(u.contains(x));
                    let k = choose|k: int| 0 <= k < u.len() && u[k] == x;
                    assert(r[k + 1] == x);
                }
            }
        }
    }
}

/// A map with finitely many keys has a file order: it lists every record
/// once, one run older, and has as many records as the map has keys.
pub proof fn lemma_ordered_entries(m: Map<u128, u16>)
    requires
        m.dom().finite(),
    ensures
        strictly_ordered(ordered_entries(m)),
        lists_aged(ordered_entries(m), m),
        ordered_entries(m).len() == m.len(),
        distinct_hashes(ordered_entries(m)),
    decreases m.dom().len(),
{
    broadcast use vstd::set::group_set_axioms;

    if m.dom().len() == 0 {
        assert(m.dom() =~= Set::<u128>::empty());
        let s = Seq::<Entry>::empty();
        assert(strictly_ordered(s) && lists_aged(s, m));
        lemma_is_ordered_entries(m, s);
    } else {
        let k = m.dom().choose();
        assert(m.dom().contains(k));
        let rest = m.remove(k);
        assert(rest.dom() =~= m.dom().remove(k));
        lemma_ordered_entries(rest);
        let t = ordered_entries(rest);
        let e = (aged(m[k]), k);
        assert(!t.contains(e));
        lemma_insert_entry(t, e);
        let s = insert_entry(t, e);
        assert(lists_aged(s, m)) by {
            assert forall|x: Entry| #[trigger]
                s.contains(x) <==> m.contains_key(x.1) && aged(m[x.1]) == x.0 by {
                if x != e {
                    assert(t.contains(x) <==> rest.contains_key(x.1) && aged(rest[x.1]) == x.0);
                }
            }
        }
        lemma_is_ordered_entries(m, s);
    }
    let o = ordered_entries(m);
    assert(distinct_hashes(o)) by {
        assert forall|i: int, j: int| 0 <= i < j < o.len() implies o[i].1 != o[j].1 by {
            assert(o.contains(o[i]));
            assert(o.contains(o[j]));
            assert(entry_lt(o[i], o[j]));
        }
    }
}

/// Decoding what was encoded gives the records back.
pub proof fn lemma_decode_encode(es: Seq<Entry>)
    ensures
        decode_records(encode_records(es)) == es,
    decreases es.len(),
{
    lemma_auto_spec_u16_to_from_le_bytes();
    lemma_auto_spec_u128_to_from_le_bytes();
    lemma_encode_len(es);
    let b = encode_records(es);
    if es.len() == 0 {
        assert(decode_records(b) =~= es);
    } else {
        let init = es.drop_last();
        let last = es.last();
        lemma_decode_encode(init);
        lemma_encode_len(init);
        let bi = encode_records(init);
        let r = record_bytes(last);
        assert(b == bi + r);
        assert forall|i: int| 0 <= i < es.len() implies decode_records(b)[i] == es[i] by {
            let chunk = b.subrange(RECORD_SIZE * i, RECORD_SIZE * i + RECORD_SIZE);
            if i < init.len() {
                assert(chunk =~= bi.subrange(RECORD_SIZE * i, RECORD_SIZE * i + RECORD_SIZE));
                assert(decode_records(bi)[i] == init[i]);
            } else {
                assert(chunk =~= r);
                assert(r.subrange(0, 2) =~= spec_u16_to_le_bytes(last.0));
                assert(r.subrange(2, 18) =~= spec_u128_to_le_bytes(last.1));
            }
        }
        assert(decode_records(b) =~= es);
    }
}

/// Encoding what was decoded from whole records gives the bytes back.
pub proof fn lemma_encode_decode(b: Seq<u8>)
    requires
        b.len() % RECORD_SIZE as nat == 0,
    ensures
        encode_records(decode_records(b)) == b,
    decreases b.len(),
{
    lemma_auto_spec_u16_to_from_le_bytes();
    lemma_auto_spec_u128_to_from_le_bytes();
    let es = decode_records(b);
    if b.len() == 0 {
        assert(encode_records(es) =~= b);
    } else {
        let n = es.len() as int;
        let head = b.subrange(0, b.len() - RECORD_SIZE);
        let tail = b.subrange(b.len() - RECORD_SIZE, b.len() as int);
        lemma_encode_decode(head);
        assert(decode_records(head) =~= es.drop_last()) by {
            assert forall|i: int| 0 <= i < n - 1 implies decode_records(head)[i] == es[i] by {
                assert(head.subrange(RECORD_SIZE * i, RECORD_SIZE * i + RECORD_SIZE)
                    =~= b.subrange(RECORD_SIZE * i, RECORD_SIZE * i + RECORD_SIZE));
            }
        }
        assert(b.subrange(RECORD_SIZE * (n - 1), RECORD_SIZE * (n - 1) + RECORD_SIZE) =~= tail);
        assert(es.last() == decode_record(tail));
        assert(record_bytes(decode_record(tail)) =~= tail) by {
            assert(tail.subrange(0, 2).len() == 2);
            assert(tail.subrange(2, 18).len() == 16);
            assert(tail =~= tail.subrange(0, 2) + tail.subrange(2, 18));
        }
        assert(encode_records(es) =~= b) by {
            assert(b =~= head + tail);
        }
    }
}

/// Loading records with distinct hashes into an empty map gives each hash
/// its counter, and no other hash.
pub proof fn lemma_load_distinct(es: Seq<Entry>)
    requires
        distinct_hashes(es),
    ensures
        forall|i: int|
            0 <= i < es.len() ==> load_onto(Map::empty(), es).contains_key(
                #[trigger] es[i].1,
            ) && load_onto(Map::empty(), es)[es[i].1] == es[i].0,
        forall|h: u128|
            load_onto(Map::empty(), es).contains_key(h) ==> exists|i: int|
                0 <= i < es.len() && (#[trigger] es[i]).1 == h,
    decreases es.len(),
{
    if es.len() > 0 {
        let init = es.drop_last();
        lemma_load_distinct(init);
        let m = load_onto(Map::empty(), es);
        let mi = load_onto(Map::empty(), init);
        assert forall|i: int| 0 <= i < es.len() implies m.contains_key(#[trigger] es[i].1)
            && m[es[i].1] == es[i].0 by {
            if i < init.len() {
                assert(init[i] == es[i]);
                assert(mi.contains_key(init[i].1));
            }
        }
        assert forall|h: u128| m.contains_key(h) implies exists|i: int|
            0 <= i < es.len() && (#[trigger] es[i]).1 == h by {
            if h == es.last().1 {
                assert(es[es.len() - 1].1 == h);
            } else {
                assert(mi.contains_key(h));
                let i = choose|i: int| 0 <= i < init.len() && (#[trigger] init[i]).1 == h;
                assert(es[i].1 == h);
            }
        }
    }
}

/// A file made of this version's header and whole records is usable, and its
/// body decodes to those records.
pub proof fn lemma_file_of(es: Seq<Entry>)
    ensures
        spec_cache_ok(file_of(es)),
        file_of(es).len() == HEADER_SIZE + RECORD_SIZE * es.len(),
        decode_records(file_of(es).subrange(HEADER_SIZE as int, file_of(es).len() as int)) == es,
{
    lemma_auto_spec_u16_to_from_le_bytes();
    lemma_encode_len(es);
    lemma_decode_encode(es);
    let f = file_of(es);
    let h = header_bytes(VERSION_MAJOR, VERSION_MINOR, VERSION_PATCH);
    assert(f.subrange(0, 2) =~= spec_u16_to_le_bytes(VERSION_MAJOR));
    assert(f.subrange(2, 4) =~= spec_u16_to_le_bytes(VERSION_MINOR));
    assert(f.subrange(4, 6) =~= spec_u16_to_le_bytes(VERSION_PATCH));
    assert(header_version(f) == (VERSION_MAJOR, VERSION_MINOR, VERSION_PATCH));
    assert(f.subrange(HEADER_SIZE as int, f.len() as int) =~= encode_records(es));
}

/// The file that a flush writes never exceeds the header and `max` records.
pub proof fn lemma_file_image_len(m: Map<u128, u16>, max: nat)
    ensures
        file_image(m, max).len() == HEADER_SIZE + RECORD_SIZE * kept_entries(m, max).len(),
        file_image(m, max).len() <= HEADER_SIZE + max * RECORD_SIZE,
{
    lemma_file_of(kept_entries(m, max));
}

/// Two caches with the same records and the same limit write the same
/// bytes: nothing but the records and the limit enters the file.
pub proof fn lemma_same_records_same_file(a: HashCache, b: HashCache)
    requires
        a@ == b@,
        a.max_entries == b.max_entries,
    ensures
        file_image(a@, a.max_entries as nat) == file_image(b@, b.max_entries as nat),
{
}

/// An empty cache writes the header and nothing else.
pub proof fn lemma_empty_cache_file(max: nat)
    ensures
        file_image(Map::empty(), max) == header_bytes(
            VERSION_MAJOR,
            VERSION_MINOR,
            VERSION_PATCH,
        ),
{
    lemma_ordered_entries(Map::<u128, u16>::empty());
    assert(Map::<u128, u16>::empty().len() == 0);
    assert(kept_entries(Map::<u128, u16>::empty(), max) =~= Seq::<Entry>::empty());
    assert(file_image(Map::empty(), max) =~= header_bytes(
        VERSION_MAJOR,
        VERSION_MINOR,
        VERSION_PATCH,
    ));
}

/// Loading what a flush wrote, when nothing had to be dropped, gives the
/// same hashes back, each with its counter one run older.
pub proof fn lemma_load_after_write(m: Map<u128, u16>, max: nat)
    requires
        m.dom().finite(),
        m.len() <= max,
    ensures
        spec_cache_ok(file_image(m, max)),
        HashCache::spec_loaded(Some(file_image(m, max))) == aged_map(m),
        HashCache::spec_loaded(Some(file_image(m, max))).dom() == m.dom(),
{
    lemma_ordered_entries(m);
    let es = ordered_entries(m);
    assert(kept_entries(m, max) == es);
    lemma_file_of(es);
    lemma_load_distinct(es);
    let loaded = load_onto(Map::empty(), es);
    assert(loaded =~= aged_map(m)) by {
        assert forall|k: u128| loaded.contains_key(k) <==> m.contains_key(k) by {
            if loaded.contains_key(k) {
                let i = choose|i: int| 0 <= i < es.len() && (#[trigger] es[i]).1 == k;
                assert(es.contains(es[i]));
            }
            if m.contains_key(k) {
                assert(es.contains((aged(m[k]), k)));
                let i = choose|i: int| 0 <= i < es.len() && es[i] == (aged(m[k]), k);
                assert(loaded.contains_key(es[i].1));
            }
        }
        assert forall|k: u128| loaded.contains_key(k) implies loaded[k] == aged(m[k]) by {
            let i = choose|i: int| 0 <= i < es.len() && (#[trigger] es[i]).1 == k;
            assert(es.contains(es[i]));
            assert(loaded[es[i].1] == es[i].0);
        }
    }
    assert(aged_map(m).dom() =~= m.dom());
}

/// Where every counter has reached the largest value, loading what a flush
/// wrote gives the very same records back.
pub proof fn lemma_load_after_write_saturated(m: Map<u128, u16>, max: nat)
    requires
        m.dom().finite(),
        m.len() <= max,
        forall|k: u128| m.contains_key(k) ==> m[k] == u16::MAX,
    ensures
        HashCache::spec_loaded(Some(file_image(m, max))) == m,
{
    lemma_load_after_write(m, max);
    assert(aged_map(m) =~= m);
}

/// Writing what was loaded from a usable file whose records have distinct
/// hashes, fit in the limit, and stay in file order when aged, gives the same
/// records in the same order, each one run older.
pub proof fn lemma_write_after_load(es: Seq<Entry>, max: nat)
    requires
        distinct_hashes(es),
        strictly_ordered(aged_entries(es)),
        es.len() <= max,
    ensures
        spec_cache_ok(file_of(es)),
        file_image(HashCache::spec_loaded(Some(file_of(es))), max) == file_of(aged_entries(es)),
{
    lemma_file_of(es);
    lemma_load_distinct(es);
    let m = load_onto(Map::empty(), es);
    assert(HashCache::spec_loaded(Some(file_of(es))) == m);
    let a = aged_entries(es);
    assert(lists_aged(a, m)) by {
        assert forall|x: Entry| #[trigger]
            a.contains(x) <==> m.contains_key(x.1) && aged(m[x.1]) == x.0 by {
            if a.contains(x) {
                let i = choose|i: int| 0 <= i < a.len() && a[i] == x;
                assert(m.contains_key(es[i].1) && m[es[i].1] == es[i].0);
            }
            if m.contains_key(x.1) && aged(m[x.1]) == x.0 {
                let i = choose|i: int| 0 <= i < es.len() && (#[trigger] es[i]).1 == x.1;
                assert(m[es[i].1] == es[i].0);
                assert(a[i] == x);
            }
        }
    }
    lemma_is_ordered_entries(m, a);
    assert(kept_entries(m, max) == a);
}

/// A usable file whose records are in file order, all with the largest
/// counter, and fit in the limit is reproduced exactly by loading it and
/// writing it again.
pub proof fn lemma_write_after_load_saturated(es: Seq<Entry>, max: nat)
    requires
        strictly_ordered(es),
        forall|i: int| 0 <= i < es.len() ==> (#[trigger] es[i]).0 == u16::MAX,
        es.len() <= max,
    ensures
        file_image(HashCache::spec_loaded(Some(file_of(es))), max) == file_of(es),
{
    assert(aged_entries(es) =~= es);
    assert(distinct_hashes(es)) by {
        assert forall|i: int, j: int| 0 <= i < j < es.len() implies es[i].1 != es[j].1 by {
            assert(entry_lt(es[i], es[j]));
        }
    }
    lemma_write_after_load(es, max);
}

/// A usable file whose records are in file order with hashes that differ,
/// none with the largest counter, and fit in the limit comes back from a
/// load and a write with the same records in the same order, each counter
/// one higher.
pub proof fn lemma_write_after_load_young(es: Seq<Entry>, max: nat)
    requires
        strictly_ordered(es),
        distinct_hashes(es),
        forall|i: int| 0 <= i < es.len() ==> (#[trigger] es[i]).0 < u16::MAX,
        es.len() <= max,
    ensures
        file_image(HashCache::spec_loaded(Some(file_of(es))), max) == file_of(aged_entries(es)),
        forall|i: int|
            0 <= i < es.len() ==> (#[trigger] aged_entries(es)[i]) == ((es[i].0 + 1) as u16, es[i].1),
{
    let a = aged_entries(es);
    assert(strictly_ordered(a)) by {
        assert forall|i: int, j: int| 0 <= i < j < a.len() implies entry_lt(a[i], a[j]) by {
            assert(entry_lt(es[i], es[j]));
        }
    }
    lemma_write_after_load(es, max);
}

/// A file that is shorter than a header, an empty one for one, is not
/// usable, and a file that is not usable loads as nothing.
pub proof fn lemma_unusable_file_loads_nothing(contents: Seq<u8>)
    ensures
        contents.len() < HEADER_SIZE ==> !spec_cache_ok(contents),
        !spec_cache_ok(contents) ==> HashCache::spec_loaded(Some(contents)) == Map::<
            u128,
            u16,
        >::empty(),
{
}

/// A file that carries another version than this program's is not usable.
pub proof fn lemma_other_version_is_unusable(contents: Seq<u8>)
    requires
        contents.len() >= HEADER_SIZE,
        header_version(contents) != (VERSION_MAJOR, VERSION_MINOR, VERSION_PATCH),
    ensures
        !spec_cache_ok(contents),
        HashCache::spec_loaded(Some(contents)) == Map::<u128, u16>::empty(),
{
}

} // verus!
