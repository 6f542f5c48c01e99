//! The work-skipping cache: which (file, tool) pairs are already done.
//!
//! The cache is a map from the hash of a [`Key`] to a counter, the number of
//! runs since the entry was last touched. On disk it is a version header
//! followed by fixed-size records, youngest first; see [`format`](crate::format).

use vstd::prelude::*;
use std::collections::HashMap;
use vstd::std_specs::iter::IteratorSpec;
use crate::file;
use crate::file::{mix, mix_stamps, Xxhash};
use crate::format::{
    aged, current_version, decode_records, deserialize_version_header, file_image,
    header_bytes, kept_entries, lemma_encode_len, lemma_ordered_entries_are, load_onto, read_record,
    serialize_version_header, sort_entries, spec_cache_ok, write_records, HEADER_SIZE,
    RECORD_SIZE,
};
use crate::tool;

verus! {

/// Default byte budget of a cache file: 2^18 records.
pub const DEFAULT_MAX_CACHE_SIZE_BYTES: usize = 4718592;

/// Identifies one piece of work: a state of a file under a state of a tool.
#[derive(Debug, Clone, Copy, PartialEq, Eq, Structural, Hash)]
pub struct Key {
    pub stamp: file::Stamp,
    pub tool_stamp: tool::Stamp,
}

/// The hash under which a key is stored: the digest of the file stamp
/// followed by the tool stamp.
pub open spec fn key_hash(key: Key) -> u128 {
    mix(key.stamp.0.0, key.tool_stamp.0.0)
}

/// The key of a file's content under a tool.
pub open spec fn content_key(file: file::File, tool: tool::Tool) -> Key {
    Key { stamp: file.spec_content_stamp(), tool_stamp: tool.stamp }
}

/// The key of a file's modification time under a tool.
pub open spec fn mtime_key(file: file::File, tool: tool::Tool) -> Key {
    Key { stamp: file.spec_mtime_stamp(), tool_stamp: tool.stamp }
}

impl Key {
    pub fn new(stamp: file::Stamp, tool_stamp: tool::Stamp) -> (key: Self)
        ensures
            key == (Key { stamp, tool_stamp }),
    {
        Self { stamp, tool_stamp }
    }

    /// The key of `file`'s content under `tool`.
    pub fn from_content(file: &file::File, tool: &tool::Tool) -> (key: Self)
        ensures
            key == content_key(*file, *tool),
    {
        Self { stamp: file.content_stamp(), tool_stamp: tool.stamp }
    }

    /// The key of `file`'s modification time under `tool`.
    pub fn from_mtime(file: &file::File, tool: &tool::Tool) -> (key: Self)
        ensures
            key == mtime_key(*file, *tool),
    {
        Self { stamp: file.mtime_stamp(), tool_stamp: tool.stamp }
    }
}

/// The hash of a [`Key`]: the only thing the cache stores of it.
#[derive(Debug, Clone, Copy, PartialEq, Eq, Structural, Hash)]
pub struct KeyHash(pub Xxhash);

impl From<&Key> for KeyHash {
    fn from(key: &Key) -> (hash: Self) {
        KeyHash(Xxhash(mix_stamps(key.stamp.0.0, key.tool_stamp.0.0)))
    }
}

impl vstd::std_specs::convert::FromSpecImpl<&Key> for KeyHash {
    open spec fn obeys_from_spec() -> bool {
        true
    }

    open spec fn from_spec(key: &Key) -> Self {
        KeyHash(Xxhash(key_hash(*key)))
    }
}

/// What a flush hands over: the bytes to put in the cache file, if any are to
/// be written, and whether entries had to be dropped to stay in budget.
pub struct Flushed {
    pub content: Option<Vec<u8>>,
    pub cache_full: bool,
}

/// The write-only side of a cache: recording work that was done.
pub trait CacheWriter {
    /// The recorded hashes, each with its counter.
    spec fn records(&self) -> Map<u128, u16>;

    /// Whether this cache keeps what it is told. One that does not stays
    /// empty.
    spec fn keeps(&self) -> bool;

    /// The number of records that the cache file may hold.
    spec fn capacity(&self) -> nat;

    /// A cache that does not keep what it is told holds nothing.
    proof fn lemma_holds_only_what_it_keeps(&self)
        ensures
            !self.keeps() ==> self.records() == Map::<u128, u16>::empty(),
    ;

    /// Records the key with counter 0.
    fn done(&mut self, key: &Key)
        ensures
            final(self).keeps() == old(self).keeps(),
            final(self).capacity() == old(self).capacity(),
            final(self).records() == if old(self).keeps() {
                old(self).records().insert(key_hash(*key), 0)
            } else {
                old(self).records()
            },
    ;

    /// Records the hash with counter 0.
    fn done_hash(&mut self, hash: KeyHash)
        ensures
            final(self).keeps() == old(self).keeps(),
            final(self).capacity() == old(self).capacity(),
            final(self).records() == if old(self).keeps() {
                old(self).records().insert(hash.0.0, 0)
            } else {
                old(self).records()
            },
    ;

    /// Gives the bytes of the cache file for the current records, and
    /// whether entries were dropped from them. The records stay as they are.
    fn flush(&mut self) -> (flushed: Flushed)
        ensures
            final(self).keeps() == old(self).keeps(),
            final(self).capacity() == old(self).capacity(),
            final(self).records() == old(self).records(),
            flushed.cache_full == (old(self).keeps() && old(self).records().len() > old(
                self,
            ).capacity()),
            flushed.content is Some == old(self).keeps(),
            flushed.content matches Some(c) ==> c@ == file_image(
                old(self).records(),
                old(self).capacity(),
            ),
    ;
}

/// A cache that can also be asked.
pub trait Cache: CacheWriter {
    /// Whether the hash of `key` is recorded. Asking this way touches
    /// nothing.
    fn knows(&self, key: &Key) -> (recorded: bool)
        ensures
            recorded == self.records().contains_key(key_hash(*key)),
    ;

    /// Whether the work under `key` still has to be done: whether its hash is
    /// absent. A hash that is present is touched: its counter goes to 0.
    fn needed(&mut self, key: &Key) -> (needed: bool)
        ensures
            needed == !old(self).records().contains_key(key_hash(*key)),
            final(self).keeps() == old(self).keeps(),
            final(self).capacity() == old(self).capacity(),
            final(self).records() == if needed {
                old(self).records()
            } else {
                old(self).records().insert(key_hash(*key), 0)
            },
    ;
}

/// The cache proper, held in memory between a load and a flush.
pub struct HashCache {
    pub hashes: HashMap<u128, u16>,
    /// Where the cache file lives.
    pub file: String,
    pub max_entries: usize,
    /// How many entries this run recorded; it stops counting at `usize::MAX`.
    pub entries_added: usize,
}

impl View for HashCache {
    type V = Map<u128, u16>;

    open spec fn view(&self) -> Map<u128, u16> {
        self.hashes@
    }
}

/// What loading a cache file gave.
pub struct Loaded {
    pub cache: HashCache,
    /// Whether the file was unusable and has to be deleted.
    pub discard: bool,
}

impl HashCache {
    /// An empty cache for the file at `file`, limited to `max_size_entries`.
    pub fn new(file: String, max_size_entries: usize) -> (cache: Self)
        ensures
            cache@ == Map::<u128, u16>::empty(),
            cache.file == file,
            cache.max_entries == max_size_entries,
            cache.entries_added == 0,
    {
        Self { hashes: HashMap::new(), file, max_entries: max_size_entries, entries_added: 0 }
    }

    /// The records that loading `contents` puts into an empty cache: those of
    /// the body if the file is usable, none otherwise.
    pub open spec fn spec_loaded(contents: Option<Seq<u8>>) -> Map<u128, u16> {
        match contents {
            Some(c) if spec_cache_ok(c) => load_onto(
                Map::empty(),
                decode_records(c.subrange(HEADER_SIZE as int, c.len() as int)),
            ),
            _ => Map::empty(),
        }
    }

    /// The cache for the file at `file`, whose bytes are `contents` (`None`
    /// where there is no such file), with a budget of `max_size_bytes` bytes or
    /// else the default budget. A file that is there and not usable yields an
    /// empty cache and is to be deleted.
    pub fn from_file(file: String, contents: Option<&[u8]>, max_size_bytes: Option<usize>) -> (loaded:
        Loaded)
        ensures
            loaded.cache.file == file,
            loaded.cache.entries_added == 0,
            loaded.cache.max_entries == match max_size_bytes {
                Some(b) => b / RECORD_SIZE,
                None => DEFAULT_MAX_CACHE_SIZE_BYTES / RECORD_SIZE,
            },
            loaded.cache@ == Self::spec_loaded(
                match contents {
                    Some(c) => Some(c@),
                    None => None,
                },
            ),
            loaded.discard == (contents matches Some(c) && !spec_cache_ok(c@)),
    {
        let max_size_entries: usize = match max_size_bytes {
            Some(b) => max_entries_from_bytes(b),
            None => max_entries_from_bytes(DEFAULT_MAX_CACHE_SIZE_BYTES),
        };
        let mut cache = Self::new(file, max_size_entries);
        match contents {
            None => Loaded { cache, discard: false },
            Some(c) => {
                let ok = cache.load(c);
                Loaded { cache, discard: !ok }
            },
        }
    }

    /// Whether a cache file with these bytes is usable: see
    /// [`spec_cache_ok`].
    pub fn cache_ok(contents: &[u8]) -> (ok: bool)
        ensures
            ok == spec_cache_ok(contents@),
    {
        if contents.len() < HEADER_SIZE {
            return false;
        }
        let cached = match deserialize_version_header(contents) {
            Some(v) => v,
            None => {
                return false;
            },
        };
        let current = current_version();
        if cached.0 != current.0 || cached.1 != current.1 || cached.2 != current.2 {
            return false;
        }
        (contents.len() - HEADER_SIZE) % RECORD_SIZE == 0
    }

    /// Loads the records of a cache file's bytes, if the file is usable, and
    /// says whether it was. An unusable file changes nothing.
    pub fn load(&mut self, contents: &[u8]) -> (ok: bool)
        ensures
            ok == spec_cache_ok(contents@),
            final(self).file == old(self).file,
            final(self).max_entries == old(self).max_entries,
            final(self).entries_added == old(self).entries_added,
            final(self)@ == if ok {
                load_onto(
                    old(self)@,
                    decode_records(
                        contents@.subrange(HEADER_SIZE as int, contents@.len() as int),
                    ),
                )
            } else {
                old(self)@
            },
    {
        if !Self::cache_ok(contents) {
            return false;
        }
        let records_data = vstd::slice::slice_subrange(contents, HEADER_SIZE, contents.len());
        self.load_records(records_data);
        true
    }

    /// Puts every record of `contents` into the cache, in order: a later
    /// record of a hash replaces an earlier one.
    pub fn load_records(&mut self, contents: &[u8])
        requires
            contents@.len() % RECORD_SIZE as nat == 0,
        ensures
            final(self).file == old(self).file,
            final(self).max_entries == old(self).max_entries,
            final(self).entries_added == old(self).entries_added,
            final(self)@ == load_onto(old(self)@, decode_records(contents@)),
    {
        broadcast use vstd::std_specs::hash::group_hash_axioms;

        let n: usize = contents.len() / RECORD_SIZE;
        let ghost all = decode_records(contents@);
        let mut i: usize = 0;
        while i < n
            invariant
                n == contents@.len() / RECORD_SIZE as nat,
                contents@.len() % RECORD_SIZE as nat == 0,
                all == decode_records(contents@),
                all.len() == n,
                i <= n,
                self.file == old(self).file,
                self.max_entries == old(self).max_entries,
                self.entries_added == old(self).entries_added,
                self@ == load_onto(old(self)@, all.subrange(0, i as int)),
            decreases n - i,
        {
            let (counter, hash_value) = read_record(contents, i);
            self.hashes.insert(hash_value, counter);
            proof {
                let next = all.subrange(0, i + 1);
                assert(next.drop_last() =~= all.subrange(0, i as int));
                assert(next.last() == all[i as int]);
            }
            i += 1;
        }
        assert(all.subrange(0, n as int) =~= all);
    }

    /// The bytes of the cache file for the current records, and whether
    /// entries were dropped: every counter one run older, the youngest
    /// `max_entries` kept, ordered by counter and then by hash.
    pub fn serialize(&mut self) -> (r: (Vec<u8>, bool))
        ensures
            *final(self) == *old(self),
            r.0@ == file_image(old(self)@, old(self).max_entries as nat),
            r.1 == (old(self)@.len() > old(self).max_entries),
            r.0@.len() <= HEADER_SIZE + old(self).max_entries * RECORD_SIZE,
    {
        broadcast use vstd::std_specs::hash::group_hash_axioms;

        let mut entries: Vec<(u16, u128)> = Vec::new();
        let iter = self.hashes.iter();
        let ghost items = iter.remaining();
        for (h, counter) in it: iter
            invariant
                it.seq() == items,
                entries@.len() == it.index(),
                forall|j: int|
                    0 <= j < entries@.len() ==> entries@[j] == (aged(*items[j].1), *items[j].0),
        {
            let c: u16 = *counter;
            let older: u16 = if c == u16::MAX {
                c
            } else {
                c + 1
            };
            entries.push((older, *h));
        }
        let ghost collected = entries@;
        proof {
            assert(items == vstd::std_specs::hash::spec_hash_map_iter(&self.hashes).remaining());
            assert forall|k: u128| self@.contains_key(k) implies collected.contains(
                (aged(self@[k]), k),
            ) by {
                assert(items.contains((&k, &self@[k])));
                let j = choose|j: int| 0 <= j < items.len() && items[j] == (&k, &self@[k]);
                assert(collected[j] == (aged(self@[k]), k));
            }
            assert forall|i: int, j: int| 0 <= i < j < collected.len() implies collected[i].1
                != collected[j].1 by {
                if collected[i].1 == collected[j].1 {
                    assert(self@[*items[i].0] == *items[i].1);
                    assert(self@[*items[j].0] == *items[j].1);
                    assert(items[i] == items[j]);
                }
            }
            assert forall|j: int| 0 <= j < collected.len() implies self@.contains_key(
                #[trigger] collected[j].1,
            ) && collected[j].0 == aged(self@[collected[j].1]) by {
                assert(self@.contains_key(*items[j].0));
            }
        }
        sort_entries(&mut entries);
        proof {
            lemma_ordered_entries_are(self@, collected, entries@);
        }
        let initial_count: usize = entries.len();
        let to_keep: usize = if initial_count < self.max_entries {
            initial_count
        } else {
            self.max_entries
        };
        let cache_full: bool = initial_count > to_keep;
        let (major, minor, patch) = current_version();
        let header = serialize_version_header(major, minor, patch);
        let mut content: Vec<u8> = Vec::new();
        file::feed(&mut content, header.as_slice());
        assert(content@ =~= header_bytes(major, minor, patch));
        write_records(&mut content, &entries, to_keep);
        proof {
            vstd::bytes::lemma_auto_spec_u16_to_from_le_bytes();
            let kept = entries@.subrange(0, to_keep as int);
            assert(kept_entries(self@, self.max_entries as nat) =~= kept);
            lemma_encode_len(kept);
            assert(self@.len() == self@.dom().len());
        }
        (content, cache_full)
    }
}

impl CacheWriter for HashCache {
    open spec fn records(&self) -> Map<u128, u16> {
        self@
    }

    open spec fn keeps(&self) -> bool {
        true
    }

    open spec fn capacity(&self) -> nat {
        self.max_entries as nat
    }

    proof fn lemma_holds_only_what_it_keeps(&self) {
    }

    fn done_hash(&mut self, hash: KeyHash)
        ensures
            final(self).file == old(self).file,
            final(self).max_entries == old(self).max_entries,
            final(self).entries_added == if old(self).entries_added < usize::MAX {
                old(self).entries_added + 1
            } else {
                old(self).entries_added as int
            },
    {
        broadcast use vstd::std_specs::hash::group_hash_axioms;

        self.hashes.insert(hash.0.0, 0);
        if self.entries_added < usize::MAX {
            self.entries_added += 1;
        }
    }

    fn done(&mut self, key: &Key)
        ensures
            final(self).file == old(self).file,
            final(self).max_entries == old(self).max_entries,
            final(self).entries_added == if old(self).entries_added < usize::MAX {
                old(self).entries_added + 1
            } else {
                old(self).entries_added as int
            },
    {
        self.done_hash(KeyHash::from(key));
    }

    fn flush(&mut self) -> (flushed: Flushed)
        ensures
            *final(self) == *old(self),
    {
        let (content, cache_full) = self.serialize();
        Flushed { content: Some(content), cache_full }
    }
}

impl Cache for HashCache {
    fn knows(&self, key: &Key) -> (recorded: bool) {
        broadcast use vstd::std_specs::hash::group_hash_axioms;

        let hash = KeyHash::from(key);
        self.hashes.contains_key(&hash.0.0)
    }

    fn needed(&mut self, key: &Key) -> (needed: bool)
        ensures
            final(self).file == old(self).file,
            final(self).max_entries == old(self).max_entries,
            final(self).entries_added == old(self).entries_added,
    {
        broadcast use vstd::std_specs::hash::group_hash_axioms;

        let hash = KeyHash::from(key);
        if self.hashes.contains_key(&hash.0.0) {
            self.hashes.insert(hash.0.0, 0);
            false
        } else {
            true
        }
    }
}

/// The cache that remembers nothing: every piece of work is needed, and a
/// flush writes no file.
#[derive(Clone, Copy, Debug)]
pub struct NopCache;

impl CacheWriter for NopCache {
    open spec fn records(&self) -> Map<u128, u16> {
        Map::empty()
    }

    open spec fn keeps(&self) -> bool {
        false
    }

    open spec fn capacity(&self) -> nat {
        0
    }

    proof fn lemma_holds_only_what_it_keeps(&self) {
    }

    fn done_hash(&mut self, hash: KeyHash) {
    }

    fn done(&mut self, key: &Key) {
    }

    fn flush(&mut self) -> (flushed: Flushed) {
        Flushed { content: None, cache_full: false }
    }
}

impl Cache for NopCache {
    fn knows(&self, key: &Key) -> (recorded: bool) {
        false
    }

    fn needed(&mut self, key: &Key) -> (needed: bool) {
        true
    }
}

/// Figures about a cache.
#[derive(Clone, Copy, Debug, PartialEq, Eq, Structural)]
pub struct Stats {
    /// Number of records.
    pub records: usize,
    /// Size of the cache file that holds them, in bytes.
    pub total_size_bytes: u128,
    /// Number of records the cache may hold.
    pub max_records: usize,
    /// Size of a cache file that holds so many, in bytes.
    pub max_size_bytes: u128,
    /// Records as a percentage of the records allowed, rounded down; 0 where
    /// none are allowed.
    pub percentage_used: u128,
    /// Number of records with counter 0.
    pub records_most_recent_run: usize,
    /// One more than the largest counter; 0 for an empty cache.
    pub runs_represented: usize,
    /// Records per run represented, rounded down.
    pub avg_records_per_run: usize,
}

/// The hashes of `m` whose counter is 0.
pub open spec fn fresh_hashes(m: Map<u128, u16>) -> Set<u128> {
    m.dom().filter(|k: u128| m[k] == 0)
}

/// Whether `c` is the largest counter of `m`.
pub open spec fn is_max_counter(m: Map<u128, u16>, c: u16) -> bool {
    &&& exists|k: u128| m.contains_key(k) && m[k] == c
    &&& forall|k: u128| m.contains_key(k) ==> m[k] <= c
}

/// The figures of a cache.
pub fn stats(cache: &HashCache) -> (st: Stats)
    ensures
        st.records == cache@.len(),
        st.total_size_bytes == HEADER_SIZE + st.records * RECORD_SIZE,
        st.max_records == cache.max_entries,
        st.max_size_bytes == HEADER_SIZE + st.max_records * RECORD_SIZE,
        st.percentage_used == if st.max_records > 0 {
            (st.records * 100) / (st.max_records as int)
        } else {
            0
        },
        st.records_most_recent_run == fresh_hashes(cache@).len(),
        st.records == 0 ==> st.runs_represented == 0,
        st.records > 0 ==> st.runs_represented >= 1 && is_max_counter(
            cache@,
            (st.runs_represented - 1) as u16,
        ),
        st.avg_records_per_run == if st.runs_represented > 0 {
            st.records as int / st.runs_represented as int
        } else {
            0
        },
{
    broadcast use vstd::std_specs::hash::group_hash_axioms;

    let records: usize = cache.hashes.len();
    let max_records: usize = cache.max_entries;
    let total_size_bytes: u128 = HEADER_SIZE as u128 + records as u128 * RECORD_SIZE as u128;
    let max_size_bytes: u128 = HEADER_SIZE as u128 + max_records as u128 * RECORD_SIZE as u128;
    let percentage_used: u128 = if max_records > 0 {
        (records as u128 * 100) / max_records as u128
    } else {
        0
    };
    let mut fresh: usize = 0;
    let mut max_counter: u16 = 0;
    let ghost mut seen: Seq<u128> = Seq::empty();
    let iter = cache.hashes.iter();
    let ghost items = iter.remaining();
    for (h, counter) in it: iter
        invariant
            it.seq() == items,
            items == vstd::std_specs::hash::spec_hash_map_iter(&cache.hashes).remaining(),
            items.no_duplicates(),
            items.len() == records,
            it.index() == 0 ==> max_counter == 0,
            fresh == seen.len(),
            fresh <= it.index(),
            seen.no_duplicates(),
            forall|k: u128|
                seen.contains(k) <==> exists|j: int|
                    0 <= j < it.index() && *(#[trigger] items[j]).0 == k && *items[j].1 == 0,
            forall|j: int| 0 <= j < it.index() ==> *(#[trigger] items[j]).1 <= max_counter,
            it.index() > 0 ==> exists|j: int|
                0 <= j < it.index() && *(#[trigger] items[j]).1 == max_counter,
    {
        let ghost idx = it.index();
        if *counter == 0 {
            proof {
                if seen.contains(*h) {
                    let j = choose|j: int|
                        0 <= j < idx && *(#[trigger] items[j]).0 == *h && *items[j].1 == 0;
                    assert(cache@[*items[j].0] == *items[j].1);
                    assert(cache@[*items[idx].0] == *items[idx].1);
                    assert(items[j] == items[idx]);
                }
                let before = seen;
                seen = seen.push(*h);
                assert forall|k: u128|
                    seen.contains(k) <==> exists|j: int|
                        0 <= j < idx + 1 && *(#[trigger] items[j]).0 == k && *items[j].1 == 0 by {
                    if seen.contains(k) {
                        let p = choose|p: int| 0 <= p < seen.len() && seen[p] == k;
                        if p < before.len() {
                            assert(before.contains(before[p]));
                        } else {
                            assert(*items[idx].0 == k);
                        }
                    }
                    if exists|j: int|
                        0 <= j < idx + 1 && *(#[trigger] items[j]).0 == k && *items[j].1 == 0 {
                        let j = choose|j: int|
                            0 <= j < idx + 1 && *(#[trigger] items[j]).0 == k && *items[j].1
                                == 0;
                        if j < idx {
                            assert(before.contains(k));
                            let p = choose|p: int| 0 <= p < before.len() && before[p] == k;
                            assert(seen[p] == k);
                        } else {
                            assert(seen[before.len() as int] == k);
                        }
                    }
                }
            }
            fresh += 1;
        }
        if *counter > max_counter {
            max_counter = *counter;
        }
        proof {
            assert(*items[idx].1 <= max_counter);
            if max_counter == *counter {
                assert(*items[idx].1 == max_counter);
            } else {
                let j = choose|j: int| 0 <= j < idx && *(#[trigger] items[j]).1 == max_counter;
                assert(0 <= j < idx + 1 && *items[j].1 == max_counter);
            }
        }
    }
    proof {
        assert(seen.to_set() =~= fresh_hashes(cache@)) by {
            assert forall|k: u128| seen.to_set().contains(k) <==> fresh_hashes(
                cache@,
            ).contains(k) by {
                if seen.contains(k) {
                    let j = choose|j: int|
                        0 <= j < items.len() && *(#[trigger] items[j]).0 == k && *items[j].1
                            == 0;
                    assert(cache@.contains_key(*items[j].0));
                    assert(cache@[*items[j].0] == *items[j].1);
                }
                if cache@.contains_key(k) && cache@[k] == 0 {
                    assert(items.contains((&k, &cache@[k])));
                    let j = choose|j: int| 0 <= j < items.len() && items[j] == (&k, &cache@[k]);
                    assert(*items[j].0 == k && *items[j].1 == 0);
                }
            }
        }
        seen.unique_seq_to_set();
        if records > 0 {
            let j = choose|j: int| 0 <= j < items.len() && *(#[trigger] items[j]).1 == max_counter;
            assert(cache@.contains_key(*items[j].0) && cache@[*items[j].0] == max_counter);
            assert forall|k: u128| cache@.contains_key(k) implies cache@[k] <= max_counter by {
                assert(items.contains((&k, &cache@[k])));
                let i = choose|i: int| 0 <= i < items.len() && items[i] == (&k, &cache@[k]);
                assert(*items[i].1 <= max_counter);
            }
        }
    }
    let runs_represented: usize = if records > 0 {
        max_counter as usize + 1
    } else {
        0
    };
    let avg_records_per_run: usize = if runs_represented > 0 {
        records / runs_represented
    } else {
        0
    };
    Stats {
        records,
        total_size_bytes,
        max_records,
        max_size_bytes,
        percentage_used,
        records_most_recent_run: fresh,
        runs_represented,
        avg_records_per_run,
    }
}

/// Brings a cache file down to a budget of `max_size_bytes` bytes, or else of
/// the default budget: gives the bytes to write in its place and whether
/// entries were dropped. Where there is no file (`contents` is `None`) there
/// is nothing to write.
pub fn gc(file: String, contents: Option<&[u8]>, max_size_bytes: Option<usize>) -> (r: Option<
    (Vec<u8>, bool),
>)
    ensures
        contents is None ==> r is None,
        contents matches Some(c) ==> {
            let max: usize = match max_size_bytes {
                Some(b) => b,
                None => DEFAULT_MAX_CACHE_SIZE_BYTES,
            };
            let m = HashCache::spec_loaded(Some(c@));
            &&& r is Some
            &&& r->Some_0.0@ == file_image(m, (max / RECORD_SIZE) as nat)
            &&& r->Some_0.1 == (m.len() > max / RECORD_SIZE)
        },
{
    match contents {
        None => None,
        Some(c) => {
            let max: usize = match max_size_bytes {
                Some(b) => b,
                None => DEFAULT_MAX_CACHE_SIZE_BYTES,
            };
            let mut loaded = HashCache::from_file(file, Some(c), Some(max));
            let (content, cache_full) = loaded.cache.serialize();
            Some((content, cache_full))
        },
    }
}

/// The number of records that fit in a budget of `bytes` bytes.
pub fn max_entries_from_bytes(bytes: usize) -> (n: usize)
    ensures
        n == bytes / RECORD_SIZE,
{
    bytes / RECORD_SIZE
}

} // verus!
