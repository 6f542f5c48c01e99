//! Files and their fingerprints.
//!
//! A [`File`] carries two cheap fingerprints from the moment it is made, one of
//! its metadata and one of its modification time, and a third, of its
//! content, that is filled in the first time it is asked for.

use vstd::prelude::*;
use vstd::bytes::{
    spec_u128_to_le_bytes, spec_u32_to_le_bytes, spec_u64_to_le_bytes, u128_to_le_bytes,
    u32_to_le_bytes, u64_to_le_bytes,
};
use vstd::string::StringSliceAdditionalSpecFns;
use crate::hash::{xxh3_128, xxh3_128_digest};
use crate::path::{extension, path_extension, path_stripped, path_under, starts_with, strip_prefix};
use crate::text::str_eq;

verus! {

/// A 128-bit XXH3 digest.
#[derive(Clone, Copy, Debug, PartialEq, Eq, Structural, Hash)]
pub struct Xxhash(pub u128);

/// A fingerprint of one aspect of a file.
#[derive(Clone, Copy, Debug, PartialEq, Eq, Structural, Hash)]
pub struct Stamp(pub Xxhash);

/// Owner and permission bits of a file, where the platform has them.
#[derive(Clone, Copy, Debug, PartialEq, Eq, Structural)]
pub struct Posix {
    pub uid: u32,
    pub gid: u32,
    pub mode: u32,
}

/// What the file system reports of a file, as plain values.
#[derive(Clone, Copy, Debug, PartialEq, Eq)]
pub struct Metadata {
    /// Length of the file in bytes.
    pub len: u64,
    /// Owner and mode, on platforms that have them.
    pub posix: Option<Posix>,
    /// Modification time in nanoseconds since the epoch; `None` where the
    /// platform cannot tell.
    pub mtime_ns: Option<u128>,
}

/// Why a [`File`] could not be made.
#[derive(Clone, Copy, Debug, PartialEq, Eq, Structural)]
pub enum FileError {
    /// The metadata holds no modification time.
    NoMtime,
    /// The file has no metadata: it could not be examined.
    NoMetadata,
}

/// A file of the project, with its fingerprints.
#[derive(Debug)]
pub struct File {
    pub path: String,
    pub size: usize,
    pub metadata_stamp: Stamp,
    pub mtime_stamp: Stamp,
    /// Digest of the content; absent until [`File::fill_content_stamp`] ran.
    pub content_stamp: Option<Stamp>,
}

impl Clone for File {
    fn clone(&self) -> (r: Self)
        ensures
            r == *self,
    {
        File {
            path: self.path.clone(),
            size: self.size,
            metadata_stamp: self.metadata_stamp,
            mtime_stamp: self.mtime_stamp,
            content_stamp: self.content_stamp,
        }
    }
}

/// The bytes that owner and mode contribute to a metadata fingerprint.
pub open spec fn posix_bytes(posix: Option<Posix>) -> Seq<u8> {
    match posix {
        Some(p) => spec_u32_to_le_bytes(p.uid) + spec_u32_to_le_bytes(p.gid)
            + spec_u32_to_le_bytes(p.mode),
        None => Seq::empty(),
    }
}

/// The bytes that a path and its metadata contribute to a fingerprint: the
/// path as the system gives it, the length, then owner and mode, every
/// integer little-endian.
pub open spec fn md_bytes(path: Seq<char>, metadata: Metadata) -> Seq<u8> {
    vstd::utf8::encode_utf8(path) + spec_u64_to_le_bytes(metadata.len) + posix_bytes(
        metadata.posix,
    )
}

/// The bytes that a modification time contributes to a fingerprint.
pub open spec fn mtime_bytes(mtime_ns: u128) -> Seq<u8> {
    spec_u128_to_le_bytes(mtime_ns)
}

/// The digest of two digests, each fed as its 16 little-endian bytes.
pub open spec fn mix(a: u128, b: u128) -> u128 {
    xxh3_128_digest(spec_u128_to_le_bytes(a) + spec_u128_to_le_bytes(b))
}

/// Appends `tail` to `buf`.
pub fn feed(buf: &mut Vec<u8>, tail: &[u8])
    ensures
        final(buf)@ == old(buf)@ + tail@,
{
    let ghost before = buf@;
    let n: usize = tail.len();
    let mut i: usize = 0;
    while i < n
        invariant
            n == tail@.len(),
            i <= n,
            buf@ == before + tail@.subrange(0, i as int),
        decreases n - i,
    {
        buf.push(tail[i]);
        i += 1;
        assert(buf@ =~= before + tail@.subrange(0, i as int));
    }
    assert(tail@.subrange(0, n as int) =~= tail@);
}

/// Feeds a path and its metadata to the byte stream `md` of a fingerprint.
pub fn hash_md(path: &str, metadata: &Metadata, md: &mut Vec<u8>)
    ensures
        final(md)@ == old(md)@ + md_bytes(path@, *metadata),
{
    let ghost before = md@;
    feed(md, path.as_bytes());
    let len = u64_to_le_bytes(metadata.len);
    feed(md, len.as_slice());
    match metadata.posix {
        Some(p) => {
            let uid = u32_to_le_bytes(p.uid);
            feed(md, uid.as_slice());
            let gid = u32_to_le_bytes(p.gid);
            feed(md, gid.as_slice());
            let mode = u32_to_le_bytes(p.mode);
            feed(md, mode.as_slice());
        },
        None => {},
    }
    assert(md@ =~= before + md_bytes(path@, *metadata));
}

/// The fingerprint of a path and its metadata.
pub fn compute_md_stamp(path: &str, metadata: &Metadata) -> (stamp: Stamp)
    ensures
        stamp.0.0 == xxh3_128_digest(md_bytes(path@, *metadata)),
{
    let mut md: Vec<u8> = Vec::new();
    hash_md(path, metadata, &mut md);
    assert(md@ =~= md_bytes(path@, *metadata));
    Stamp(Xxhash(xxh3_128(md.as_slice())))
}

/// Feeds the modification time to the byte stream of a fingerprint, or fails
/// where the metadata holds none; the stream is then left as it was.
pub fn hash_mtime(metadata: &Metadata, mtime_hasher: &mut Vec<u8>) -> (r: Result<(), FileError>)
    ensures
        match metadata.mtime_ns {
            Some(ns) => r is Ok && final(mtime_hasher)@ == old(mtime_hasher)@ + mtime_bytes(ns),
            None => r == Err::<(), FileError>(FileError::NoMtime) && final(mtime_hasher)@ == old(
                mtime_hasher,
            )@,
        },
{
    match metadata.mtime_ns {
        Some(ns) => {
            let bytes = u128_to_le_bytes(ns);
            feed(mtime_hasher, bytes.as_slice());
            Ok(())
        },
        None => Err(FileError::NoMtime),
    }
}

/// The fingerprint of a modification time alone.
pub fn compute_mtime_stamp(metadata: &Metadata) -> (r: Result<Stamp, FileError>)
    ensures
        match metadata.mtime_ns {
            Some(ns) => r is Ok && r->Ok_0.0.0 == xxh3_128_digest(mtime_bytes(ns)),
            None => r == Err::<Stamp, FileError>(FileError::NoMtime),
        },
{
    let mut mtime_hasher: Vec<u8> = Vec::new();
    match hash_mtime(metadata, &mut mtime_hasher) {
        Ok(()) => {
            assert(mtime_hasher@ =~= mtime_bytes(metadata.mtime_ns->Some_0));
            Ok(Stamp(Xxhash(xxh3_128(mtime_hasher.as_slice()))))
        },
        Err(e) => Err(e),
    }
}

/// The digest of a file's content.
pub fn compute_hash(content: &[u8]) -> (h: Xxhash)
    ensures
        h.0 == xxh3_128_digest(content@),
{
    Xxhash(xxh3_128(content))
}

/// The digest of two digests.
pub fn mix_stamps(a: u128, b: u128) -> (h: u128)
    ensures
        h == mix(a, b),
{
    let mut buf: Vec<u8> = u128_to_le_bytes(a);
    let tail = u128_to_le_bytes(b);
    feed(&mut buf, tail.as_slice());
    xxh3_128(buf.as_slice())
}

impl File {
    /// Whether `file` is the file that `metadata` describes at `path`: it
    /// has that path, the size and the two cheap fingerprints that the
    /// metadata give, and no content fingerprint yet.
    pub open spec fn is_new(file: File, path: Seq<char>, metadata: Metadata) -> bool
        recommends
            metadata.mtime_ns is Some,
    {
        &&& file.path@ == path
        &&& file.size == metadata.len as usize
        &&& file.metadata_stamp == Stamp(Xxhash(xxh3_128_digest(md_bytes(path, metadata))))
        &&& file.mtime_stamp == Stamp(
            Xxhash(xxh3_128_digest(mtime_bytes(metadata.mtime_ns->Some_0))),
        )
        &&& file.content_stamp is None
    }

    /// Makes the file from what the file system said of it. Fails exactly when
    /// the metadata holds no modification time.
    pub fn new(path: String, metadata: &Metadata) -> (r: Result<File, FileError>)
        ensures
            metadata.mtime_ns is None ==> r == Err::<File, FileError>(FileError::NoMtime),
            metadata.mtime_ns is Some ==> r is Ok && r->Ok_0.path == path && Self::is_new(
                r->Ok_0,
                path@,
                *metadata,
            ),
    {
        let metadata_stamp = compute_md_stamp(path.as_str(), metadata);
        match compute_mtime_stamp(metadata) {
            Ok(mtime_stamp) => Ok(
                File {
                    path,
                    size: #[verifier::truncate]
                    (metadata.len as usize),
                    metadata_stamp,
                    mtime_stamp,
                    content_stamp: None,
                },
            ),
            Err(e) => Err(e),
        }
    }

    /// Sets the content fingerprint from the file's bytes, once: a
    /// fingerprint that is already there stays.
    pub fn fill_content_stamp(&mut self, content: &[u8])
        ensures
            *final(self) == (File {
                content_stamp: match old(self).content_stamp {
                    Some(s) => Some(s),
                    None => Some(Stamp(Xxhash(xxh3_128_digest(content@)))),
                },
                ..*old(self)
            }),
    {
        if self.content_stamp.is_none() {
            self.content_stamp = Some(Stamp(compute_hash(content)));
        }
    }

    /// The fingerprint by which the cache knows the content: the metadata
    /// digest mixed with the content digest.
    pub open spec fn spec_content_stamp(&self) -> Stamp {
        match self.content_stamp {
            Some(c) => Stamp(Xxhash(mix(self.metadata_stamp.0.0, c.0.0))),
            None => Stamp(
                Xxhash(xxh3_128_digest(spec_u128_to_le_bytes(self.metadata_stamp.0.0))),
            ),
        }
    }

    /// The fingerprint by which the cache knows the modification time: the
    /// metadata digest mixed with the mtime digest.
    pub open spec fn spec_mtime_stamp(&self) -> Stamp {
        Stamp(Xxhash(mix(self.metadata_stamp.0.0, self.mtime_stamp.0.0)))
    }

    /// See [`File::spec_content_stamp`].
    pub fn content_stamp(&self) -> (stamp: Stamp)
        ensures
            stamp == self.spec_content_stamp(),
    {
        match self.content_stamp {
            Some(c) => Stamp(Xxhash(mix_stamps(self.metadata_stamp.0.0, c.0.0))),
            None => {
                let buf = u128_to_le_bytes(self.metadata_stamp.0.0);
                Stamp(Xxhash(xxh3_128(buf.as_slice())))
            },
        }
    }

    /// See [`File::spec_mtime_stamp`].
    pub fn mtime_stamp(&self) -> (stamp: Stamp)
        ensures
            stamp == self.spec_mtime_stamp(),
    {
        Stamp(Xxhash(mix_stamps(self.metadata_stamp.0.0, self.mtime_stamp.0.0)))
    }
}

/// Whether a walk over the project goes into an entry: not into one with
/// the extension of backups, not into the git directory, and not into the
/// cache directory. `canonical` is the entry's path made absolute, `None`
/// where that failed; such an entry is left out too.
pub open spec fn entry_kept(path: Seq<char>, canonical: Option<Seq<char>>, cache: Seq<char>) -> bool {
    &&& path_extension(path) != Some("bck"@)
    &&& !path_under(path, "./.git"@)
    &&& !path_under(path, ".git"@)
    &&& match canonical {
        Some(c) => !path_under(c, cache),
        None => false,
    }
}

/// See [`entry_kept`].
pub fn keep_entry(path: &str, canonical: Option<&str>, cache: &str) -> (keep: bool)
    ensures
        keep == entry_kept(
            path@,
            match canonical {
                Some(c) => Some(c@),
                None => None,
            },
            cache@,
        ),
{
    let backup: bool = match extension(path) {
        Some(e) => str_eq(e.as_str(), "bck"),
        None => false,
    };
    if backup {
        return false;
    }
    if starts_with(path, "./.git") || starts_with(path, ".git") {
        return false;
    }
    match canonical {
        Some(c) => !starts_with(c, cache),
        None => false,
    }
}

/// An entry that a walk over the project came by.
#[derive(Debug)]
pub struct Found {
    pub path: String,
    pub is_dir: bool,
    /// What the file system said of it; `None` where it could not be asked.
    pub metadata: Option<Metadata>,
    /// Whether it was still there when the walk was over.
    pub still_there: bool,
}

/// Why a walk is given up.
#[derive(Debug)]
pub enum CollectError {
    /// An entry does not lie under the root of the walk.
    NotUnderRoot { path: String },
}

/// What the first `n` entries give: of each entry that is no directory, has
/// metadata with a modification time, and was still there in the end, its
/// path as seen from `root` and its metadata. `None` where an entry that is
/// no directory does not lie under `root`.
pub open spec fn collected(root: Seq<char>, found: Seq<Found>, n: nat) -> Option<
    Seq<(Seq<char>, Metadata)>,
>
    decreases n,
{
    if n == 0 {
        Some(Seq::empty())
    } else {
        match collected(root, found, (n - 1) as nat) {
            None => None,
            Some(before) => {
                let e = found[n - 1];
                if e.is_dir {
                    Some(before)
                } else {
                    match path_stripped(e.path@, root) {
                        None => None,
                        Some(rel) => match e.metadata {
                            Some(md) if md.mtime_ns is Some && e.still_there => Some(
                                before.push((rel, md)),
                            ),
                            _ => Some(before),
                        },
                    }
                }
            },
        }
    }
}

/// `files` are the files that the paths and metadata describe, one for one.
pub open spec fn same_files(files: Seq<File>, described: Seq<(Seq<char>, Metadata)>) -> bool {
    &&& files.len() == described.len()
    &&& forall|i: int|
        0 <= i < files.len() ==> File::is_new(
            #[trigger] files[i],
            described[i].0,
            described[i].1,
        )
}

/// Whether an entry stops the walk: it is no directory and does not lie
/// under `root`.
pub open spec fn lies_outside(root: Seq<char>, entry: Found) -> bool {
    !entry.is_dir && path_stripped(entry.path@, root) is None
}

/// The place of the first of the first `n` entries that stops the walk.
pub open spec fn first_outside(root: Seq<char>, found: Seq<Found>, n: nat) -> Option<int>
    decreases n,
{
    if n == 0 {
        None
    } else {
        match first_outside(root, found, (n - 1) as nat) {
            Some(k) => Some(k),
            None => if lies_outside(root, found[n - 1]) {
                Some(n - 1)
            } else {
                None
            },
        }
    }
}

/// Makes the files of a walk from its entries, in their order; see
/// [`collected`]. Fails at the first entry that is no directory and does
/// not lie under `root`, and names the path of that entry.
pub fn collect_files(root: &str, found: &Vec<Found>) -> (r: Result<Vec<File>, CollectError>)
    ensures
        match collected(root@, found@, found@.len()) {
            Some(files) => r matches Ok(out) && same_files(out@, files),
            None => r matches Err(CollectError::NotUnderRoot { path }) && (first_outside(
                root@,
                found@,
                found@.len(),
            ) matches Some(k) && path@ == found@[k].path@),
        },
{
    let mut files: Vec<File> = Vec::new();
    let n: usize = found.len();
    let mut i: usize = 0;
    while i < n
        invariant
            n == found@.len(),
            i <= n,
            collected(root@, found@, i as nat) matches Some(sofar) && same_files(files@, sofar),
            first_outside(root@, found@, i as nat) is None,
        decreases n - i,
    {
        let entry = &found[i];
        if !entry.is_dir {
            let rel = match strip_prefix(entry.path.as_str(), root) {
                Some(r) => r,
                None => {
                    proof {
                        lemma_collected_stays_none(root@, found@, (i + 1) as nat, n as nat);
                        lemma_first_outside_stays(root@, found@, (i + 1) as nat, n as nat);
                    }
                    return Err(CollectError::NotUnderRoot { path: entry.path.clone() });
                },
            };
            if let Some(metadata) = &entry.metadata {
                if entry.still_there {
                    if let Ok(file) = File::new(rel, metadata) {
                        files.push(file);
                    }
                }
            }
        }
        i += 1;
    }
    Ok(files)
}

/// Once an entry outside the root was met, nothing is collected.
pub proof fn lemma_collected_stays_none(root: Seq<char>, found: Seq<Found>, k: nat, n: nat)
    requires
        k <= n,
        collected(root, found, k) is None,
    ensures
        collected(root, found, n) is None,
    decreases n,
{
    if n > k {
        lemma_collected_stays_none(root, found, k, (n - 1) as nat);
    }
}

/// The first entry that stops the walk stays the first.
pub proof fn lemma_first_outside_stays(root: Seq<char>, found: Seq<Found>, k: nat, n: nat)
    requires
        k <= n,
        first_outside(root, found, k) is Some,
    ensures
        first_outside(root, found, n) == first_outside(root, found, k),
    decreases n,
{
    if n > k {
        lemma_first_outside_stays(root, found, k, (n - 1) as nat);
    }
}

} // verus!
