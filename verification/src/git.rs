//! The git collaborator: is a file unchanged against a known-good ref?
//!
//! Asking git is left to the caller. What it found is judged here.

use vstd::prelude::*;

verus! {

/// Whether two byte strings are the same.
pub fn same_bytes(a: &[u8], b: &[u8]) -> (same: bool)
    ensures
        same == (a@ == b@),
{
    if a.len() != b.len() {
        return false;
    }
    let n: usize = a.len();
    let mut i: usize = 0;
    while i < n
        invariant
            n == a@.len(),
            n == b@.len(),
            i <= n,
            forall|j: int| 0 <= j < i ==> a@[j] == b@[j],
        decreases n - i,
    {
        if a[i] != b[i] {
            return false;
        }
        i += 1;
    }
    assert(a@ =~= b@);
    true
}

/// Whether a blob that git produced for a ref, if it produced one, is the
/// content of the working tree.
pub open spec fn blob_matches(current: Seq<u8>, blob: Option<Vec<u8>>) -> bool {
    match blob {
        Some(b) => b@ == current,
        None => false,
    }
}

/// Whether some blob is the content of the working tree.
pub open spec fn some_blob_matches(current: Seq<u8>, blobs: Seq<Option<Vec<u8>>>) -> bool {
    exists|i: int| 0 <= i < blobs.len() && blob_matches(current, #[trigger] blobs[i])
}

/// Whether a file differs from every known-good ref.
///
/// `current` is the content in the working tree, `None` where the file is
/// not there; `blobs` holds for each ref in turn the blob that git gave for
/// the file at that ref, `None` where git gave none. A file that is not
/// there has changed. A file that is there has changed unless some blob is
/// byte for byte its content.
pub fn file_changed_from_refs(current: Option<&[u8]>, blobs: &Vec<Option<Vec<u8>>>) -> (changed:
    bool)
    ensures
        changed == match current {
            None => true,
            Some(c) => !some_blob_matches(c@, blobs@),
        },
{
    let current_content = match current {
        None => {
            return true;
        },
        Some(c) => c,
    };
    let n: usize = blobs.len();
    let mut i: usize = 0;
    while i < n
        invariant
            n == blobs@.len(),
            i <= n,
            current == Some(current_content),
            forall|j: int| 0 <= j < i ==> !blob_matches(current_content@, #[trigger] blobs@[j]),
        decreases n - i,
    {
        match &blobs[i] {
            Some(branch_content) => {
                if same_bytes(branch_content.as_slice(), current_content) {
                    assert(blob_matches(current_content@, blobs@[i as int]));
                    return false;
                }
            },
            None => {},
        }
        i += 1;
    }
    true
}

/// What was found of a file in the working tree.
#[derive(Debug)]
pub enum Working {
    /// It is not there.
    Missing,
    /// It is there and could not be read.
    Unreadable,
    /// It is there, with this content.
    Content(Vec<u8>),
}

/// Whether a file differs from every known-good ref, by what was found of
/// it in the working tree. A file that is not there has changed. So has
/// one that could not be read: what is not known is no match. A file that
/// was read has changed unless some blob is byte for byte its content.
pub fn changed_from_refs(working: &Working, blobs: &Vec<Option<Vec<u8>>>) -> (changed: bool)
    ensures
        changed == match *working {
            Working::Missing => true,
            Working::Unreadable => true,
            Working::Content(c) => !some_blob_matches(c@, blobs@),
        },
{
    match working {
        Working::Missing => true,
        Working::Unreadable => true,
        Working::Content(c) => file_changed_from_refs(Some(c.as_slice()), blobs),
    }
}

} // verus!
