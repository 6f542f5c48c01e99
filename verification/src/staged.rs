//! The files that are staged in git.
//!
//! Asking git is left to the caller. Its answer is read here.

use vstd::prelude::*;
use vstd::string::StrSliceExecFns;
use crate::file::{File, FileError, Found};
use crate::text::{lines, text_lines, views};

verus! {

/// Those of the first `n` lines that are not empty.
pub open spec fn filled(lines: Seq<Seq<char>>, n: nat) -> Seq<Seq<char>>
    decreases n,
{
    if n == 0 {
        Seq::empty()
    } else {
        let before = filled(lines, (n - 1) as nat);
        if lines[n - 1].len() == 0 {
            before
        } else {
            before.push(lines[n - 1])
        }
    }
}

/// The paths that git listed: the lines of its output that are not empty.
pub fn get_staged_files(stdout: &str) -> (paths: Vec<String>)
    ensures
        views(paths@) == filled(text_lines(stdout@), text_lines(stdout@).len()),
{
    let all = lines(stdout);
    let mut paths: Vec<String> = Vec::new();
    let ghost ls = views(all@);
    let n: usize = all.len();
    let mut i: usize = 0;
    assert(views(paths@) =~= filled(ls, 0));
    for line in it: all
        invariant
            ls == views(it.seq()),
            views(paths@) == filled(ls, it.index() as nat),
    {
        let ghost before = views(paths@);
        assert(ls[it.index() as int] == line@);
        if line.as_str().unicode_len() > 0 {
            paths.push(line);
            assert(views(paths@) =~= before.push(line@));
        }
    }
    paths
}

/// What the first `n` staged entries give: of each that is there, its path
/// and its metadata; or the error of the first that is there and could not
/// be examined, or has no modification time.
pub open spec fn staged(found: Seq<Found>, n: nat) -> Result<
    Seq<(Seq<char>, crate::file::Metadata)>,
    FileError,
>
    decreases n,
{
    if n == 0 {
        Ok(Seq::empty())
    } else {
        match staged(found, (n - 1) as nat) {
            Err(e) => Err(e),
            Ok(before) => {
                let e = found[n - 1];
                if !e.still_there {
                    Ok(before)
                } else {
                    match e.metadata {
                        None => Err(FileError::NoMetadata),
                        Some(md) => if md.mtime_ns is Some {
                            Ok(before.push((e.path@, md)))
                        } else {
                            Err(FileError::NoMtime)
                        },
                    }
                }
            },
        }
    }
}

/// The staged files: for each entry that is there, the file at its path.
/// Fails at the first that is there and could not be examined, or has no
/// modification time.
pub fn collect_staged_files(found: &Vec<Found>) -> (r: Result<Vec<File>, FileError>)
    ensures
        match staged(found@, found@.len()) {
            Ok(files) => r matches Ok(out) && crate::file::same_files(out@, files),
            Err(e) => r == Err::<Vec<File>, FileError>(e),
        },
{
    let mut files: Vec<File> = Vec::new();
    let n: usize = found.len();
    let mut i: usize = 0;
    while i < n
        invariant
            n == found@.len(),
            i <= n,
            staged(found@, i as nat) matches Ok(sofar) && crate::file::same_files(files@, sofar),
        decreases n - i,
    {
        let entry = &found[i];
        if entry.still_there {
            let made = match &entry.metadata {
                Some(metadata) => File::new(entry.path.clone(), metadata),
                None => Err(FileError::NoMetadata),
            };
            match made {
                Ok(file) => {
                    files.push(file);
                },
                Err(e) => {
                    proof {
                        lemma_staged_stays_failed(found@, (i + 1) as nat, n as nat);
                    }
                    return Err(e);
                },
            }
        }
        i += 1;
    }
    Ok(files)
}

/// Once an entry could not be examined, its error stays.
pub proof fn lemma_staged_stays_failed(found: Seq<Found>, k: nat, n: nat)
    requires
        k <= n,
        staged(found, k) is Err,
    ensures
        staged(found, n) == staged(found, k),
    decreases n,
{
    if n > k {
        lemma_staged_stays_failed(found, k, (n - 1) as nat);
    }
}

} // verus!
