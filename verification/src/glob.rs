//! Glob patterns, matched by the `globset` crate.
//!
//! The library never looks inside a compiled pattern. It knows a set of globs
//! by the patterns it was compiled from, and a match by a name for what
//! `globset` answers.
//!
//! Every glob that the library compiles is compiled with the default
//! options of `globset`, and the names below read a glob or a set as one
//! compiled so. Of a set that was compiled elsewhere, with other options,
//! they say nothing that the library could use: it learns the patterns of a
//! set only from compiling it.

use vstd::prelude::*;

verus! {

/// One compiled pattern of `globset`.
#[verifier::external_type_specification]
#[verifier::external_body]
pub struct ExGlob(globset::Glob);

/// A compiled set of patterns of `globset`.
#[verifier::external_type_specification]
#[verifier::external_body]
pub struct ExGlobSet(globset::GlobSet);

/// The error with which `globset` refuses a pattern or a set.
#[verifier::external_type_specification]
#[verifier::external_body]
pub struct ExGlobError(globset::Error);

/// The pattern text that a compiled glob was made from.
pub uninterp spec fn glob_pattern(glob: globset::Glob) -> Seq<char>;

/// The pattern texts that a compiled set was made from, in the order given.
/// A set keeps no such list: the name stands for the patterns of the globs
/// that were handed to `globset::GlobSet::new`, each a glob with the
/// default options.
pub uninterp spec fn glob_set_patterns(set: globset::GlobSet) -> Seq<Seq<char>>;

/// Whether at least one of `patterns`, each compiled with the default
/// options, matches `path`: the answer of `globset::GlobSet::is_match`.
pub uninterp spec fn patterns_match(patterns: Seq<Seq<char>>, path: Seq<char>) -> bool;

/// Whether `globset::Glob::new` compiles the pattern, with the default
/// options.
pub uninterp spec fn glob_compiles(pattern: Seq<char>) -> bool;

/// Whether `globset::GlobSet::new` compiles the globs of these patterns,
/// each of them compiled with the default options, into one set.
pub uninterp spec fn glob_set_compiles(patterns: Seq<Seq<char>>) -> bool;

/// The place of the first of the first `n` patterns that does not compile.
pub open spec fn refused_at(patterns: Seq<Seq<char>>, n: nat) -> Option<int>
    decreases n,
{
    if n == 0 {
        None
    } else {
        match refused_at(patterns, (n - 1) as nat) {
            Some(i) => Some(i),
            None => if glob_compiles(patterns[n - 1]) {
                None
            } else {
                Some(n - 1)
            },
        }
    }
}

/// Whether the patterns compile into a set: each of them compiles, and so
/// do all together. No pattern at all compiles into the empty set.
pub open spec fn all_compile(patterns: Seq<Seq<char>>) -> bool {
    refused_at(patterns, patterns.len()) is None && (patterns.len() == 0 || glob_set_compiles(
        patterns,
    ))
}

/// Where no pattern is refused, every pattern compiles; where one is, it is
/// the first that does not.
pub proof fn lemma_refused_at(patterns: Seq<Seq<char>>, n: nat)
    requires
        n <= patterns.len(),
    ensures
        match refused_at(patterns, n) {
            Some(i) => 0 <= i < n && !glob_compiles(patterns[i]) && forall|j: int|
                0 <= j < i ==> glob_compiles(#[trigger] patterns[j]),
            None => forall|j: int| 0 <= j < n ==> glob_compiles(#[trigger] patterns[j]),
        },
    decreases n,
{
    if n > 0 {
        lemma_refused_at(patterns, (n - 1) as nat);
    }
}

/// Once a pattern is refused, it stays the first that is.
pub proof fn lemma_refused_stays(patterns: Seq<Seq<char>>, k: nat, n: nat)
    requires
        k <= n,
        refused_at(patterns, k) is Some,
    ensures
        refused_at(patterns, n) == refused_at(patterns, k),
    decreases n,
{
    if n > k {
        lemma_refused_stays(patterns, k, (n - 1) as nat);
    }
}

/// Calls `globset::Glob::new`.
///
/// Trusted: whether a glob comes back depends on the pattern alone, and is
/// what [`glob_compiles`] names; a glob that comes back was compiled from
/// the pattern handed in.
#[verifier::external_body]
pub(crate) fn glob_new(pattern: &str) -> (r: Result<globset::Glob, globset::Error>)
    ensures
        r is Ok <==> glob_compiles(pattern@),
        r matches Ok(g) ==> glob_pattern(g) == pattern@,
{
    globset::Glob::new(pattern)
}

/// Calls `globset::GlobSet::new` on the globs in order.
///
/// Trusted: whether a set comes back depends on the patterns of the globs
/// alone, and is what [`glob_set_compiles`] names; for no glob at all a set
/// comes back, the empty one; a set that comes back holds the patterns of
/// the globs handed in, in their order.
#[verifier::external_body]
pub(crate) fn glob_set_new(globs: &Vec<globset::Glob>) -> (r: Result<
    globset::GlobSet,
    globset::Error,
>)
    ensures
        r is Ok <==> globs@.len() == 0 || glob_set_compiles(
            Seq::new(globs@.len(), |i: int| glob_pattern(globs@[i])),
        ),
        r matches Ok(s) ==> glob_set_patterns(s) == Seq::new(
            globs@.len(),
            |i: int| glob_pattern(globs@[i]),
        ),
{
    globset::GlobSet::new(globs.iter())
}

/// Calls `globset::GlobSet::is_match` with `path` as a path.
///
/// Trusted: the answer depends on the set's patterns and on the path alone,
/// and is the one that [`patterns_match`] names.
#[verifier::external_body]
pub(crate) fn glob_set_is_match(set: &globset::GlobSet, path: &str) -> (m: bool)
    ensures
        m == patterns_match(glob_set_patterns(*set), path@),
{
    set.is_match(path)
}

} // verus!
