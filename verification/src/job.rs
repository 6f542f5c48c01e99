//! The job builder: from the commands that were planned to the batches that
//! are run.
//!
//! A tool of batch granularity keeps its files in one invocation. The files
//! of any other tool are spread over the cores: one file per batch while
//! there are fewer files than cores, else largest first, each into the batch
//! that is smallest so far.

use vstd::prelude::*;
use std::sync::Arc;
use crate::cmd::{
    all_files, lemma_max_size_bounds, lemma_total_size_permutation, max_size, total_size,
    Command,
};
use crate::config::Granularity;
use crate::file::File;
use crate::order::{
    is_in_path_order, is_largest_first, lemma_largest_first_unique, lemma_path_order_unique,
    sort_by_path, sort_by_size_desc, sorted_by_path,
};
use crate::tool::Tool;

verus! {

/// `out` runs the tool of `cmd` once per file of `cmd`, in the files' order.
pub open spec fn one_per_file(cmd: Command, out: Seq<Command>) -> bool {
    &&& out.len() == cmd.files@.len()
    &&& forall|i: int|
        0 <= i < out.len() ==> (#[trigger] out[i]).tool == cmd.tool && out[i].files@
            == seq![cmd.files@[i]]
}

/// The first of the first `n` bins with the least total size.
pub open spec fn smallest(bins: Seq<Seq<File>>, n: nat) -> int
    decreases n,
{
    if n <= 1 {
        0
    } else {
        let k = smallest(bins, (n - 1) as nat);
        if total_size(bins[n - 1]) < total_size(bins[k]) {
            n - 1
        } else {
            k
        }
    }
}

/// The bins after the first `n` files were packed into `cores` bins: each
/// file in turn into the bin that is smallest so far, the first of them
/// where several are.
pub open spec fn packed(files: Seq<File>, cores: nat, n: nat) -> Seq<Seq<File>>
    decreases n,
{
    if n == 0 {
        Seq::new(cores, |i: int| Seq::<File>::empty())
    } else {
        let bins = packed(files, cores, (n - 1) as nat);
        let k = smallest(bins, cores);
        bins.update(k, bins[k].push(files[n - 1]))
    }
}

/// Those of the first `n` bins that hold a file.
pub open spec fn filled(bins: Seq<Seq<File>>, n: nat) -> Seq<Seq<File>>
    decreases n,
{
    if n == 0 {
        Seq::empty()
    } else {
        let before = filled(bins, (n - 1) as nat);
        if bins[n - 1].len() > 0 {
            before.push(bins[n - 1])
        } else {
            before
        }
    }
}

/// `out` runs `tool` on the files of the bins, bin for bin, each batch in
/// the order of its paths.
pub open spec fn batches_of(out: Seq<Command>, tool: Arc<Tool>, bins: Seq<Seq<File>>) -> bool {
    &&& out.len() == bins.len()
    &&& forall|i: int|
        0 <= i < out.len() ==> (#[trigger] out[i]).tool == tool && is_in_path_order(
            out[i].files@,
            bins[i],
        )
}

/// `out` is what greedy packing makes of the files of `cmd`: the files are
/// taken largest first, files of one size in their order, and packed into
/// `cores` bins, and each bin that holds a file becomes a batch.
pub open spec fn is_greedy_split(cmd: Command, cores: nat, out: Seq<Command>) -> bool {
    exists|largest_first: Seq<File>|
        is_largest_first(largest_first, cmd.files@) && #[trigger] batches_of(
            out,
            cmd.tool,
            filled(packed(largest_first, cores, largest_first.len()), cores),
        )
}

/// `out` spreads the files of `cmd` over at most `cores` batches of its
/// tool by greedy packing. Every file is then in exactly one batch, no batch
/// is empty, each batch is in the order of its paths, and no batch
/// outweighs another by more than the largest file. Where fewer than `cores`
/// batches came out, none weighs more than the largest file.
pub open spec fn is_balanced_split(cmd: Command, cores: nat, out: Seq<Command>) -> bool {
    &&& is_greedy_split(cmd, cores, out)
    &&& 0 < out.len() <= cores
    &&& forall|i: int|
        0 <= i < out.len() ==> (#[trigger] out[i]).tool == cmd.tool && out[i].files@.len() > 0
            && sorted_by_path(out[i].files@)
    &&& all_files(out).to_multiset() == cmd.files@.to_multiset()
    &&& forall|i: int, j: int|
        0 <= i < out.len() && 0 <= j < out.len() ==> total_size((#[trigger] out[i]).files@)
            <= total_size((#[trigger] out[j]).files@) + max_size(cmd.files@)
    &&& out.len() < cores ==> forall|i: int|
        0 <= i < out.len() ==> total_size((#[trigger] out[i]).files@) <= max_size(cmd.files@)
}

/// What splitting `cmd` into single files gives: nothing for no file, the
/// command itself for one file or a tool of batch granularity, else one
/// command per file.
pub open spec fn is_unbatched(cmd: Command, out: Seq<Command>) -> bool {
    if cmd.files@.len() == 0 {
        out.len() == 0
    } else if cmd.files@.len() == 1 || cmd.tool.granularity == Granularity::Batch {
        out == seq![cmd]
    } else {
        one_per_file(cmd, out)
    }
}

/// What batching `cmd` for `cores` cores gives.
pub open spec fn is_batched(cmd: Command, cores: nat, out: Seq<Command>) -> bool {
    if cmd.files@.len() == 0 {
        out.len() == 0
    } else if cmd.files@.len() == 1 || cmd.tool.granularity == Granularity::Batch || cores == 1 {
        out == seq![cmd]
    } else if cmd.files@.len() < cores {
        one_per_file(cmd, out)
    } else {
        is_balanced_split(cmd, cores, out)
    }
}

/// The parts put one after the other.
pub open spec fn concat(parts: Seq<Seq<Command>>) -> Seq<Command>
    decreases parts.len(),
{
    if parts.len() == 0 {
        Seq::empty()
    } else {
        concat(parts.drop_last()) + parts.last()
    }
}

/// `parts` holds, for each command in turn, what the job builder makes of it.
pub open spec fn are_jobs_of(
    commands: Seq<Command>,
    cores: nat,
    no_batch: bool,
    parts: Seq<Seq<Command>>,
) -> bool {
    &&& parts.len() == commands.len()
    &&& forall|i: int|
        0 <= i < commands.len() ==> if no_batch {
            is_unbatched(commands[i], #[trigger] parts[i])
        } else {
            is_batched(commands[i], cores, #[trigger] parts[i])
        }
}

/// The batches to run for the planned commands: those of the first command,
/// then those of the second, and so on.
pub fn create_jobs(commands: Vec<Command>, cores: usize, no_batch: bool) -> (batches: Vec<Command>)
    requires
        cores > 0,
    ensures
        exists|parts: Seq<Seq<Command>>|
            are_jobs_of(commands@, cores as nat, no_batch, parts) && batches@ == concat(parts),
{
    let mut batches: Vec<Command> = Vec::new();
    let ghost mut parts: Seq<Seq<Command>> = Seq::empty();
    let ghost all = commands@;
    for cmd in it: commands
        invariant
            cores > 0,
            it.seq() == all,
            parts.len() == it.index(),
            batches@ == concat(parts),
            forall|i: int|
                0 <= i < parts.len() ==> if no_batch {
                    is_unbatched(all[i], #[trigger] parts[i])
                } else {
                    is_batched(all[i], cores as nat, #[trigger] parts[i])
                },
    {
        let mut part = if no_batch {
            unbatch(cmd)
        } else {
            batch(cmd, cores)
        };
        proof {
            let next = parts.push(part@);
            assert(next.drop_last() =~= parts);
            parts = next;
        }
        batches.append(&mut part);
    }
    assert(are_jobs_of(all, cores as nat, no_batch, parts));
    batches
}

/// One command per file, in the files' order.
fn singles(tool: Arc<Tool>, files: Vec<File>) -> (out: Vec<Command>)
    ensures
        out@.len() == files@.len(),
        forall|i: int|
            0 <= i < out@.len() ==> (#[trigger] out@[i]).tool == tool && out@[i].files@
                == seq![files@[i]],
{
    let mut out: Vec<Command> = Vec::new();
    let ghost all = files@;
    for file in it: files
        invariant
            it.seq() == all,
            out@.len() == it.index(),
            forall|i: int|
                0 <= i < out@.len() ==> (#[trigger] out@[i]).tool == tool && out@[i].files@
                    == seq![all[i]],
    {
        let mut one: Vec<File> = Vec::new();
        one.push(file);
        out.push(Command { tool: Arc::clone(&tool), files: one });
    }
    out
}

/// Splits a command into one command per file, unless its tool is of batch
/// granularity.
pub fn unbatch(cmd: Command) -> (out: Vec<Command>)
    ensures
        is_unbatched(cmd, out@),
{
    if cmd.files.len() == 0 {
        return Vec::new();
    }
    if cmd.files.len() == 1 || cmd.tool.granularity == Granularity::Batch {
        let mut out: Vec<Command> = Vec::new();
        out.push(cmd);
        assert(out@ =~= seq![cmd]);
        return out;
    }
    let Command { tool, files } = cmd;
    singles(tool, files)
}

/// The files of some bins, one bin after the other.
pub open spec fn bin_files(bins: Seq<(Vec<File>, u128)>) -> Seq<File>
    decreases bins.len(),
{
    if bins.len() == 0 {
        Seq::empty()
    } else {
        bin_files(bins.drop_last()) + bins.last().0@
    }
}

/// Putting a file into one bin adds it to the files of all bins.
proof fn lemma_bin_push(
    bins: Seq<(Vec<File>, u128)>,
    after: Seq<(Vec<File>, u128)>,
    k: int,
    f: File,
)
    requires
        0 <= k < bins.len(),
        after.len() == bins.len(),
        after[k].0@ == bins[k].0@.push(f),
        forall|j: int| 0 <= j < bins.len() && j != k ==> after[j] == bins[j],
    ensures
        bin_files(after).to_multiset() == bin_files(bins).to_multiset().insert(f),
    decreases bins.len(),
{
    broadcast use vstd::seq_lib::group_to_multiset_ensures;

    let n = bins.len() as int;
    let a = bin_files(bins.drop_last());
    let b = bins.last().0@;
    vstd::seq_lib::lemma_multiset_commutative(a, b);
    if k == n - 1 {
        assert(after.drop_last() =~= bins.drop_last());
        assert(bin_files(after) =~= (a + b).push(f));
        vstd::seq_lib::to_multiset_build(a + b, f);
    } else {
        lemma_bin_push(bins.drop_last(), after.drop_last(), k, f);
        let a2 = bin_files(after.drop_last());
        vstd::seq_lib::lemma_multiset_commutative(a2, b);
        assert(after.last() == bins.last());
        assert(a2.to_multiset().add(b.to_multiset()) =~= a.to_multiset().add(
            b.to_multiset(),
        ).insert(f));
    }
}

/// Bins that are all empty hold no file.
proof fn lemma_empty_bins(bins: Seq<(Vec<File>, u128)>)
    requires
        forall|j: int| 0 <= j < bins.len() ==> (#[trigger] bins[j]).0@.len() == 0,
    ensures
        bin_files(bins) == Seq::<File>::empty(),
    decreases bins.len(),
{
    if bins.len() > 0 {
        lemma_empty_bins(bins.drop_last());
        assert(bin_files(bins) =~= Seq::<File>::empty());
    }
}

/// `cores` empty bins.
fn empty_bins(cores: usize) -> (jobs: Vec<(Vec<File>, u128)>)
    ensures
        jobs@.len() == cores,
        forall|j: int| 0 <= j < cores ==> (#[trigger] jobs@[j]).0@.len() == 0 && jobs@[j].1 == 0,
{
    let mut jobs: Vec<(Vec<File>, u128)> = Vec::new();
    let mut i: usize = 0;
    while i < cores
        invariant
            i <= cores,
            jobs@.len() == i,
            forall|j: int| 0 <= j < i ==> (#[trigger] jobs@[j]).0@.len() == 0 && jobs@[j].1 == 0,
        decreases cores - i,
    {
        jobs.push((Vec::new(), 0));
        i += 1;
    }
    jobs
}

/// The files of each bin.
pub open spec fn bins_of(jobs: Seq<(Vec<File>, u128)>) -> Seq<Seq<File>> {
    Seq::new(jobs.len(), |i: int| jobs[i].0@)
}

/// The first of the bins with the least total.
fn smallest_bin(jobs: &Vec<(Vec<File>, u128)>) -> (k: usize)
    requires
        jobs@.len() > 0,
        forall|a: int| 0 <= a < jobs@.len() ==> (#[trigger] jobs@[a]).1 == total_size(jobs@[a].0@),
    ensures
        k < jobs@.len(),
        k == smallest(bins_of(jobs@), jobs@.len()),
        forall|j: int| 0 <= j < jobs@.len() ==> jobs@[k as int].1 <= (#[trigger] jobs@[j]).1,
        forall|j: int| 0 <= j < k ==> jobs@[k as int].1 < (#[trigger] jobs@[j]).1,
{
    let mut k: usize = 0;
    let mut j: usize = 1;
    while j < jobs.len()
        invariant
            k < j <= jobs@.len(),
            forall|a: int|
                0 <= a < jobs@.len() ==> (#[trigger] jobs@[a]).1 == total_size(jobs@[a].0@),
            k == smallest(bins_of(jobs@), j as nat),
            forall|t: int| 0 <= t < j ==> jobs@[k as int].1 <= (#[trigger] jobs@[t]).1,
            forall|t: int| 0 <= t < k ==> jobs@[k as int].1 < (#[trigger] jobs@[t]).1,
        decreases jobs@.len() - j,
    {
        assert(jobs@[j as int].1 == total_size(bins_of(jobs@)[j as int]));
        assert(jobs@[k as int].1 == total_size(bins_of(jobs@)[k as int]));
        if jobs[j].1 < jobs[k].1 {
            k = j;
        }
        j += 1;
    }
    k
}

/// Largest first, each file into the bin that is smallest so far.
fn distribute(files: Vec<File>, cores: usize, Ghost(bound): Ghost<nat>) -> (jobs: Vec<
    (Vec<File>, u128),
>)
    requires
        cores > 0,
        forall|i: int| 0 <= i < files@.len() ==> (#[trigger] files@[i]).size <= bound,
    ensures
        jobs@.len() == cores,
        bins_of(jobs@) == packed(files@, cores as nat, files@.len()),
        bin_files(jobs@).to_multiset() == files@.to_multiset(),
        forall|a: int| 0 <= a < cores ==> (#[trigger] jobs@[a]).1 == total_size(jobs@[a].0@),
        forall|a: int, b: int|
            0 <= a < cores && 0 <= b < cores ==> (#[trigger] jobs@[a]).1 <= (
            #[trigger] jobs@[b]).1 + bound,
{
    let mut jobs = empty_bins(cores);
    let ghost all = files@;
    let count: usize = files.len();
    proof {
        lemma_empty_bins(jobs@);
        assert(all.subrange(0, 0) =~= Seq::<File>::empty());
        assert forall|a: int| 0 <= a < cores implies bins_of(jobs@)[a] == Seq::<File>::empty() by {
            assert(jobs@[a].0@ =~= Seq::<File>::empty());
        }
        assert(bins_of(jobs@) =~= packed(all, cores as nat, 0));
    }
    for file in it: files
        invariant
            cores > 0,
            it.seq() == all,
            all.len() == count,
            forall|i: int| 0 <= i < all.len() ==> (#[trigger] all[i]).size <= bound,
            jobs@.len() == cores,
            bins_of(jobs@) == packed(all, cores as nat, it.index() as nat),
            bin_files(jobs@).to_multiset() == all.subrange(0, it.index() as int).to_multiset(),
            forall|a: int|
                0 <= a < cores ==> (#[trigger] jobs@[a]).1 == total_size(jobs@[a].0@)
                    && jobs@[a].1 <= it.index() * usize::MAX,
            forall|a: int, b: int|
                0 <= a < cores && 0 <= b < cores ==> (#[trigger] jobs@[a]).1 <= (
                #[trigger] jobs@[b]).1 + bound,
    {
        let ghost idx = it.index() as int;
        let ghost before = jobs@;
        let k = smallest_bin(&jobs);
        assert(idx * usize::MAX + usize::MAX <= usize::MAX * usize::MAX) by (nonlinear_arith)
            requires
                0 <= idx < usize::MAX,
        ;
        assert(usize::MAX * usize::MAX < u128::MAX) by (nonlinear_arith)
            requires
                usize::MAX <= 0xffff_ffff_ffff_ffff,
        ;
        assert((idx + 1) * usize::MAX == idx * usize::MAX + usize::MAX) by (nonlinear_arith);
        jobs[k].1 += file.size as u128;
        jobs[k].0.push(file);
        proof {
            assert(all[idx] == file);
            assert(bins_of(jobs@) =~= bins_of(before).update(
                k as int,
                bins_of(before)[k as int].push(file),
            ));
            lemma_bin_push(before, jobs@, k as int, file);
            let next = all.subrange(0, idx + 1);
            assert(next =~= all.subrange(0, idx).push(file));
            vstd::seq_lib::to_multiset_build(all.subrange(0, idx), file);
            assert(jobs@[k as int].0@.drop_last() =~= before[k as int].0@);
            assert forall|a: int| 0 <= a < cores implies (#[trigger] jobs@[a]).1 == total_size(
                jobs@[a].0@,
            ) && jobs@[a].1 <= (idx + 1) * usize::MAX by {
                if a != k {
                    assert(jobs@[a] == before[a]);
                }
            }
            assert forall|a: int, b: int| 0 <= a < cores && 0 <= b < cores implies (
            #[trigger] jobs@[a]).1 <= (#[trigger] jobs@[b]).1 + bound by {
                if a != k {
                    assert(jobs@[a] == before[a]);
                }
                if b != k {
                    assert(jobs@[b] == before[b]);
                }
                assert(before[k as int].1 <= before[b].1);
                assert(before[a].1 <= before[b].1 + bound);
            }
        }
    }
    assert(all.subrange(0, all.len() as int) =~= all);
    jobs
}

/// Adding a command to a list adds its files to the list's files.
proof fn lemma_all_files_push(cmds: Seq<Command>, c: Command)
    ensures
        all_files(cmds.push(c)) == all_files(cmds) + c.files@,
{
    assert(cmds.push(c).drop_last() =~= cmds);
}

/// Spreads the files of a command over the cores.
pub fn batch(cmd: Command, cores: usize) -> (out: Vec<Command>)
    requires
        cores > 0,
    ensures
        is_batched(cmd, cores as nat, out@),
{
    if cmd.files.len() == 0 {
        return Vec::new();
    }
    if cmd.files.len() == 1 || cmd.tool.granularity == Granularity::Batch || cores == 1 {
        let mut out: Vec<Command> = Vec::new();
        out.push(cmd);
        assert(out@ =~= seq![cmd]);
        return out;
    }
    let Command { tool, files } = cmd;
    if files.len() < cores {
        return singles(tool, files);
    }
    let ghost given = files@;
    let ghost bound = max_size(given);
    let mut files = files;
    sort_by_size_desc(&mut files);
    proof {
        broadcast use vstd::seq_lib::group_to_multiset_ensures;

        assert forall|i: int| 0 <= i < files@.len() implies (#[trigger] files@[i]).size
            <= bound by {
            assert(files@.contains(files@[i]));
            vstd::seq_lib::to_multiset_contains(files@, files@[i]);
            vstd::seq_lib::to_multiset_contains(given, files@[i]);
            let j = choose|j: int| 0 <= j < given.len() && given[j] == files@[i];
            lemma_max_size_bounds(given, j);
        }
        vstd::seq_lib::to_multiset_len(files@);
        vstd::seq_lib::to_multiset_len(given);
    }
    let ghost largest_first = files@;
    let jobs = distribute(files, cores, Ghost(bound));
    let ghost bins = jobs@;
    let mut out: Vec<Command> = Vec::new();
    let ghost mut has_empty = false;
    proof {
        assert(bins.subrange(0, 0) =~= Seq::<(Vec<File>, u128)>::empty());
    }
    for bin in it: jobs
        invariant
            it.seq() == bins,
            bins.len() == cores,
            batches_of(out@, tool, filled(bins_of(bins), it.index() as nat)),
            forall|a: int| 0 <= a < cores ==> (#[trigger] bins[a]).1 == total_size(bins[a].0@),
            forall|a: int, b: int|
                0 <= a < cores && 0 <= b < cores ==> (#[trigger] bins[a]).1 <= (
                #[trigger] bins[b]).1 + bound,
            out@.len() <= it.index(),
            out@.len() < it.index() ==> has_empty,
            has_empty ==> exists|e: int| 0 <= e < cores && (#[trigger] bins[e]).1 == 0,
            all_files(out@).to_multiset() == bin_files(
                bins.subrange(0, it.index() as int),
            ).to_multiset(),
            forall|i: int|
                0 <= i < out@.len() ==> (#[trigger] out@[i]).tool == tool && out@[i].files@.len()
                    > 0 && sorted_by_path(out@[i].files@),
            forall|i: int|
                0 <= i < out@.len() ==> exists|a: int|
                    0 <= a < cores && total_size((#[trigger] out@[i]).files@) == bins[a].1,
    {
        let ghost idx = it.index() as int;
        let ghost done = bins.subrange(0, idx);
        let ghost next = bins.subrange(0, idx + 1);
        let (mut batch_files, _total) = bin;
        proof {
            assert(next.drop_last() =~= done);
            assert(next.last() == bins[idx]);
            vstd::seq_lib::lemma_multiset_commutative(bin_files(done), bins[idx].0@);
        }
        if batch_files.len() == 0 {
            proof {
                has_empty = true;
                assert(bins[idx].1 == 0);
                assert(bin_files(next) =~= bin_files(done));
            }
        } else {
            sort_by_path(&mut batch_files);
            let c = Command { tool: Arc::clone(&tool), files: batch_files };
            proof {
                vstd::seq_lib::to_multiset_len(c.files@);
                vstd::seq_lib::to_multiset_len(bins[idx].0@);
                lemma_total_size_permutation(c.files@, bins[idx].0@);
                lemma_all_files_push(out@, c);
                vstd::seq_lib::lemma_multiset_commutative(all_files(out@), c.files@);
            }
            let ghost prev = out@;
            out.push(c);
            proof {
                let now = filled(bins_of(bins), (idx + 1) as nat);
                assert(now =~= filled(bins_of(bins), idx as nat).push(bins[idx].0@));
                assert forall|i: int| 0 <= i < out@.len() implies (#[trigger] out@[i]).tool == tool
                    && sorted_by_path(out@[i].files@) && out@[i].files@.to_multiset()
                    == now[i].to_multiset() by {
                    if i < prev.len() {
                        assert(out@[i] == prev[i]);
                    }
                }
                assert forall|i: int| 0 <= i < out@.len() implies exists|a: int|
                    0 <= a < cores && total_size((#[trigger] out@[i]).files@) == bins[a].1 by {
                    if i < prev.len() {
                        assert(out@[i] == prev[i]);
                        let a = choose|a: int|
                            0 <= a < cores && total_size(prev[i].files@) == bins[a].1;
                        assert(total_size(out@[i].files@) == bins[a].1);
                    } else {
                        assert(total_size(out@[i].files@) == bins[idx].1);
                    }
                }
            }
        }
    }
    proof {
        assert(bins.subrange(0, bins.len() as int) =~= bins);
        vstd::seq_lib::to_multiset_len(all_files(out@));
        vstd::seq_lib::to_multiset_len(given);
        if out@.len() == 0 {
            assert(all_files(out@) =~= Seq::<File>::empty());
        }
        assert forall|i: int, j: int|
            0 <= i < out@.len() && 0 <= j < out@.len() implies total_size(
            (#[trigger] out@[i]).files@,
        ) <= total_size((#[trigger] out@[j]).files@) + bound by {
            let a = choose|a: int| 0 <= a < cores && total_size(out@[i].files@) == bins[a].1;
            let b = choose|b: int| 0 <= b < cores && total_size(out@[j].files@) == bins[b].1;
            assert(bins[a].1 <= bins[b].1 + bound);
        }
        assert(is_greedy_split(cmd, cores as nat, out@)) by {
            assert(batches_of(
                out@,
                cmd.tool,
                filled(packed(largest_first, cores as nat, largest_first.len()), cores as nat),
            ));
        }
        if out@.len() < cores {
            let e = choose|e: int| 0 <= e < cores && (#[trigger] bins[e]).1 == 0;
            assert forall|i: int| 0 <= i < out@.len() implies total_size(
                (#[trigger] out@[i]).files@,
            ) <= bound by {
                let a = choose|a: int| 0 <= a < cores && total_size(out@[i].files@) == bins[a].1;
                assert(bins[a].1 <= bins[e].1 + bound);
            }
        }
    }
    out
}

/// The files of two lists of commands put together.
pub proof fn lemma_all_files_add(a: Seq<Command>, b: Seq<Command>)
    ensures
        all_files(a + b) == all_files(a) + all_files(b),
    decreases b.len(),
{
    if b.len() == 0 {
        assert(a + b =~= a);
        assert(all_files(a) + all_files(b) =~= all_files(a));
    } else {
        lemma_all_files_add(a, b.drop_last());
        assert((a + b).drop_last() =~= a + b.drop_last());
        assert(all_files(a + b) =~= all_files(a) + all_files(b));
    }
}

/// One command per file holds the files of the command, in their order.
pub proof fn lemma_one_per_file_keeps_files(cmd: Command, out: Seq<Command>)
    requires
        one_per_file(cmd, out),
    ensures
        all_files(out) == cmd.files@,
{
    let files = cmd.files@;
    assert forall|n: int| 0 <= n <= out.len() implies all_files(out.subrange(0, n))
        == files.subrange(0, n) by {
        lemma_prefix_files(cmd, out, n);
    }
    assert(out.subrange(0, out.len() as int) =~= out);
    assert(files.subrange(0, files.len() as int) =~= files);
}

proof fn lemma_prefix_files(cmd: Command, out: Seq<Command>, n: int)
    requires
        one_per_file(cmd, out),
        0 <= n <= out.len(),
    ensures
        all_files(out.subrange(0, n)) == cmd.files@.subrange(0, n),
    decreases n,
{
    let p = out.subrange(0, n);
    if n == 0 {
        assert(all_files(p) =~= cmd.files@.subrange(0, n));
    } else {
        lemma_prefix_files(cmd, out, n - 1);
        assert(p.drop_last() =~= out.subrange(0, n - 1));
        assert(p.last() == out[n - 1]);
        assert(all_files(p) =~= cmd.files@.subrange(0, n));
    }
}

/// Whatever the job builder makes of a command, every file of the command is
/// in exactly one of the batches, and no other file is in any.
pub proof fn lemma_batches_keep_files(cmd: Command, cores: nat, out: Seq<Command>)
    requires
        is_batched(cmd, cores, out) || is_unbatched(cmd, out),
    ensures
        all_files(out).to_multiset() == cmd.files@.to_multiset(),
{
    if cmd.files@.len() == 0 {
        assert(all_files(out) =~= cmd.files@);
    } else if out == seq![cmd] {
        assert(out.len() == 1);
        assert(out.last() == cmd);
        assert(out.drop_last() =~= Seq::<Command>::empty());
        assert(all_files(out.drop_last()) =~= Seq::<File>::empty());
        assert(all_files(out) =~= cmd.files@);
    } else if one_per_file(cmd, out) {
        lemma_one_per_file_keeps_files(cmd, out);
    }
}

/// A tool of batch granularity gets all its files in a single batch: the
/// command as it was planned.
pub proof fn lemma_batch_granularity_stays_whole(cmd: Command, cores: nat, out: Seq<Command>)
    requires
        cmd.tool.granularity == Granularity::Batch,
        cmd.files@.len() > 0,
        is_batched(cmd, cores, out) || is_unbatched(cmd, out),
    ensures
        out == seq![cmd],
{
}

/// With fewer files than cores, a tool of individual granularity gets one
/// batch per file.
pub proof fn lemma_fewer_files_than_cores(cmd: Command, cores: nat, out: Seq<Command>)
    requires
        cmd.tool.granularity == Granularity::Individual,
        0 < cmd.files@.len() < cores,
        is_batched(cmd, cores, out),
    ensures
        one_per_file(cmd, out),
{
    if cmd.files@.len() == 1 {
        assert(out[0].files@ =~= seq![cmd.files@[0]]);
    }
}

/// The batches of all commands together hold the files of all commands,
/// each as often as it was planned.
pub proof fn lemma_jobs_keep_files(
    commands: Seq<Command>,
    cores: nat,
    no_batch: bool,
    parts: Seq<Seq<Command>>,
)
    requires
        are_jobs_of(commands, cores, no_batch, parts),
    ensures
        all_files(concat(parts)).to_multiset() == all_files(commands).to_multiset(),
    decreases commands.len(),
{
    if commands.len() > 0 {
        let ci = commands.drop_last();
        let pi = parts.drop_last();
        assert(are_jobs_of(ci, cores, no_batch, pi)) by {
            assert forall|i: int| 0 <= i < ci.len() implies if no_batch {
                is_unbatched(ci[i], #[trigger] pi[i])
            } else {
                is_batched(ci[i], cores, #[trigger] pi[i])
            } by {
                assert(pi[i] == parts[i]);
                assert(ci[i] == commands[i]);
            }
        }
        lemma_jobs_keep_files(ci, cores, no_batch, pi);
        let last = commands.len() - 1;
        assert(if no_batch {
            is_unbatched(commands[last], parts[last])
        } else {
            is_batched(commands[last], cores, parts[last])
        });
        lemma_batches_keep_files(commands.last(), cores, parts.last());
        lemma_all_files_add(concat(pi), parts.last());
        vstd::seq_lib::lemma_multiset_commutative(all_files(concat(pi)), all_files(parts.last()));
        vstd::seq_lib::lemma_multiset_commutative(all_files(ci), commands.last().files@);
    }
}

/// A file of a sequence that has the same files as another is a file of the
/// other.
pub proof fn lemma_same_files_contain(a: Seq<File>, b: Seq<File>, f: File)
    requires
        a.to_multiset() == b.to_multiset(),
        a.contains(f),
    ensures
        b.contains(f),
{
    vstd::seq_lib::to_multiset_contains(a, f);
    vstd::seq_lib::to_multiset_contains(b, f);
}

/// The files of one command are among the files of all.
pub proof fn lemma_all_files_contain(cmds: Seq<Command>, i: int, j: int)
    requires
        0 <= i < cmds.len(),
        0 <= j < cmds[i].files@.len(),
    ensures
        all_files(cmds).contains(cmds[i].files@[j]),
    decreases cmds.len(),
{
    let before = all_files(cmds.drop_last());
    if i == cmds.len() - 1 {
        assert(all_files(cmds)[before.len() + j] == cmds[i].files@[j]);
    } else {
        lemma_all_files_contain(cmds.drop_last(), i, j);
        let k = choose|k: int| 0 <= k < before.len() && before[k] == cmds[i].files@[j];
        assert(all_files(cmds)[k] == cmds[i].files@[j]);
    }
}

/// Every batch made of a command runs the tool of the command, on files of
/// the command.
pub proof fn lemma_batch_is_of_command(cmd: Command, cores: nat, out: Seq<Command>, i: int, j: int)
    requires
        is_batched(cmd, cores, out) || is_unbatched(cmd, out),
        0 <= i < out.len(),
        0 <= j < out[i].files@.len(),
    ensures
        out[i].tool == cmd.tool,
        cmd.files@.contains(out[i].files@[j]),
{
    lemma_batches_keep_files(cmd, cores, out);
    lemma_all_files_contain(out, i, j);
    lemma_same_files_contain(all_files(out), cmd.files@, out[i].files@[j]);
    if cmd.files@.len() == 0 {
    } else if out == seq![cmd] {
        assert(out[i] == cmd);
    } else if one_per_file(cmd, out) {
    } else {
    }
}

/// Every batch among the parts is a batch of one part.
pub proof fn lemma_concat_index(parts: Seq<Seq<Command>>, k: int) -> (at: (int, int))
    requires
        0 <= k < concat(parts).len(),
    ensures
        0 <= at.0 < parts.len(),
        0 <= at.1 < parts[at.0].len(),
        concat(parts)[k] == parts[at.0][at.1],
    decreases parts.len(),
{
    let before = concat(parts.drop_last());
    if k < before.len() {
        let at = lemma_concat_index(parts.drop_last(), k);
        at
    } else {
        (parts.len() - 1, k - before.len())
    }
}

/// Every batch that the job builder makes runs the tool of one of the
/// commands, on files of that command.
pub proof fn lemma_job_is_of_command(
    commands: Seq<Command>,
    cores: nat,
    no_batch: bool,
    parts: Seq<Seq<Command>>,
    k: int,
    j: int,
) -> (c: int)
    requires
        are_jobs_of(commands, cores, no_batch, parts),
        0 <= k < concat(parts).len(),
        0 <= j < concat(parts)[k].files@.len(),
    ensures
        0 <= c < commands.len(),
        concat(parts)[k].tool == commands[c].tool,
        commands[c].files@.contains(concat(parts)[k].files@[j]),
{
    let at = lemma_concat_index(parts, k);
    assert(if no_batch {
        is_unbatched(commands[at.0], parts[at.0])
    } else {
        is_batched(commands[at.0], cores, parts[at.0])
    });
    lemma_batch_is_of_command(commands[at.0], cores, parts[at.0], at.1, j);
    at.0
}

/// The batches of a tool of individual granularity with at least as many
/// files as cores, on two cores or more, are balanced: no batch outweighs
/// another by more than the largest file.
pub proof fn lemma_individual_batches_are_balanced(cmd: Command, cores: nat, out: Seq<Command>)
    requires
        cmd.tool.granularity == Granularity::Individual,
        cores >= 2,
        cmd.files@.len() >= cores,
        is_batched(cmd, cores, out),
    ensures
        forall|i: int, j: int|
            0 <= i < out.len() && 0 <= j < out.len() ==> total_size((#[trigger] out[i]).files@)
                <= total_size((#[trigger] out[j]).files@) + max_size(cmd.files@),
{
}

/// Two lists of batches run the same tools on the same files, batch for
/// batch.
pub open spec fn same_batches(a: Seq<Command>, b: Seq<Command>) -> bool {
    &&& a.len() == b.len()
    &&& forall|i: int|
        0 <= i < a.len() ==> (#[trigger] a[i]).tool == (#[trigger] b[i]).tool && a[i].files@
            == b[i].files@
}

/// Batching is determined: a command and a number of cores have one list
/// of batches only.
pub proof fn lemma_batches_are_determined(
    cmd: Command,
    cores: nat,
    first: Seq<Command>,
    second: Seq<Command>,
)
    requires
        is_batched(cmd, cores, first),
        is_batched(cmd, cores, second),
    ensures
        same_batches(first, second),
{
    if is_greedy_split(cmd, cores, first) && is_greedy_split(cmd, cores, second) {
        let a = choose|largest_first: Seq<File>|
            is_largest_first(largest_first, cmd.files@) && #[trigger] batches_of(
                first,
                cmd.tool,
                filled(packed(largest_first, cores, largest_first.len()), cores),
            );
        let b = choose|largest_first: Seq<File>|
            is_largest_first(largest_first, cmd.files@) && #[trigger] batches_of(
                second,
                cmd.tool,
                filled(packed(largest_first, cores, largest_first.len()), cores),
            );
        lemma_largest_first_unique(cmd.files@, a, b);
        let bins = filled(packed(a, cores, a.len()), cores);
        assert forall|i: int| 0 <= i < first.len() implies (#[trigger] first[i]).tool == (
        #[trigger] second[i]).tool && first[i].files@ == second[i].files@ by {
            lemma_path_order_unique(bins[i], first[i].files@, second[i].files@);
        }
    }
}

/// Splitting into single files is determined too.
pub proof fn lemma_unbatched_are_determined(cmd: Command, first: Seq<Command>, second: Seq<Command>)
    requires
        is_unbatched(cmd, first),
        is_unbatched(cmd, second),
    ensures
        same_batches(first, second),
{
}

} // verus!
