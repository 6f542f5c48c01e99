//! The planner: which files each tool still has to run on.
//!
//! For a file that a tool applies to, the cache is asked twice at most:
//! first for the key of the file's modification time, which costs nothing to
//! compute, then for the key of its content. A file that neither key knows
//! is still skipped where it is unchanged against a known-good git ref.
//! Every skip that was not decided by the modification time records what
//! will let the next run decide by it.
//!
//! The planner does not read files or run git. A file comes with its content
//! stamp where the content was read, and with the answer of git where git was
//! asked; [`content_wanted`] and [`refs_wanted`] say for which files that is
//! worth doing.

use vstd::prelude::*;
use std::sync::Arc;
use crate::cache::{content_key, key_hash, mtime_key, Cache, Key};
use crate::cmd::Command;
use crate::exec::{
    batch_hashes, earned, lemma_only_success_is_recorded, lemma_success_is_recorded, outcome_at,
    records_after, Outcome,
};
use crate::file::File;
use crate::glob::{glob_set_is_match, glob_set_patterns, patterns_match};
use crate::job::{are_jobs_of, concat, create_jobs, lemma_job_is_of_command};
use crate::tool::Tool;

verus! {

/// Whether `tool` applies to a path: its file patterns match and its ignore
/// patterns, if it has any, do not.
pub open spec fn tool_matches(tool: Tool, path: Seq<char>) -> bool {
    &&& patterns_match(glob_set_patterns(tool.files), path)
    &&& match tool.ignore {
        Some(ignore) => !patterns_match(glob_set_patterns(ignore), path),
        None => true,
    }
}

/// Whether `tool` applies to the file.
pub fn is_match(tool: &Arc<Tool>, f: &File) -> (m: bool)
    ensures
        m == tool_matches(**tool, f.path@),
{
    let path = f.path.as_str();
    if !glob_set_is_match(&tool.files, path) {
        return false;
    }
    match &tool.ignore {
        Some(ignore) => !glob_set_is_match(ignore, path),
        None => true,
    }
}

/// The records after `h` was recorded, in a cache that keeps or does not.
pub open spec fn record(m: Map<u128, u16>, keeps: bool, h: u128) -> Map<u128, u16> {
    if keeps {
        m.insert(h, 0)
    } else {
        m
    }
}

/// The decision on one file under one tool, and the records after it.
///
/// `changed` is the answer of git: whether the file differs from every
/// known-good ref.
pub open spec fn need_outcome(
    m: Map<u128, u16>,
    keeps: bool,
    changed: bool,
    mtime_enabled: bool,
    tool: Tool,
    file: File,
) -> (bool, Map<u128, u16>) {
    let mk = key_hash(mtime_key(file, tool));
    let ck = key_hash(content_key(file, tool));
    if mtime_enabled && m.contains_key(mk) {
        (false, m.insert(mk, 0))
    } else if file.content_stamp is None {
        (false, m)
    } else if m.contains_key(ck) {
        (
            false,
            if mtime_enabled {
                record(m.insert(ck, 0), keeps, mk)
            } else {
                m.insert(ck, 0)
            },
        )
    } else if changed {
        (true, m)
    } else {
        (
            false,
            if mtime_enabled {
                record(record(m, keeps, ck), keeps, mk)
            } else {
                record(m, keeps, ck)
            },
        )
    }
}

/// Whether `tool` still has to run on `file`, a file that it applies to.
///
/// A recorded modification-time key settles it, where modification times
/// are enabled. Else a file without content stamp, one that could not be
/// read, is left out. Else a recorded content key settles it, and the
/// modification-time key is recorded for the next run. Else the file is
/// needed if it `changed` against every known-good ref; if it did not, both
/// keys are recorded.
pub fn need_file<C: Cache>(
    cache: &mut C,
    changed: bool,
    mtime_enabled: bool,
    tool: &Arc<Tool>,
    file: &File,
) -> (needed: bool)
    ensures
        final(cache).keeps() == old(cache).keeps(),
        final(cache).capacity() == old(cache).capacity(),
        (needed, final(cache).records()) == need_outcome(
            old(cache).records(),
            old(cache).keeps(),
            changed,
            mtime_enabled,
            **tool,
            *file,
        ),
{
    let mtime_key = Key::from_mtime(file, tool);
    if mtime_enabled && !cache.needed(&mtime_key) {
        return false;
    }
    if file.content_stamp.is_none() {
        return false;
    }
    let content_key = Key::from_content(file, tool);
    if !cache.needed(&content_key) {
        if mtime_enabled {
            cache.done(&mtime_key);
        }
        false
    } else if changed {
        true
    } else {
        cache.done(&content_key);
        if mtime_enabled {
            cache.done(&mtime_key);
        }
        false
    }
}

/// The answer of git for the `i`-th file; a file for which none was given
/// counts as changed.
pub open spec fn changed_at(changed: Seq<bool>, i: int) -> bool {
    if 0 <= i < changed.len() {
        changed[i]
    } else {
        true
    }
}

/// The files that `tool` has to run on among the first `n`, in their order,
/// and the records after they were gone through.
pub open spec fn tool_plan(
    m: Map<u128, u16>,
    keeps: bool,
    tool: Tool,
    files: Seq<File>,
    changed: Seq<bool>,
    mtime_enabled: bool,
    n: nat,
) -> (Seq<File>, Map<u128, u16>)
    decreases n,
{
    if n == 0 {
        (Seq::empty(), m)
    } else {
        let i = (n - 1) as nat;
        let (selected, m1) = tool_plan(m, keeps, tool, files, changed, mtime_enabled, i);
        if tool_matches(tool, files[i as int].path@) {
            let (needed, m2) = need_outcome(
                m1,
                keeps,
                changed_at(changed, i as int),
                mtime_enabled,
                tool,
                files[i as int],
            );
            (
                if needed {
                    selected.push(files[i as int])
                } else {
                    selected
                },
                m2,
            )
        } else {
            (selected, m1)
        }
    }
}

/// The command for `tool`, if it has to run on any of the files: the files
/// that it applies to and that are needed, in their order.
pub fn tool_commands<C: Cache>(
    tool: &Arc<Tool>,
    files: &Vec<File>,
    changed: &Vec<bool>,
    cache: &mut C,
    mtime_enabled: bool,
) -> (command: Option<Command>)
    ensures
        final(cache).keeps() == old(cache).keeps(),
        final(cache).capacity() == old(cache).capacity(),
        ({
            let (selected, m) = tool_plan(
                old(cache).records(),
                old(cache).keeps(),
                **tool,
                files@,
                changed@,
                mtime_enabled,
                files@.len(),
            );
            &&& final(cache).records() == m
            &&& match command {
                Some(c) => selected.len() > 0 && c.tool == *tool && c.files@ == selected,
                None => selected.len() == 0,
            }
        }),
{
    let mut selected: Vec<File> = Vec::new();
    let n: usize = files.len();
    let ghost m0 = cache.records();
    let ghost keeps = cache.keeps();
    let mut i: usize = 0;
    while i < n
        invariant
            n == files@.len(),
            i <= n,
            cache.keeps() == keeps,
            cache.capacity() == old(cache).capacity(),
            (selected@, cache.records()) == tool_plan(
                m0,
                keeps,
                **tool,
                files@,
                changed@,
                mtime_enabled,
                i as nat,
            ),
        decreases n - i,
    {
        let f = &files[i];
        if is_match(tool, f) {
            let answer: bool = if i < changed.len() {
                changed[i]
            } else {
                true
            };
            if need_file(cache, answer, mtime_enabled, tool, f) {
                selected.push(f.clone());
            }
        }
        i += 1;
    }
    if selected.len() == 0 {
        None
    } else {
        Some(Command { tool: Arc::clone(tool), files: selected })
    }
}

/// The commands for the first `n` tools, each tool that has to run on some
/// file with those files, and the records after all were gone through.
pub open spec fn tools_plan(
    m: Map<u128, u16>,
    keeps: bool,
    tools: Seq<Arc<Tool>>,
    files: Seq<File>,
    changed: Seq<bool>,
    mtime_enabled: bool,
    n: nat,
) -> (Seq<(Arc<Tool>, Seq<File>)>, Map<u128, u16>)
    decreases n,
{
    if n == 0 {
        (Seq::empty(), m)
    } else {
        let i = (n - 1) as nat;
        let (planned, m1) = tools_plan(m, keeps, tools, files, changed, mtime_enabled, i);
        let (selected, m2) = tool_plan(
            m1,
            keeps,
            *tools[i as int],
            files,
            changed,
            mtime_enabled,
            files.len(),
        );
        (
            if selected.len() > 0 {
                planned.push((tools[i as int], selected))
            } else {
                planned
            },
            m2,
        )
    }
}

/// `commands` are the planned commands, one for one.
pub open spec fn commands_are(commands: Seq<Command>, planned: Seq<(Arc<Tool>, Seq<File>)>) -> bool {
    &&& commands.len() == planned.len()
    &&& forall|i: int|
        0 <= i < commands.len() ==> (#[trigger] commands[i]).tool == planned[i].0
            && commands[i].files@ == planned[i].1
}

/// The batches to run: for each tool in turn the files it applies to and
/// that are needed, made into batches for `cores` cores. No file gives no
/// batch, and leaves the cache alone.
pub fn plan<C: Cache>(
    cache: &mut C,
    tools: &Vec<Arc<Tool>>,
    files: &Vec<File>,
    changed: &Vec<bool>,
    cores: usize,
    no_batch: bool,
    mtime_enabled: bool,
) -> (batches: Vec<Command>)
    requires
        cores > 0,
    ensures
        final(cache).keeps() == old(cache).keeps(),
        final(cache).capacity() == old(cache).capacity(),
        files@.len() == 0 ==> batches@.len() == 0 && final(cache).records() == old(
            cache,
        ).records(),
        ({
            let (planned, m) = tools_plan(
                old(cache).records(),
                old(cache).keeps(),
                tools@,
                files@,
                changed@,
                mtime_enabled,
                tools@.len(),
            );
            &&& final(cache).records() == m
            &&& exists|commands: Seq<Command>, parts: Seq<Seq<Command>>|
                commands_are(commands, planned) && are_jobs_of(
                    commands,
                    cores as nat,
                    no_batch,
                    parts,
                ) && batches@ == concat(parts)
        }),
{
    let ghost m0 = cache.records();
    let ghost keeps = cache.keeps();
    if files.len() == 0 {
        proof {
            lemma_no_files(m0, keeps, tools@, files@, changed@, mtime_enabled, tools@.len());
            let commands = Seq::<Command>::empty();
            let parts = Seq::<Seq<Command>>::empty();
            assert(commands_are(commands, Seq::empty()));
            assert(are_jobs_of(commands, cores as nat, no_batch, parts));
            assert(concat(parts) =~= Seq::<Command>::empty());
        }
        return Vec::new();
    }
    let mut commands: Vec<Command> = Vec::new();
    let n: usize = tools.len();
    let mut i: usize = 0;
    while i < n
        invariant
            n == tools@.len(),
            i <= n,
            cache.keeps() == keeps,
            cache.capacity() == old(cache).capacity(),
            ({
                let (planned, m) = tools_plan(
                    m0,
                    keeps,
                    tools@,
                    files@,
                    changed@,
                    mtime_enabled,
                    i as nat,
                );
                cache.records() == m && commands_are(commands@, planned)
            }),
        decreases n - i,
    {
        match tool_commands(&tools[i], files, changed, cache, mtime_enabled) {
            Some(cmd) => {
                commands.push(cmd);
            },
            None => {},
        }
        i += 1;
    }
    let ghost planned_commands = commands@;
    let batches = create_jobs(commands, cores, no_batch);
    proof {
        let parts = choose|parts: Seq<Seq<Command>>|
            are_jobs_of(planned_commands, cores as nat, no_batch, parts) && batches@ == concat(
                parts,
            );
        assert(are_jobs_of(planned_commands, cores as nat, no_batch, parts) && batches@
            == concat(parts));
    }
    batches
}

/// Without files nothing is planned and nothing is recorded.
pub proof fn lemma_no_files(
    m: Map<u128, u16>,
    keeps: bool,
    tools: Seq<Arc<Tool>>,
    files: Seq<File>,
    changed: Seq<bool>,
    mtime_enabled: bool,
    n: nat,
)
    requires
        files.len() == 0,
    ensures
        tools_plan(m, keeps, tools, files, changed, mtime_enabled, n) == (
            Seq::<(Arc<Tool>, Seq<File>)>::empty(),
            m,
        ),
    decreases n,
{
    if n > 0 {
        lemma_no_files(m, keeps, tools, files, changed, mtime_enabled, (n - 1) as nat);
    }
}

/// Whether the modification time settles the file under the tool: whether
/// modification times are enabled and the key is recorded.
pub open spec fn settled_by_mtime(
    m: Map<u128, u16>,
    mtime_enabled: bool,
    tool: Tool,
    file: File,
) -> bool {
    mtime_enabled && m.contains_key(key_hash(mtime_key(file, tool)))
}

/// Whether the planner will look at the content stamp of `file`: whether
/// some tool applies to it that the modification time does not settle.
pub open spec fn spec_content_wanted(
    m: Map<u128, u16>,
    tools: Seq<Arc<Tool>>,
    file: File,
    mtime_enabled: bool,
) -> bool {
    exists|i: int|
        0 <= i < tools.len() && tool_matches(*#[trigger] tools[i], file.path@)
            && !settled_by_mtime(m, mtime_enabled, *tools[i], file)
}

/// Whether the planner will look at the answer of git for `file`: whether
/// some tool applies to it that neither the modification time nor the
/// content settles.
pub open spec fn spec_refs_wanted(
    m: Map<u128, u16>,
    tools: Seq<Arc<Tool>>,
    file: File,
    mtime_enabled: bool,
) -> bool {
    exists|i: int|
        0 <= i < tools.len() && tool_matches(*#[trigger] tools[i], file.path@)
            && !settled_by_mtime(m, mtime_enabled, *tools[i], file) && file.content_stamp is Some
            && !m.contains_key(key_hash(content_key(file, *tools[i])))
}

/// Whether it is worth reading the file to fill in its content stamp.
pub fn content_wanted<C: Cache>(
    cache: &C,
    tools: &Vec<Arc<Tool>>,
    file: &File,
    mtime_enabled: bool,
) -> (wanted: bool)
    ensures
        wanted == spec_content_wanted(cache.records(), tools@, *file, mtime_enabled),
{
    let n: usize = tools.len();
    let mut i: usize = 0;
    while i < n
        invariant
            n == tools@.len(),
            i <= n,
            forall|j: int|
                0 <= j < i ==> !(tool_matches(*#[trigger] tools@[j], file.path@)
                    && !settled_by_mtime(cache.records(), mtime_enabled, *tools@[j], *file)),
        decreases n - i,
    {
        let tool = &tools[i];
        if is_match(tool, file) {
            let settled: bool = mtime_enabled && cache.knows(&Key::from_mtime(file, tool));
            if !settled {
                return true;
            }
        }
        i += 1;
    }
    false
}

/// Whether it is worth asking git about the file.
pub fn refs_wanted<C: Cache>(
    cache: &C,
    tools: &Vec<Arc<Tool>>,
    file: &File,
    mtime_enabled: bool,
) -> (wanted: bool)
    ensures
        wanted == spec_refs_wanted(cache.records(), tools@, *file, mtime_enabled),
{
    if file.content_stamp.is_none() {
        return false;
    }
    let n: usize = tools.len();
    let mut i: usize = 0;
    while i < n
        invariant
            n == tools@.len(),
            i <= n,
            file.content_stamp is Some,
            forall|j: int|
                0 <= j < i ==> !(tool_matches(*#[trigger] tools@[j], file.path@)
                    && !settled_by_mtime(cache.records(), mtime_enabled, *tools@[j], *file)
                    && !cache.records().contains_key(key_hash(content_key(*file, *tools@[j])))),
        decreases n - i,
    {
        let tool = &tools[i];
        if is_match(tool, file) {
            let settled: bool = mtime_enabled && cache.knows(&Key::from_mtime(file, tool));
            if !settled && !cache.knows(&Key::from_content(file, tool)) {
                return true;
            }
        }
        i += 1;
    }
    false
}

/// A file whose content key is recorded, or whose modification-time key is
/// recorded while modification times are enabled, is not needed.
pub proof fn lemma_recorded_is_skipped(
    m: Map<u128, u16>,
    keeps: bool,
    changed: bool,
    mtime_enabled: bool,
    tool: Tool,
    file: File,
)
    requires
        m.contains_key(key_hash(content_key(file, tool))) || settled_by_mtime(
            m,
            mtime_enabled,
            tool,
            file,
        ),
    ensures
        !need_outcome(m, keeps, changed, mtime_enabled, tool, file).0,
{
}

/// A file that has a content stamp and changed against every known-good
/// ref is needed unless one of its keys settles it: unless its content key
/// is recorded, or its modification-time key is while modification times
/// are enabled.
pub proof fn lemma_unrecorded_is_needed(
    m: Map<u128, u16>,
    keeps: bool,
    mtime_enabled: bool,
    tool: Tool,
    file: File,
)
    requires
        file.content_stamp is Some,
    ensures
        need_outcome(m, keeps, true, mtime_enabled, tool, file).0 <==> !m.contains_key(
            key_hash(content_key(file, tool)),
        ) && !settled_by_mtime(m, mtime_enabled, tool, file),
        need_outcome(m, keeps, true, mtime_enabled, tool, file).0 ==> need_outcome(
            m,
            keeps,
            true,
            mtime_enabled,
            tool,
            file,
        ).1 == m,
{
}

/// A decision forgets no hash.
pub proof fn lemma_decision_keeps_hashes(
    m: Map<u128, u16>,
    keeps: bool,
    changed: bool,
    mtime_enabled: bool,
    tool: Tool,
    file: File,
)
    ensures
        m.dom().subset_of(need_outcome(m, keeps, changed, mtime_enabled, tool, file).1.dom()),
{
}

/// Going through the files for a tool forgets no hash, and every file that
/// is selected is one that the tool applies to, that has a content stamp, and
/// of which neither the content key nor, where modification times are
/// enabled, the modification-time key was recorded before.
pub proof fn lemma_selected_were_unrecorded(
    m: Map<u128, u16>,
    keeps: bool,
    tool: Tool,
    files: Seq<File>,
    changed: Seq<bool>,
    mtime_enabled: bool,
    n: nat,
)
    requires
        n <= files.len(),
    ensures
        m.dom().subset_of(tool_plan(m, keeps, tool, files, changed, mtime_enabled, n).1.dom()),
        forall|j: int|
            #![trigger tool_plan(m, keeps, tool, files, changed, mtime_enabled, n).0[j]]
            0 <= j < tool_plan(m, keeps, tool, files, changed, mtime_enabled, n).0.len() ==> {
                let f = tool_plan(m, keeps, tool, files, changed, mtime_enabled, n).0[j];
                &&& files.subrange(0, n as int).contains(f)
                &&& tool_matches(tool, f.path@)
                &&& f.content_stamp is Some
                &&& !m.contains_key(key_hash(content_key(f, tool)))
                &&& !settled_by_mtime(m, mtime_enabled, tool, f)
            },
    decreases n,
{
    if n > 0 {
        let i = (n - 1) as nat;
        lemma_selected_were_unrecorded(m, keeps, tool, files, changed, mtime_enabled, i);
        let (selected, m1) = tool_plan(m, keeps, tool, files, changed, mtime_enabled, i);
        let f = files[i as int];
        lemma_decision_keeps_hashes(
            m1,
            keeps,
            changed_at(changed, i as int),
            mtime_enabled,
            tool,
            f,
        );
        let now = tool_plan(m, keeps, tool, files, changed, mtime_enabled, n).0;
        assert forall|j: int| 0 <= j < now.len() implies {
            let g = #[trigger] now[j];
            &&& files.subrange(0, n as int).contains(g)
            &&& tool_matches(tool, g.path@)
            &&& g.content_stamp is Some
            &&& !m.contains_key(key_hash(content_key(g, tool)))
            &&& !settled_by_mtime(m, mtime_enabled, tool, g)
        } by {
            if j < selected.len() {
                assert(now[j] == selected[j]);
                let g = selected[j];
                assert(files.subrange(0, i as int).contains(g));
                let k = choose|k: int|
                    0 <= k < files.subrange(0, i as int).len() && files.subrange(0, i as int)[k]
                        == g;
                assert(files.subrange(0, n as int)[k] == g);
            } else {
                assert(now[j] == f);
                assert(files.subrange(0, n as int)[i as int] == f);
                if m.contains_key(key_hash(content_key(f, tool))) {
                    assert(m1.contains_key(key_hash(content_key(f, tool))));
                }
                if settled_by_mtime(m, mtime_enabled, tool, f) {
                    assert(m1.contains_key(key_hash(mtime_key(f, tool))));
                }
            }
        }
    }
}

/// Planning forgets no hash, and plans a tool on a file only where neither
/// of the file's keys under that tool settled it before planning.
pub proof fn lemma_planned_were_unrecorded(
    m: Map<u128, u16>,
    keeps: bool,
    tools: Seq<Arc<Tool>>,
    files: Seq<File>,
    changed: Seq<bool>,
    mtime_enabled: bool,
    n: nat,
)
    requires
        n <= tools.len(),
    ensures
        m.dom().subset_of(tools_plan(m, keeps, tools, files, changed, mtime_enabled, n).1.dom()),
        forall|i: int, j: int|
            #![trigger tools_plan(m, keeps, tools, files, changed, mtime_enabled, n).0[i].1[j]]
            0 <= i < tools_plan(m, keeps, tools, files, changed, mtime_enabled, n).0.len() && 0
                <= j < tools_plan(m, keeps, tools, files, changed, mtime_enabled, n).0[i].1.len()
                ==> {
                let (tool, selected) = tools_plan(
                    m,
                    keeps,
                    tools,
                    files,
                    changed,
                    mtime_enabled,
                    n,
                ).0[i];
                &&& files.contains(selected[j])
                &&& tool_matches(*tool, selected[j].path@)
                &&& !m.contains_key(key_hash(content_key(selected[j], *tool)))
                &&& !settled_by_mtime(m, mtime_enabled, *tool, selected[j])
            },
    decreases n,
{
    if n > 0 {
        let t = (n - 1) as nat;
        lemma_planned_were_unrecorded(m, keeps, tools, files, changed, mtime_enabled, t);
        let (planned, m1) = tools_plan(m, keeps, tools, files, changed, mtime_enabled, t);
        let tool = *tools[t as int];
        lemma_selected_were_unrecorded(m1, keeps, tool, files, changed, mtime_enabled, files.len());
        let (selected, m2) = tool_plan(m1, keeps, tool, files, changed, mtime_enabled, files.len());
        let now = tools_plan(m, keeps, tools, files, changed, mtime_enabled, n).0;
        assert(files.subrange(0, files.len() as int) =~= files);
        assert forall|i: int, j: int| 0 <= i < now.len() && 0 <= j < now[i].1.len() implies {
            let (tl, sel) = now[i];
            &&& files.contains(#[trigger] now[i].1[j])
            &&& tool_matches(*tl, sel[j].path@)
            &&& !m.contains_key(key_hash(content_key(sel[j], *tl)))
            &&& !settled_by_mtime(m, mtime_enabled, *tl, sel[j])
        } by {
            if i < planned.len() {
                assert(now[i] == planned[i]);
            } else {
                assert(now[i] == (tools[t as int], selected));
                let g = selected[j];
                if m.contains_key(key_hash(content_key(g, tool))) {
                    assert(m1.contains_key(key_hash(content_key(g, tool))));
                }
                if settled_by_mtime(m, mtime_enabled, tool, g) {
                    assert(m1.contains_key(key_hash(mtime_key(g, tool))));
                }
            }
        }
    }
}

/// The records are those of a cache: one that does not keep what it is
/// told holds nothing.
pub open spec fn of_a_cache(m: Map<u128, u16>, keeps: bool) -> bool {
    keeps || m == Map::<u128, u16>::empty()
}

/// What a cache holds are the records of a cache.
pub proof fn lemma_records_of_a_cache<C: Cache>(cache: &C)
    ensures
        of_a_cache(cache.records(), cache.keeps()),
{
    cache.lemma_holds_only_what_it_keeps();
}

/// A skip that the content key decided, with modification times enabled,
/// records the modification-time key with counter 0, adds no other hash and
/// forgets none. The next decision on a file with the same metadata and
/// the same modification time is then made without its content: whatever
/// content stamp the file has, or none, it is skipped, no hash is added or
/// forgotten, and the planner does not want it read.
pub proof fn lemma_mtime_promotion(
    m: Map<u128, u16>,
    keeps: bool,
    changed: bool,
    tool: Tool,
    file: File,
    again: File,
    changed_again: bool,
)
    requires
        of_a_cache(m, keeps),
        file.content_stamp is Some,
        m.contains_key(key_hash(content_key(file, tool))),
        again.metadata_stamp == file.metadata_stamp,
        again.mtime_stamp == file.mtime_stamp,
    ensures
        ({
            let (needed, m1) = need_outcome(m, keeps, changed, true, tool, file);
            let (needed_again, m2) = need_outcome(m1, keeps, changed_again, true, tool, again);
            &&& !needed
            &&& m1.contains_key(key_hash(mtime_key(file, tool)))
            &&& m1[key_hash(mtime_key(file, tool))] == 0
            &&& m1.dom() == m.dom().insert(key_hash(mtime_key(file, tool)))
            &&& settled_by_mtime(m1, true, tool, again)
            &&& !needed_again
            &&& m2.dom() == m1.dom()
        }),
{
    let mk = key_hash(mtime_key(file, tool));
    let (needed, m1) = need_outcome(m, keeps, changed, true, tool, file);
    let (needed_again, m2) = need_outcome(m1, keeps, changed_again, true, tool, again);
    assert(m1.dom() =~= m.dom().insert(mk));
    assert(mtime_key(again, tool) == mtime_key(file, tool));
    assert(m2.dom() =~= m1.dom());
}

/// Going through the files for a tool, with modification times enabled,
/// records the modification-time key of every file that the tool applies
/// to, that has a content stamp, and whose content key was recorded before.
pub proof fn lemma_tool_plan_promotes(
    m: Map<u128, u16>,
    tool: Tool,
    files: Seq<File>,
    changed: Seq<bool>,
    n: nat,
    i: int,
)
    requires
        0 <= i < n <= files.len(),
        tool_matches(tool, files[i].path@),
        files[i].content_stamp is Some,
        m.contains_key(key_hash(content_key(files[i], tool))),
    ensures
        tool_plan(m, true, tool, files, changed, true, n).1.contains_key(
            key_hash(mtime_key(files[i], tool)),
        ),
    decreases n,
{
    let k = (n - 1) as nat;
    let m1 = tool_plan(m, true, tool, files, changed, true, k).1;
    lemma_selected_were_unrecorded(m, true, tool, files, changed, true, k);
    if tool_matches(tool, files[k as int].path@) {
        lemma_decision_keeps_hashes(
            m1,
            true,
            changed_at(changed, k as int),
            true,
            tool,
            files[k as int],
        );
    }
    if i < k {
        lemma_tool_plan_promotes(m, tool, files, changed, k, i);
    } else {
        assert(m1.contains_key(key_hash(content_key(files[i], tool))));
    }
}

/// Planning with modification times enabled, on the records of a cache,
/// promotes every content hit: where a tool applies to a file that has a
/// content stamp and whose content key under the tool was recorded before
/// planning, the modification-time key of the file under the tool is
/// recorded afterwards, and the tool is not planned on the file.
pub proof fn lemma_plan_promotes(
    m: Map<u128, u16>,
    keeps: bool,
    tools: Seq<Arc<Tool>>,
    files: Seq<File>,
    changed: Seq<bool>,
    n: nat,
    k: int,
    i: int,
)
    requires
        of_a_cache(m, keeps),
        0 <= k < n <= tools.len(),
        0 <= i < files.len(),
        tool_matches(*tools[k], files[i].path@),
        files[i].content_stamp is Some,
        m.contains_key(key_hash(content_key(files[i], *tools[k]))),
    ensures
        tools_plan(m, keeps, tools, files, changed, true, n).1.contains_key(
            key_hash(mtime_key(files[i], *tools[k])),
        ),
        !is_planned(tools_plan(m, keeps, tools, files, changed, true, n).0, *tools[k], files[i]),
    decreases n,
{
    let t = (n - 1) as nat;
    let m1 = tools_plan(m, keeps, tools, files, changed, true, t).1;
    let last = *tools[t as int];
    lemma_planned_were_unrecorded(m, keeps, tools, files, changed, true, t);
    lemma_selected_were_unrecorded(m1, keeps, last, files, changed, true, files.len());
    if k < t {
        lemma_plan_promotes(m, keeps, tools, files, changed, t, k, i);
    } else {
        assert(keeps);
        assert(m1.contains_key(key_hash(content_key(files[i], last))));
        lemma_tool_plan_promotes(m1, last, files, changed, files.len(), i);
    }
    lemma_planned_were_unrecorded(m, keeps, tools, files, changed, true, n);
    let planned = tools_plan(m, keeps, tools, files, changed, true, n).0;
    let own = *tools[k];
    if is_planned(planned, own, files[i]) {
        let p = choose|p: int|
            0 <= p < planned.len() && *(#[trigger] planned[p]).0 == own && planned[p].1.contains(
                files[i],
            );
        let x = choose|x: int| 0 <= x < planned[p].1.len() && planned[p].1[x] == files[i];
        assert(!m.contains_key(key_hash(content_key(planned[p].1[x], *planned[p].0))));
    }
}

/// Whether `h` is one of the two key hashes of the file under the tool.
pub open spec fn is_key_of(h: u128, tool: Tool, file: File) -> bool {
    h == key_hash(mtime_key(file, tool)) || h == key_hash(content_key(file, tool))
}

/// Whether a key hash of the first file under the first tool is one of the
/// second file under the second tool.
pub open spec fn shares_key(tool: Tool, file: File, other_tool: Tool, other: File) -> bool {
    is_key_of(key_hash(mtime_key(file, tool)), other_tool, other) || is_key_of(
        key_hash(content_key(file, tool)),
        other_tool,
        other,
    )
}

/// No other tool and file of the run shares a key hash with the `i`-th
/// file under the `k`-th tool. A file that is listed twice shares its
/// keys with itself, and so does a tool.
pub open spec fn keys_apart(tools: Seq<Arc<Tool>>, files: Seq<File>, k: int, i: int) -> bool {
    forall|t: int, j: int|
        0 <= t < tools.len() && 0 <= j < files.len() && (t != k || j != i) ==> !#[trigger] shares_key(
            *tools[t],
            files[j],
            *tools[k],
            files[i],
        )
}

/// The tool is planned on the file.
pub open spec fn is_planned(planned: Seq<(Arc<Tool>, Seq<File>)>, tool: Tool, file: File) -> bool {
    exists|p: int|
        0 <= p < planned.len() && *(#[trigger] planned[p]).0 == tool && planned[p].1.contains(file)
}

/// A decision adds no hash but the two of its file under its tool.
pub proof fn lemma_decision_adds_own_keys(
    m: Map<u128, u16>,
    keeps: bool,
    changed: bool,
    mtime_enabled: bool,
    tool: Tool,
    file: File,
    h: u128,
)
    requires
        !m.contains_key(h),
        !is_key_of(h, tool, file),
    ensures
        !need_outcome(m, keeps, changed, mtime_enabled, tool, file).1.contains_key(h),
{
}

/// Going through the files for a tool adds no hash but those of the files
/// under the tool.
pub proof fn lemma_tool_plan_adds_own_keys(
    m: Map<u128, u16>,
    keeps: bool,
    tool: Tool,
    files: Seq<File>,
    changed: Seq<bool>,
    mtime_enabled: bool,
    n: nat,
    h: u128,
)
    requires
        n <= files.len(),
        !m.contains_key(h),
        forall|j: int| 0 <= j < n ==> !is_key_of(h, tool, #[trigger] files[j]),
    ensures
        !tool_plan(m, keeps, tool, files, changed, mtime_enabled, n).1.contains_key(h),
    decreases n,
{
    if n > 0 {
        let i = (n - 1) as nat;
        lemma_tool_plan_adds_own_keys(m, keeps, tool, files, changed, mtime_enabled, i, h);
        let m1 = tool_plan(m, keeps, tool, files, changed, mtime_enabled, i).1;
        assert(!is_key_of(h, tool, files[i as int]));
        lemma_decision_adds_own_keys(
            m1,
            keeps,
            changed_at(changed, i as int),
            mtime_enabled,
            tool,
            files[i as int],
            h,
        );
    }
}

/// Planning adds no hash but those of the files under the tools.
pub proof fn lemma_plan_adds_own_keys(
    m: Map<u128, u16>,
    keeps: bool,
    tools: Seq<Arc<Tool>>,
    files: Seq<File>,
    changed: Seq<bool>,
    mtime_enabled: bool,
    n: nat,
    h: u128,
)
    requires
        n <= tools.len(),
        !m.contains_key(h),
        forall|t: int, j: int|
            0 <= t < n && 0 <= j < files.len() ==> !#[trigger] is_key_of(h, *tools[t], files[j]),
    ensures
        !tools_plan(m, keeps, tools, files, changed, mtime_enabled, n).1.contains_key(h),
    decreases n,
{
    if n > 0 {
        let t = (n - 1) as nat;
        lemma_plan_adds_own_keys(m, keeps, tools, files, changed, mtime_enabled, t, h);
        let m1 = tools_plan(m, keeps, tools, files, changed, mtime_enabled, t).1;
        let tool = *tools[t as int];
        assert forall|j: int| 0 <= j < files.len() implies !is_key_of(
            h,
            tool,
            #[trigger] files[j],
        ) by {
            assert(!is_key_of(h, *tools[t as int], files[j]));
        }
        lemma_tool_plan_adds_own_keys(m1, keeps, tool, files, changed, mtime_enabled, files.len(), h);
    }
}

/// A file that is selected among the first files stays selected.
pub proof fn lemma_selected_stays(
    m: Map<u128, u16>,
    keeps: bool,
    tool: Tool,
    files: Seq<File>,
    changed: Seq<bool>,
    mtime_enabled: bool,
    a: nat,
    n: nat,
    file: File,
)
    requires
        a <= n <= files.len(),
        tool_plan(m, keeps, tool, files, changed, mtime_enabled, a).0.contains(file),
    ensures
        tool_plan(m, keeps, tool, files, changed, mtime_enabled, n).0.contains(file),
    decreases n,
{
    if n > a {
        let i = (n - 1) as nat;
        lemma_selected_stays(m, keeps, tool, files, changed, mtime_enabled, a, i, file);
        let before = tool_plan(m, keeps, tool, files, changed, mtime_enabled, i).0;
        let now = tool_plan(m, keeps, tool, files, changed, mtime_enabled, n).0;
        let at = choose|at: int| 0 <= at < before.len() && before[at] == file;
        assert(now[at] == file);
    }
}

/// A tool that is planned on a file among the first tools stays planned
/// on it.
pub proof fn lemma_planned_stays(
    m: Map<u128, u16>,
    keeps: bool,
    tools: Seq<Arc<Tool>>,
    files: Seq<File>,
    changed: Seq<bool>,
    mtime_enabled: bool,
    a: nat,
    n: nat,
    tool: Tool,
    file: File,
)
    requires
        a <= n <= tools.len(),
        is_planned(tools_plan(m, keeps, tools, files, changed, mtime_enabled, a).0, tool, file),
    ensures
        is_planned(tools_plan(m, keeps, tools, files, changed, mtime_enabled, n).0, tool, file),
    decreases n,
{
    if n > a {
        let t = (n - 1) as nat;
        lemma_planned_stays(m, keeps, tools, files, changed, mtime_enabled, a, t, tool, file);
        let before = tools_plan(m, keeps, tools, files, changed, mtime_enabled, t).0;
        let now = tools_plan(m, keeps, tools, files, changed, mtime_enabled, n).0;
        let at = choose|at: int|
            0 <= at < before.len() && *(#[trigger] before[at]).0 == tool && before[at].1.contains(
                file,
            );
        assert(now[at] == before[at]);
    }
}

/// Neither key of the file under the tool settles it.
pub open spec fn unsettled(m: Map<u128, u16>, mtime_enabled: bool, tool: Tool, file: File) -> bool {
    !m.contains_key(key_hash(content_key(file, tool))) && !settled_by_mtime(
        m,
        mtime_enabled,
        tool,
        file,
    )
}

/// Going through the files for a tool leaves a file unsettled that was so
/// before, differs from every known-good ref, and shares no key hash with
/// another file under the tool.
pub proof fn lemma_tool_plan_leaves_unsettled(
    m: Map<u128, u16>,
    keeps: bool,
    tool: Tool,
    files: Seq<File>,
    changed: Seq<bool>,
    mtime_enabled: bool,
    n: nat,
    i: int,
)
    requires
        n <= files.len(),
        0 <= i < files.len(),
        changed_at(changed, i),
        unsettled(m, mtime_enabled, tool, files[i]),
        forall|j: int|
            0 <= j < files.len() && j != i ==> !shares_key(tool, #[trigger] files[j], tool, files[i]),
    ensures
        unsettled(
            tool_plan(m, keeps, tool, files, changed, mtime_enabled, n).1,
            mtime_enabled,
            tool,
            files[i],
        ),
    decreases n,
{
    if n > 0 {
        let j = (n - 1) as nat;
        lemma_tool_plan_leaves_unsettled(m, keeps, tool, files, changed, mtime_enabled, j, i);
        if j != i {
            assert(!shares_key(tool, files[j as int], tool, files[i]));
        }
    }
}

/// Planning leaves a file unsettled under a tool that was so before,
/// differs from every known-good ref, and shares no key hash with another
/// tool and file of the run.
pub proof fn lemma_plan_leaves_unsettled(
    m: Map<u128, u16>,
    keeps: bool,
    tools: Seq<Arc<Tool>>,
    files: Seq<File>,
    changed: Seq<bool>,
    mtime_enabled: bool,
    n: nat,
    k: int,
    i: int,
)
    requires
        n <= tools.len(),
        0 <= k < tools.len(),
        0 <= i < files.len(),
        changed_at(changed, i),
        unsettled(m, mtime_enabled, *tools[k], files[i]),
        keys_apart(tools, files, k, i),
    ensures
        unsettled(
            tools_plan(m, keeps, tools, files, changed, mtime_enabled, n).1,
            mtime_enabled,
            *tools[k],
            files[i],
        ),
    decreases n,
{
    if n > 0 {
        let t = (n - 1) as nat;
        lemma_plan_leaves_unsettled(m, keeps, tools, files, changed, mtime_enabled, t, k, i);
        let m1 = tools_plan(m, keeps, tools, files, changed, mtime_enabled, t).1;
        let tool = *tools[t as int];
        let own = *tools[k];
        let ck = key_hash(content_key(files[i], own));
        let mk = key_hash(mtime_key(files[i], own));
        if t == k {
            assert forall|j: int| 0 <= j < files.len() && j != i implies !shares_key(
                tool,
                #[trigger] files[j],
                tool,
                files[i],
            ) by {
                assert(!shares_key(*tools[k], files[j], *tools[k], files[i]));
            }
            lemma_tool_plan_leaves_unsettled(
                m1,
                keeps,
                tool,
                files,
                changed,
                mtime_enabled,
                files.len(),
                i,
            );
        } else {
            assert forall|j: int| 0 <= j < files.len() implies !is_key_of(
                ck,
                tool,
                #[trigger] files[j],
            ) && !is_key_of(mk, tool, files[j]) by {
                assert(!shares_key(*tools[t as int], files[j], *tools[k], files[i]));
            }
            lemma_tool_plan_adds_own_keys(m1, keeps, tool, files, changed, mtime_enabled, files.len(), ck);
            if mtime_enabled {
                lemma_tool_plan_adds_own_keys(
                    m1,
                    keeps,
                    tool,
                    files,
                    changed,
                    mtime_enabled,
                    files.len(),
                    mk,
                );
            }
        }
    }
}

/// A run repeats what is not recorded: where a tool applies to a file that
/// has a content stamp and differs from every known-good ref, neither key
/// of the file under the tool settles it before planning, and no other
/// tool and file of the run shares a key hash with it, the tool is planned
/// on the file, and planning leaves it unsettled. The batches hold the
/// files of the planned commands, each as often as it was planned.
pub proof fn lemma_unrecorded_is_planned(
    m: Map<u128, u16>,
    keeps: bool,
    tools: Seq<Arc<Tool>>,
    files: Seq<File>,
    changed: Seq<bool>,
    mtime_enabled: bool,
    k: int,
    i: int,
)
    requires
        0 <= k < tools.len(),
        0 <= i < files.len(),
        tool_matches(*tools[k], files[i].path@),
        files[i].content_stamp is Some,
        changed_at(changed, i),
        unsettled(m, mtime_enabled, *tools[k], files[i]),
        keys_apart(tools, files, k, i),
    ensures
        is_planned(
            tools_plan(m, keeps, tools, files, changed, mtime_enabled, tools.len()).0,
            *tools[k],
            files[i],
        ),
        unsettled(
            tools_plan(m, keeps, tools, files, changed, mtime_enabled, tools.len()).1,
            mtime_enabled,
            *tools[k],
            files[i],
        ),
{
    let tool = *tools[k];
    let file = files[i];
    let m1 = tools_plan(m, keeps, tools, files, changed, mtime_enabled, k as nat).1;
    lemma_plan_leaves_unsettled(m, keeps, tools, files, changed, mtime_enabled, k as nat, k, i);
    lemma_plan_leaves_unsettled(m, keeps, tools, files, changed, mtime_enabled, tools.len(), k, i);
    assert forall|j: int| 0 <= j < files.len() && j != i implies !shares_key(
        tool,
        #[trigger] files[j],
        tool,
        files[i],
    ) by {
        assert(!shares_key(*tools[k], files[j], *tools[k], files[i]));
    }
    lemma_tool_plan_leaves_unsettled(m1, keeps, tool, files, changed, mtime_enabled, i as nat, i);
    let upto = tool_plan(m1, keeps, tool, files, changed, mtime_enabled, (i + 1) as nat).0;
    assert(upto.last() == file);
    lemma_selected_stays(
        m1,
        keeps,
        tool,
        files,
        changed,
        mtime_enabled,
        (i + 1) as nat,
        files.len(),
        file,
    );
    let selected = tool_plan(m1, keeps, tool, files, changed, mtime_enabled, files.len()).0;
    let planned = tools_plan(m, keeps, tools, files, changed, mtime_enabled, (k + 1) as nat).0;
    assert(planned.last() == (tools[k], selected));
    assert(is_planned(planned, tool, file));
    lemma_planned_stays(
        m,
        keeps,
        tools,
        files,
        changed,
        mtime_enabled,
        (k + 1) as nat,
        tools.len(),
        tool,
        file,
    );
}

/// Whether some batch that succeeded earned the hash.
pub open spec fn was_earned(
    h: u128,
    batches: Seq<Command>,
    outcomes: Seq<Outcome>,
    mtime_enabled: bool,
) -> bool {
    exists|q: int|
        0 <= q < batches.len() && outcome_at(outcomes, q) == Outcome::Succeeded && (
        #[trigger] batch_hashes(batches[q], mtime_enabled)).contains(h)
}

/// A hash that files earn under a tool is a key hash of one of them under
/// the tool.
pub proof fn lemma_earned_is_a_key(
    tool: Tool,
    files: Seq<File>,
    mtime_enabled: bool,
    n: nat,
    h: u128,
)
    requires
        n <= files.len(),
        earned(tool, files, mtime_enabled, n).contains(h),
    ensures
        exists|j: int| 0 <= j < n && is_key_of(h, tool, #[trigger] files[j]),
    decreases n,
{
    let now = earned(tool, files, mtime_enabled, n);
    let at = choose|at: int| 0 <= at < now.len() && now[at] == h;
    if n > 0 {
        let before = earned(tool, files, mtime_enabled, (n - 1) as nat);
        if at < before.len() {
            assert(before[at] == h);
            lemma_earned_is_a_key(tool, files, mtime_enabled, (n - 1) as nat, h);
        } else {
            assert(is_key_of(h, tool, files[n - 1]));
        }
    }
}

/// A hash is earned only by a batch that succeeded and holds a file of
/// which, under the tool of the batch, it is a key hash.
pub proof fn lemma_earned_by_a_holder(
    h: u128,
    batches: Seq<Command>,
    outcomes: Seq<Outcome>,
    mtime_enabled: bool,
)
    requires
        forall|q: int, j: int|
            0 <= q < batches.len() && outcome_at(outcomes, q) == Outcome::Succeeded && 0 <= j
                < batches[q].files@.len() ==> !#[trigger] is_key_of(
                h,
                *batches[q].tool,
                batches[q].files@[j],
            ),
    ensures
        !was_earned(h, batches, outcomes, mtime_enabled),
{
    if was_earned(h, batches, outcomes, mtime_enabled) {
        let q = choose|q: int|
            0 <= q < batches.len() && outcome_at(outcomes, q) == Outcome::Succeeded && (
            #[trigger] batch_hashes(batches[q], mtime_enabled)).contains(h);
        let tool = *batches[q].tool;
        lemma_earned_is_a_key(tool, batches[q].files@, mtime_enabled, batches[q].files@.len(), h);
        let j = choose|j: int|
            0 <= j < batches[q].files@.len() && is_key_of(
                h,
                *batches[q].tool,
                #[trigger] batches[q].files@[j],
            );
        assert(is_key_of(h, *batches[q].tool, batches[q].files@[j]));
    }
}

/// What did not succeed is planned again: where neither key of a file
/// under a tool settled it before the batches of a run were accounted for,
/// and no batch that succeeded earned one of the two, the next run, if it
/// finds the file with a content stamp and different from every known-good
/// ref, plans the tool on the file; given, as in
/// [`lemma_unrecorded_is_planned`], that no other tool and file of that run
/// shares a key hash with it.
pub proof fn lemma_failed_is_planned_again(
    m: Map<u128, u16>,
    keeps: bool,
    batches: Seq<Command>,
    outcomes: Seq<Outcome>,
    tools: Seq<Arc<Tool>>,
    files: Seq<File>,
    changed: Seq<bool>,
    mtime_enabled: bool,
    k: int,
    i: int,
)
    requires
        0 <= k < tools.len(),
        0 <= i < files.len(),
        tool_matches(*tools[k], files[i].path@),
        files[i].content_stamp is Some,
        changed_at(changed, i),
        unsettled(m, mtime_enabled, *tools[k], files[i]),
        !was_earned(key_hash(content_key(files[i], *tools[k])), batches, outcomes, mtime_enabled),
        !was_earned(key_hash(mtime_key(files[i], *tools[k])), batches, outcomes, mtime_enabled),
        keys_apart(tools, files, k, i),
    ensures
        is_planned(
            tools_plan(
                records_after(m, keeps, batches, outcomes, mtime_enabled, batches.len()),
                keeps,
                tools,
                files,
                changed,
                mtime_enabled,
                tools.len(),
            ).0,
            *tools[k],
            files[i],
        ),
{
    lemma_only_success_is_recorded(m, keeps, batches, outcomes, mtime_enabled, batches.len());
    let after = records_after(m, keeps, batches, outcomes, mtime_enabled, batches.len());
    lemma_unrecorded_is_planned(after, keeps, tools, files, changed, mtime_enabled, k, i);
}

/// Every planned command is that of one of the tools.
pub proof fn lemma_planned_is_of_a_tool(
    m: Map<u128, u16>,
    keeps: bool,
    tools: Seq<Arc<Tool>>,
    files: Seq<File>,
    changed: Seq<bool>,
    mtime_enabled: bool,
    n: nat,
    p: int,
) -> (t: int)
    requires
        n <= tools.len(),
        0 <= p < tools_plan(m, keeps, tools, files, changed, mtime_enabled, n).0.len(),
    ensures
        0 <= t < n,
        tools_plan(m, keeps, tools, files, changed, mtime_enabled, n).0[p].0 == tools[t],
    decreases n,
{
    if n == 0 {
        0
    } else {
        let before = tools_plan(m, keeps, tools, files, changed, mtime_enabled, (n - 1) as nat).0;
        if p < before.len() {
            lemma_planned_is_of_a_tool(
                m,
                keeps,
                tools,
                files,
                changed,
                mtime_enabled,
                (n - 1) as nat,
                p,
            )
        } else {
            n - 1
        }
    }
}

/// Whether a batch runs the tool on the file.
pub open spec fn runs_on(batch: Command, tool: Tool, file: File) -> bool {
    *batch.tool == tool && batch.files@.contains(file)
}

/// A rerun repeats what failed. A run plans, makes the batches and
/// accounts for how they ended; the next run plans on the records that
/// are left. Where a tool applies to a file that has a content stamp,
/// differs from every known-good ref in both runs and was unsettled before
/// the first, and no batch that ran the tool on the file succeeded, the
/// next run plans the tool on the file again; given that no other tool and
/// file of the run shares a key hash with it.
pub proof fn lemma_rerun_repeats_what_failed(
    m: Map<u128, u16>,
    keeps: bool,
    tools: Seq<Arc<Tool>>,
    files: Seq<File>,
    changed: Seq<bool>,
    mtime_enabled: bool,
    cores: nat,
    no_batch: bool,
    commands: Seq<Command>,
    parts: Seq<Seq<Command>>,
    outcomes: Seq<Outcome>,
    changed_again: Seq<bool>,
    k: int,
    i: int,
)
    requires
        0 <= k < tools.len(),
        0 <= i < files.len(),
        tool_matches(*tools[k], files[i].path@),
        files[i].content_stamp is Some,
        changed_at(changed, i),
        changed_at(changed_again, i),
        unsettled(m, mtime_enabled, *tools[k], files[i]),
        keys_apart(tools, files, k, i),
        commands_are(
            commands,
            tools_plan(m, keeps, tools, files, changed, mtime_enabled, tools.len()).0,
        ),
        are_jobs_of(commands, cores, no_batch, parts),
        forall|q: int|
            0 <= q < concat(parts).len() && runs_on(#[trigger] concat(parts)[q], *tools[k], files[i])
                ==> outcome_at(outcomes, q) != Outcome::Succeeded,
    ensures
        is_planned(
            tools_plan(
                records_after(
                    tools_plan(m, keeps, tools, files, changed, mtime_enabled, tools.len()).1,
                    keeps,
                    concat(parts),
                    outcomes,
                    mtime_enabled,
                    concat(parts).len(),
                ),
                keeps,
                tools,
                files,
                changed_again,
                mtime_enabled,
                tools.len(),
            ).0,
            *tools[k],
            files[i],
        ),
{
    let own = *tools[k];
    let ck = key_hash(content_key(files[i], own));
    let mk = key_hash(mtime_key(files[i], own));
    let (planned, m1) = tools_plan(m, keeps, tools, files, changed, mtime_enabled, tools.len());
    let batches = concat(parts);
    lemma_unrecorded_is_planned(m, keeps, tools, files, changed, mtime_enabled, k, i);
    lemma_planned_were_unrecorded(m, keeps, tools, files, changed, mtime_enabled, tools.len());
    assert forall|q: int, j: int|
        0 <= q < batches.len() && outcome_at(outcomes, q) == Outcome::Succeeded && 0 <= j
            < batches[q].files@.len() implies !is_key_of(
        ck,
        *batches[q].tool,
        #[trigger] batches[q].files@[j],
    ) && !is_key_of(mk, *batches[q].tool, batches[q].files@[j]) by {
        let f = batches[q].files@[j];
        let c = lemma_job_is_of_command(commands, cores, no_batch, parts, q, j);
        let at = choose|at: int| 0 <= at < commands[c].files@.len() && commands[c].files@[at] == f;
        assert(commands[c].tool == planned[c].0);
        assert(planned[c].1[at] == f);
        let t = lemma_planned_is_of_a_tool(
            m,
            keeps,
            tools,
            files,
            changed,
            mtime_enabled,
            tools.len(),
            c,
        );
        assert(files.contains(f));
        let jj = choose|jj: int| 0 <= jj < files.len() && files[jj] == f;
        if t != k || jj != i {
            assert(!shares_key(*tools[t], files[jj], *tools[k], files[i]));
        } else {
            assert(batches[q].files@.contains(f));
            assert(runs_on(batches[q], *tools[k], files[i]));
        }
    }
    lemma_earned_by_a_holder(ck, batches, outcomes, mtime_enabled);
    lemma_earned_by_a_holder(mk, batches, outcomes, mtime_enabled);
    lemma_failed_is_planned_again(
        m1,
        keeps,
        batches,
        outcomes,
        tools,
        files,
        changed_again,
        mtime_enabled,
        k,
        i,
    );
}

/// Each file earns its content key under the tool.
pub proof fn lemma_file_earns_its_content_key(
    tool: Tool,
    files: Seq<File>,
    mtime_enabled: bool,
    n: nat,
    j: int,
)
    requires
        0 <= j < n <= files.len(),
    ensures
        earned(tool, files, mtime_enabled, n).contains(key_hash(content_key(files[j], tool))),
    decreases n,
{
    let before = earned(tool, files, mtime_enabled, (n - 1) as nat);
    let now = earned(tool, files, mtime_enabled, n);
    if j < n - 1 {
        lemma_file_earns_its_content_key(tool, files, mtime_enabled, (n - 1) as nat, j);
        let at = choose|at: int|
            0 <= at < before.len() && before[at] == key_hash(content_key(files[j], tool));
        assert(now[at] == key_hash(content_key(files[j], tool)));
    } else {
        assert(now[before.len() as int] == key_hash(content_key(files[j], tool)));
    }
}

/// A rerun skips what succeeded: once a batch that succeeded is accounted
/// for in a cache that keeps its records, planning on those records plans
/// the tool of the batch on none of its files.
pub proof fn lemma_rerun_skips_what_succeeded(
    m: Map<u128, u16>,
    batches: Seq<Command>,
    outcomes: Seq<Outcome>,
    tools: Seq<Arc<Tool>>,
    files: Seq<File>,
    changed: Seq<bool>,
    mtime_enabled: bool,
    q: int,
    j: int,
)
    requires
        0 <= q < batches.len(),
        outcome_at(outcomes, q) == Outcome::Succeeded,
        0 <= j < batches[q].files@.len(),
    ensures
        !is_planned(
            tools_plan(
                records_after(m, true, batches, outcomes, mtime_enabled, batches.len()),
                true,
                tools,
                files,
                changed,
                mtime_enabled,
                tools.len(),
            ).0,
            *batches[q].tool,
            batches[q].files@[j],
        ),
{
    let tool = *batches[q].tool;
    let file = batches[q].files@[j];
    let h = key_hash(content_key(file, tool));
    let after = records_after(m, true, batches, outcomes, mtime_enabled, batches.len());
    let planned = tools_plan(after, true, tools, files, changed, mtime_enabled, tools.len()).0;
    lemma_file_earns_its_content_key(
        tool,
        batches[q].files@,
        mtime_enabled,
        batches[q].files@.len(),
        j,
    );
    lemma_success_is_recorded(m, batches, outcomes, mtime_enabled, batches.len(), q, h);
    lemma_planned_were_unrecorded(after, true, tools, files, changed, mtime_enabled, tools.len());
    if is_planned(planned, tool, file) {
        let p = choose|p: int|
            0 <= p < planned.len() && *(#[trigger] planned[p]).0 == tool && planned[p].1.contains(
                file,
            );
        let x = choose|x: int| 0 <= x < planned[p].1.len() && planned[p].1[x] == file;
        assert(!after.contains_key(key_hash(content_key(planned[p].1[x], *planned[p].0))));
    }
}

/// A file that the modification time settles under every tool that applies
/// to it is a file whose content the planner does not want.
pub proof fn lemma_settled_is_not_read(
    m: Map<u128, u16>,
    tools: Seq<Arc<Tool>>,
    file: File,
    mtime_enabled: bool,
)
    requires
        forall|i: int|
            0 <= i < tools.len() && tool_matches(*#[trigger] tools[i], file.path@)
                ==> settled_by_mtime(m, mtime_enabled, *tools[i], file),
    ensures
        !spec_content_wanted(m, tools, file, mtime_enabled),
        !spec_refs_wanted(m, tools, file, mtime_enabled),
{
}

/// Skip if recorded: a batch runs a tool on a file only where, before
/// planning, the cache held neither the content key of the file under the
/// tool nor, with modification times enabled, its modification-time key.
pub proof fn lemma_skip_if_recorded(
    m: Map<u128, u16>,
    keeps: bool,
    tools: Seq<Arc<Tool>>,
    files: Seq<File>,
    changed: Seq<bool>,
    mtime_enabled: bool,
    cores: nat,
    no_batch: bool,
    commands: Seq<Command>,
    parts: Seq<Seq<Command>>,
    k: int,
    j: int,
)
    requires
        commands_are(
            commands,
            tools_plan(m, keeps, tools, files, changed, mtime_enabled, tools.len()).0,
        ),
        are_jobs_of(commands, cores, no_batch, parts),
        0 <= k < concat(parts).len(),
        0 <= j < concat(parts)[k].files@.len(),
    ensures
        ({
            let batch = concat(parts)[k];
            let file = batch.files@[j];
            &&& files.contains(file)
            &&& tool_matches(*batch.tool, file.path@)
            &&& !m.contains_key(key_hash(content_key(file, *batch.tool)))
            &&& !settled_by_mtime(m, mtime_enabled, *batch.tool, file)
        }),
{
    let c = lemma_job_is_of_command(commands, cores, no_batch, parts, k, j);
    let planned = tools_plan(m, keeps, tools, files, changed, mtime_enabled, tools.len()).0;
    let file = concat(parts)[k].files@[j];
    let at = choose|at: int| 0 <= at < commands[c].files@.len() && commands[c].files@[at] == file;
    lemma_planned_were_unrecorded(m, keeps, tools, files, changed, mtime_enabled, tools.len());
    assert(commands[c].tool == planned[c].0);
    assert(commands[c].files@ == planned[c].1);
    assert(planned[c].1[at] == file);
}

} // verus!
