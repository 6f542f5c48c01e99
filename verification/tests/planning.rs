use std::sync::Arc;

use lun::cache::{Cache, CacheWriter, HashCache, Key, KeyHash, NopCache};
use lun::cli::Color;
use lun::cmd::Command;
use lun::config::{Granularity, Linter, Probe, Tool as ToolConfig};
use lun::exec::{done, exec, num_threads, should_start, vanished, Outcome};
use lun::file::{File, Metadata};
use lun::job::{batch, create_jobs, unbatch};
use lun::plan::{content_wanted, is_match, need_file, plan, refs_wanted, tool_commands};
use lun::run::RunMode;
use lun::tool::Tool;

fn file(path: &str, size: u64, mtime_ns: u128, content: Option<&[u8]>) -> File {
    let metadata = Metadata { len: size, posix: None, mtime_ns: Some(mtime_ns) };
    let mut f = File::new(path.to_string(), &metadata).unwrap();
    if let Some(c) = content {
        f.fill_content_stamp(c);
    }
    f
}

fn make_tool(cmd: &str, files: &[&str], ignore: &[&str], granularity: Granularity) -> Arc<Tool> {
    let linter = Linter {
        tool: ToolConfig {
            name: None,
            cmd: cmd.to_string(),
            files: files.iter().map(|f| f.to_string()).collect(),
            ignore: ignore.iter().map(|f| f.to_string()).collect(),
            granularity,
            configs: Vec::new(),
            cd: None,
        },
        fix: None,
    };
    let probe = Probe { configs: Vec::new(), version: None, env: Vec::new() };
    Arc::new(linter.into_tool(RunMode::Normal, false, Color::Never, false, &Vec::new(), &probe).unwrap())
}

fn lint() -> Arc<Tool> {
    make_tool("lint --", &["*.py"], &[], Granularity::Individual)
}

fn lines(batches: &[Command]) -> Vec<String> {
    let mut out: Vec<String> = batches
        .iter()
        .map(|b| {
            let inv = b.to_command();
            format!("{} {}", inv.program, inv.args.join(" "))
        })
        .collect();
    out.sort();
    out
}

fn cache() -> HashCache {
    HashCache::new("cache".to_string(), 1000)
}

fn all_changed(files: &[File]) -> Vec<bool> {
    vec![true; files.len()]
}

fn succeed(cache: &mut HashCache, batches: &Vec<Command>, mtime: bool) -> bool {
    let outcomes = vec![Outcome::Succeeded; batches.len()];
    exec(cache, batches, &outcomes, mtime)
}

#[test]
fn glob_filter() {
    let tool = make_tool("lint --", &["*.py", "*.pyi"], &["test_*"], Granularity::Individual);
    assert!(is_match(&tool, &file("a.py", 1, 1, None)));
    assert!(is_match(&tool, &file("sub/a.pyi", 1, 1, None)));
    assert!(!is_match(&tool, &file("a.rs", 1, 1, None)));
    assert!(!is_match(&tool, &file("test_a.py", 1, 1, None)));
    assert!(tool.ignore.is_some());
    assert!(lint().ignore.is_none());
}

#[test]
fn first_run_content_miss() {
    for (mtime, expected) in [(true, 4), (false, 2)] {
        let files = vec![file("a.py", 1, 1, Some(b"a")), file("b.py", 1, 1, Some(b"b"))];
        let mut cache = cache();
        let batches = plan(&mut cache, &vec![lint()], &files, &all_changed(&files), 4, false, mtime);
        assert_eq!(lines(&batches), vec!["lint -- a.py", "lint -- b.py"]);
        assert!(cache.hashes.is_empty());
        assert!(succeed(&mut cache, &batches, mtime));
        assert_eq!(cache.hashes.len(), expected);
        assert_eq!(cache.entries_added, expected);
    }
}

#[test]
fn second_run_mtime_skip() {
    let files = vec![file("a.py", 1, 1, Some(b"a")), file("b.py", 1, 1, Some(b"b"))];
    let mut cache = cache();
    let batches = plan(&mut cache, &vec![lint()], &files, &all_changed(&files), 4, false, true);
    succeed(&mut cache, &batches, true);
    // the same files, not read this time
    let unread = vec![file("a.py", 1, 1, None), file("b.py", 1, 1, None)];
    for f in &unread {
        assert!(!content_wanted(&cache, &vec![lint()], f, true));
        assert!(!refs_wanted(&cache, &vec![lint()], f, true));
    }
    let again = plan(&mut cache, &vec![lint()], &unread, &all_changed(&unread), 4, false, true);
    assert!(again.is_empty());
    assert_eq!(cache.hashes.len(), 4);
}

#[test]
fn content_changed_rerun() {
    let files = vec![file("a.py", 1, 1, Some(b"a")), file("b.py", 1, 1, Some(b"b"))];
    let mut cache = cache();
    let batches = plan(&mut cache, &vec![lint()], &files, &all_changed(&files), 4, false, true);
    succeed(&mut cache, &batches, true);
    // a.py was touched: a new modification time, the same bytes
    let touched = file("a.py", 1, 2, None);
    assert!(content_wanted(&cache, &vec![lint()], &touched, true));
    let touched = file("a.py", 1, 2, Some(b"a"));
    assert!(!refs_wanted(&cache, &vec![lint()], &touched, true));
    let mtime_key = Key::from_mtime(&touched, &lint());
    assert!(!cache.knows(&mtime_key));
    let files = vec![touched, file("b.py", 1, 1, None)];
    let again = plan(&mut cache, &vec![lint()], &files, &all_changed(&files), 4, false, true);
    assert!(again.is_empty());
    assert!(cache.knows(&mtime_key));
    assert_eq!(cache.hashes.len(), 5);
    // from now on the modification time settles it
    assert!(!content_wanted(&cache, &vec![lint()], &file("a.py", 1, 2, None), true));
}

#[test]
fn tool_command_change_invalidates() {
    let files = vec![file("a.py", 1, 1, Some(b"a")), file("b.py", 1, 1, Some(b"b"))];
    let mut cache = cache();
    let batches = plan(&mut cache, &vec![lint()], &files, &all_changed(&files), 4, false, true);
    succeed(&mut cache, &batches, true);
    let verbose = make_tool("lint -v --", &["*.py"], &[], Granularity::Individual);
    assert_ne!(verbose.stamp, lint().stamp);
    let again = plan(&mut cache, &vec![verbose], &files, &all_changed(&files), 4, false, true);
    assert_eq!(lines(&again), vec!["lint -v -- a.py", "lint -v -- b.py"]);
    assert_eq!(cache.hashes.len(), 4);
}

#[test]
fn failure_does_not_poison() {
    let files = vec![file("a.py", 1, 1, Some(b"a")), file("b.py", 1, 1, Some(b"b"))];
    let mut cache = cache();
    let batches = plan(&mut cache, &vec![lint()], &files, &all_changed(&files), 4, false, true);
    let outcomes: Vec<Outcome> = batches
        .iter()
        .map(|b| if b.files[0].path == "b.py" { Outcome::Failed } else { Outcome::Succeeded })
        .collect();
    assert!(!exec(&mut cache, &batches, &outcomes, true));
    assert_eq!(cache.hashes.len(), 2);
    assert!(cache.knows(&Key::from_content(&files[0], &lint())));
    assert!(cache.knows(&Key::from_mtime(&files[0], &lint())));
    assert!(!cache.knows(&Key::from_content(&files[1], &lint())));
    assert!(!cache.knows(&Key::from_mtime(&files[1], &lint())));
    let again = plan(&mut cache, &vec![lint()], &files, &all_changed(&files), 4, false, true);
    assert_eq!(lines(&again), vec!["lint -- b.py"]);
}

#[test]
fn batches_that_did_not_run_record_nothing() {
    let files = vec![file("a.py", 1, 1, Some(b"a")), file("b.py", 1, 1, Some(b"b"))];
    let mut cache = cache();
    let batches = plan(&mut cache, &vec![lint()], &files, &all_changed(&files), 4, false, true);
    assert!(!exec(&mut cache, &batches, &vec![Outcome::Failed, Outcome::NotRun], true));
    assert!(cache.hashes.is_empty());
    // an outcome that is missing counts as not run
    assert!(!exec(&mut cache, &batches, &vec![Outcome::Succeeded], true));
    assert_eq!(cache.hashes.len(), 2);
    assert!(exec(&mut cache, &Vec::new(), &Vec::new(), true));
}

#[test]
fn batch_granularity() {
    let tool = make_tool("lint --", &["*.py"], &[], Granularity::Batch);
    let files: Vec<File> =
        ["a", "b", "c", "d", "e"].iter().map(|n| file(&format!("{n}.py"), 1, 1, Some(b"x"))).collect();
    let mut cache = cache();
    let batches = plan(&mut cache, &vec![tool], &files, &all_changed(&files), 4, false, true);
    assert_eq!(lines(&batches), vec!["lint -- a.py b.py c.py d.py e.py"]);
}

#[test]
fn no_files_no_batches() {
    let mut cache = cache();
    let batches = plan(&mut cache, &vec![lint()], &Vec::new(), &Vec::new(), 4, false, true);
    assert!(batches.is_empty());
    assert!(cache.hashes.is_empty());
    assert_eq!(cache.flush().content.unwrap(), vec![0, 0, 1, 0, 0, 0]);
}

#[test]
fn unchanged_against_a_ref_is_skipped_and_recorded() {
    let f = file("a.py", 1, 1, Some(b"a"));
    let mut cache = cache();
    assert!(refs_wanted(&cache, &vec![lint()], &f, true));
    assert!(!need_file(&mut cache, false, true, &lint(), &f));
    assert!(cache.knows(&Key::from_content(&f, &lint())));
    assert!(cache.knows(&Key::from_mtime(&f, &lint())));
    let mut cache = self::cache();
    assert!(!need_file(&mut cache, false, false, &lint(), &f));
    assert!(cache.knows(&Key::from_content(&f, &lint())));
    assert!(!cache.knows(&Key::from_mtime(&f, &lint())));
    let mut cache = self::cache();
    assert!(need_file(&mut cache, true, true, &lint(), &f));
    assert!(cache.hashes.is_empty());
}

#[test]
fn unread_file_is_left_out() {
    let f = file("a.py", 1, 1, None);
    let mut cache = cache();
    assert!(!need_file(&mut cache, true, true, &lint(), &f));
    assert!(cache.hashes.is_empty());
}

#[test]
fn recorded_mtime_key_counts_only_when_enabled() {
    let f = file("a.py", 1, 1, Some(b"a"));
    let mut cache = cache();
    cache.done(&Key::from_mtime(&f, &lint()));
    assert!(!need_file(&mut cache, true, true, &lint(), &f));
    assert!(need_file(&mut cache, true, false, &lint(), &f));
}

#[test]
fn without_cache_everything_is_needed() {
    let files = vec![file("a.py", 1, 1, Some(b"a")), file("b.rs", 1, 1, Some(b"b"))];
    let mut cache = NopCache;
    for _ in 0..2 {
        let batches = plan(&mut cache, &vec![lint()], &files, &all_changed(&files), 4, false, true);
        assert_eq!(lines(&batches), vec!["lint -- a.py"]);
        assert!(exec(&mut cache, &batches, &vec![Outcome::Succeeded], true));
    }
    // but a file that is unchanged against a ref is still skipped
    let batches = plan(&mut cache, &vec![lint()], &files, &vec![false, false], 4, false, true);
    assert!(batches.is_empty());
}

#[test]
fn one_command_per_tool() {
    let files = vec![
        file("a.py", 1, 1, Some(b"a")),
        file("b.rs", 1, 1, Some(b"b")),
        file("c.py", 1, 1, Some(b"c")),
    ];
    let mut cache = cache();
    let cmd = tool_commands(&lint(), &files, &all_changed(&files), &mut cache, true).unwrap();
    let paths: Vec<&str> = cmd.files.iter().map(|f| f.path.as_str()).collect();
    assert_eq!(paths, vec!["a.py", "c.py"]);
    let rust = make_tool("clippy", &["*.rs"], &[], Granularity::Batch);
    let go_tool = make_tool("vet", &["*.go"], &[], Granularity::Batch);
    assert!(tool_commands(&go_tool, &files, &all_changed(&files), &mut cache, true).is_none());
    let batches =
        plan(&mut cache, &vec![rust, go_tool, lint()], &files, &all_changed(&files), 1, false, true);
    assert_eq!(
        batches.iter().map(|b| b.to_command().args.join(" ")).collect::<Vec<_>>(),
        vec!["b.rs", "-- a.py c.py"]
    );
}

fn command(tool: &Arc<Tool>, sizes: &[(&str, u64)]) -> Command {
    Command {
        tool: tool.clone(),
        files: sizes.iter().map(|(p, s)| file(p, *s, 1, Some(b"x"))).collect(),
    }
}

fn paths(batches: &[Command]) -> Vec<Vec<&str>> {
    batches.iter().map(|b| b.files.iter().map(|f| f.path.as_str()).collect()).collect()
}

#[test]
fn fewer_files_than_cores() {
    let cmd = command(&lint(), &[("b.py", 1), ("a.py", 2), ("c.py", 3)]);
    let batches = batch(cmd, 4);
    assert_eq!(paths(&batches), vec![vec!["b.py"], vec!["a.py"], vec!["c.py"]]);
    let single = command(&lint(), &[("a.py", 2)]);
    assert_eq!(paths(&batch(single, 4)), vec![vec!["a.py"]]);
}

#[test]
fn one_core_one_batch() {
    let cmd = command(&lint(), &[("b.py", 1), ("a.py", 2), ("c.py", 3)]);
    assert_eq!(paths(&batch(cmd, 1)), vec![vec!["b.py", "a.py", "c.py"]]);
}

#[test]
fn empty_command_gives_nothing() {
    assert!(batch(command(&lint(), &[]), 4).is_empty());
    assert!(unbatch(command(&lint(), &[])).is_empty());
    assert!(create_jobs(Vec::new(), 4, false).is_empty());
    assert!(create_jobs(vec![command(&lint(), &[])], 4, true).is_empty());
}

#[test]
fn greedy_split_is_balanced() {
    let sizes: Vec<(String, u64)> =
        (0..23u64).map(|i| (format!("f{:02}.py", i), (i * 37) % 101)).collect();
    let refs: Vec<(&str, u64)> = sizes.iter().map(|(p, s)| (p.as_str(), *s)).collect();
    let batches = batch(command(&lint(), &refs), 4);
    assert_eq!(batches.len(), 4);
    // every file once
    let mut all: Vec<&str> = batches.iter().flat_map(|b| b.files.iter().map(|f| f.path.as_str())).collect();
    all.sort();
    let mut given: Vec<&str> = refs.iter().map(|(p, _)| *p).collect();
    given.sort();
    assert_eq!(all, given);
    // each batch by path
    for b in &batches {
        let in_batch: Vec<&str> = b.files.iter().map(|f| f.path.as_str()).collect();
        let mut sorted = in_batch.clone();
        sorted.sort();
        assert_eq!(in_batch, sorted);
    }
    // no batch outweighs another by more than the largest file
    let totals: Vec<usize> = batches.iter().map(|b| b.files.iter().map(|f| f.size).sum()).collect();
    let largest = refs.iter().map(|(_, s)| *s as usize).max().unwrap();
    let max = *totals.iter().max().unwrap();
    let min = *totals.iter().min().unwrap();
    assert!(max - min <= largest);
}

#[test]
fn files_of_one_size_are_packed_in_their_order() {
    let cmd = command(&lint(), &[("d.py", 5), ("c.py", 5), ("b.py", 5), ("a.py", 5)]);
    // d and b go to the first bin, c and a to the second
    assert_eq!(paths(&batch(cmd, 2)), vec![vec!["b.py", "d.py"], vec!["a.py", "c.py"]]);
    let cmd = command(&lint(), &[("a.py", 5), ("b.py", 5), ("c.py", 5), ("d.py", 5)]);
    assert_eq!(paths(&batch(cmd, 2)), vec![vec!["a.py", "c.py"], vec!["b.py", "d.py"]]);
    let cmd = command(&lint(), &[("s.py", 1), ("x.py", 9), ("t.py", 1), ("y.py", 9), ("u.py", 1)]);
    // largest first: x y s t u; x | y | s to the first, t to the second, u to the first
    assert_eq!(paths(&batch(cmd, 2)), vec![vec!["s.py", "u.py", "x.py"], vec!["t.py", "y.py"]]);
}

#[test]
fn empty_batches_are_dropped() {
    let cmd = command(&lint(), &[("a.py", 0), ("b.py", 0), ("c.py", 5)]);
    let batches = batch(cmd, 3);
    // c.py opens the first batch; the two empty files follow into the second
    assert_eq!(paths(&batches), vec![vec!["c.py"], vec!["a.py", "b.py"]]);
}

#[test]
fn unbatch_splits_all_but_batch_tools() {
    let cmd = command(&lint(), &[("b.py", 1), ("a.py", 2)]);
    assert_eq!(paths(&unbatch(cmd)), vec![vec!["b.py"], vec!["a.py"]]);
    let whole = make_tool("lint --", &["*.py"], &[], Granularity::Batch);
    let cmd = command(&whole, &[("b.py", 1), ("a.py", 2)]);
    assert_eq!(paths(&unbatch(cmd)), vec![vec!["b.py", "a.py"]]);
    let cmd = command(&whole, &[("b.py", 1), ("a.py", 2), ("c.py", 2)]);
    assert_eq!(paths(&create_jobs(vec![cmd], 2, false)), vec![vec!["b.py", "a.py", "c.py"]]);
}

#[test]
fn earned_hashes() {
    let cmd = command(&lint(), &[("a.py", 1), ("b.py", 2)]);
    let with = done(&cmd, true);
    assert_eq!(
        with,
        vec![
            KeyHash::from(&Key::from_content(&cmd.files[0], &cmd.tool)),
            KeyHash::from(&Key::from_mtime(&cmd.files[0], &cmd.tool)),
            KeyHash::from(&Key::from_content(&cmd.files[1], &cmd.tool)),
            KeyHash::from(&Key::from_mtime(&cmd.files[1], &cmd.tool)),
        ]
    );
    let without = done(&cmd, false);
    assert_eq!(without, vec![with[0], with[2]]);
}

#[test]
fn executor_decisions() {
    assert_eq!(num_threads(4, 2), 2);
    assert_eq!(num_threads(2, 4), 2);
    assert_eq!(num_threads(3, 3), 3);
    assert!(should_start(false, false));
    assert!(!should_start(false, true));
    assert!(should_start(true, true));
    assert!(should_start(true, false));
    assert!(vanished(1, false));
    assert!(!vanished(1, true));
    assert!(!vanished(2, false));
    assert!(!vanished(0, false));
}

#[test]
fn rerun_repeats_the_failed_pairs_only() {
    let py = lint();
    let all = make_tool("fmt --", &["*"], &[], Granularity::Individual);
    let tools = vec![py.clone(), all.clone()];
    let files = vec![
        file("a.py", 1, 1, Some(b"a")),
        file("b.py", 1, 1, Some(b"b")),
        file("c.txt", 1, 1, Some(b"c")),
    ];
    let mut cache = cache();
    let batches = plan(&mut cache, &tools, &files, &all_changed(&files), 4, false, true);
    assert_eq!(
        lines(&batches),
        vec!["fmt -- a.py", "fmt -- b.py", "fmt -- c.txt", "lint -- a.py", "lint -- b.py"]
    );
    // lint fails on b.py, fmt on c.txt
    let outcomes: Vec<Outcome> = batches
        .iter()
        .map(|b| {
            let failed = (b.tool.cmd == "lint --" && b.files[0].path == "b.py")
                || (b.tool.cmd == "fmt --" && b.files[0].path == "c.txt");
            if failed { Outcome::Failed } else { Outcome::Succeeded }
        })
        .collect();
    assert!(!exec(&mut cache, &batches, &outcomes, true));
    let again = plan(&mut cache, &tools, &files, &all_changed(&files), 4, false, true);
    assert_eq!(lines(&again), vec!["fmt -- c.txt", "lint -- b.py"]);
}

#[test]
fn files_of_one_content_have_keys_of_their_own() {
    let files = vec![file("a.py", 1, 1, Some(b"same")), file("b.py", 1, 1, Some(b"same"))];
    assert_ne!(
        KeyHash::from(&Key::from_content(&files[0], &lint())),
        KeyHash::from(&Key::from_content(&files[1], &lint()))
    );
    let mut cache = cache();
    cache.done(&Key::from_content(&files[0], &lint()));
    cache.done(&Key::from_mtime(&files[0], &lint()));
    let again = plan(&mut cache, &vec![lint()], &files, &all_changed(&files), 4, false, true);
    assert_eq!(lines(&again), vec!["lint -- b.py"]);
}

#[test]
fn a_file_listed_twice_is_settled_by_its_first_decision() {
    let b = file("b.py", 1, 1, Some(b"b"));
    let files = vec![b.clone(), b.clone()];
    let mut cache = cache();
    // unchanged against a ref where it is listed first: recorded, and the
    // second listing is a content hit
    let batches = plan(&mut cache, &vec![lint()], &files, &vec![false, true], 4, false, false);
    assert!(batches.is_empty());
    assert!(cache.knows(&Key::from_content(&b, &lint())));
}

#[test]
fn content_hits_are_promoted_under_every_tool() {
    let py = lint();
    let all = make_tool("fmt --", &["*"], &[], Granularity::Individual);
    let tools = vec![py.clone(), all.clone()];
    let a = file("a.py", 1, 2, Some(b"a"));
    let mut cache = cache();
    cache.done(&Key::from_content(&a, &py));
    cache.done(&Key::from_content(&a, &all));
    let files = vec![file("x.py", 1, 1, Some(b"x")), a.clone()];
    let batches = plan(&mut cache, &tools, &files, &all_changed(&files), 4, false, true);
    assert_eq!(lines(&batches), vec!["fmt -- x.py", "lint -- x.py"]);
    assert!(cache.knows(&Key::from_mtime(&a, &py)));
    assert!(cache.knows(&Key::from_mtime(&a, &all)));
    assert_eq!(cache.hashes.len(), 4);
}

#[test]
fn a_cache_that_keeps_nothing_holds_nothing() {
    let f = file("a.py", 1, 1, Some(b"a"));
    let mut none = NopCache;
    none.done(&Key::from_content(&f, &lint()));
    none.done(&Key::from_mtime(&f, &lint()));
    assert!(none.needed(&Key::from_content(&f, &lint())));
    assert!(none.needed(&Key::from_mtime(&f, &lint())));
    assert!(need_file(&mut none, true, true, &lint(), &f));
}
