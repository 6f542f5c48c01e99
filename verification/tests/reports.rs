use lun::cli::{Cli, Color, Command as Sub, LogOptions, Run, WarnOpts};
use lun::cmd::Command;
use lun::config::{Config, Formatter, Granularity, Linter, Probe, Tool, WarnCfg};
use lun::exec::{report, ProgressFormat, Reporter, ReporterEvent};
use lun::file::{File, Stamp, Xxhash};
use lun::run::{
    do_exec, files_linted, filter_files, filter_tools, flush_after_exec, include_tool, lint,
    mk_config, num_cores, report_result, run_result, then_else, Backend, RunMode, RunResult,
};
use lun::text::decimal;
use lun::warn::group::Group;
use lun::warn::level::Level;
use lun::warn::warn::Warn;
use lun::warn::warns::Warns;
use lun::warn::{
    check_cache_full, check_cache_usage, check_careful, check_mtime, check_no_files, check_refs,
    check_unknown_tools, check_unlisted_config,
};
use std::str::FromStr;
use std::sync::Arc;

fn strings(names: &[&str]) -> Vec<String> {
    names.iter().map(|n| n.to_string()).collect()
}

fn start(cmd: &str) -> ReporterEvent {
    ReporterEvent::Start { cmd: cmd.to_string() }
}

fn done(cmd: &str) -> ReporterEvent {
    ReporterEvent::Done { cmd: cmd.to_string() }
}

fn shown(r: Option<lun::exec::Report>) -> Option<(usize, usize, String)> {
    r.map(|r| (r.position, r.total, r.cmd))
}

#[test]
fn reporter_follows_the_commands() {
    let mut r = Reporter::new(3);
    assert_eq!(shown(r.on_event(start("a"))), Some((1, 3, "a".to_string())));
    assert_eq!(shown(r.on_event(start("b"))), None);
    assert_eq!(shown(r.on_event(start("b"))), None);
    assert_eq!(r.running, strings(&["a", "b"]));
    // the one that is shown ends: another takes its place
    assert_eq!(shown(r.on_event(done("a"))), Some((2, 3, "b".to_string())));
    assert_eq!(r.completed, 1);
    assert_eq!(shown(r.on_event(start("c"))), None);
    // one that is not shown ends: the count moves on
    assert_eq!(shown(r.on_event(done("c"))), Some((3, 3, "b".to_string())));
    // the last one ends: nothing more to show
    assert_eq!(shown(r.on_event(done("b"))), None);
    assert_eq!(r.completed, 3);
    assert!(r.running.is_empty());
    assert_eq!(r.current_cmd, None);
}

#[test]
fn reporter_shows_the_count_between_commands() {
    let mut r = Reporter::new(2);
    r.on_event(start("a"));
    assert_eq!(shown(r.on_event(done("a"))), Some((2, 2, String::new())));
    assert_eq!(shown(r.on_event(start("b"))), Some((2, 2, "b".to_string())));
    assert_eq!(shown(r.on_event(done("b"))), None);
}

#[test]
fn progress_lines() {
    assert_eq!(report(ProgressFormat::No, 1, 2, "lint"), None);
    assert_eq!(report(ProgressFormat::Yes, 1, 20, "lint -- a.py").unwrap(), "\x1b[2K\r[1/20] lint -- a.py");
    assert_eq!(report(ProgressFormat::Newline, 12, 20, "lint").unwrap(), "\x1b[2K\r[12/20] lint\n");
    assert_eq!(report(ProgressFormat::Yes, 3, 3, "").unwrap(), "\x1b[2K\r[3/3]");
    assert_eq!(report(ProgressFormat::Newline, 0, 0, "").unwrap(), "\x1b[2K\r[0/0]\n");
    let long = "x".repeat(61);
    assert_eq!(
        report(ProgressFormat::Yes, 1, 1, &long).unwrap(),
        format!("\x1b[2K\r[1/1] {}", "x".repeat(60))
    );
    let sixty = "é".repeat(60);
    assert_eq!(report(ProgressFormat::Yes, 1, 1, &sixty).unwrap(), format!("\x1b[2K\r[1/1] {}", sixty));
}

#[test]
fn decimals() {
    assert_eq!(decimal(0), "0");
    assert_eq!(decimal(7), "7");
    assert_eq!(decimal(10), "10");
    assert_eq!(decimal(1234567890), "1234567890");
    assert_eq!(decimal(u128::MAX), u128::MAX.to_string());
}

#[test]
fn results() {
    assert_eq!(run_result(true, false, 3, 4), RunResult::AllGood { cmds: 0, files: 0 });
    assert_eq!(run_result(false, true, 3, 4), RunResult::AllGood { cmds: 3, files: 4 });
    assert_eq!(run_result(false, false, 3, 4), RunResult::Errors);
    assert!(RunResult::AllGood { cmds: 0, files: 0 }.success());
    assert!(!RunResult::Errors.success());
    assert_eq!(
        report_result(&RunResult::AllGood { cmds: 0, files: 0 }).unwrap(),
        "\x1b[2K\r[0/0] 0 files linted"
    );
    assert_eq!(
        report_result(&RunResult::AllGood { cmds: 1, files: 1 }).unwrap(),
        "\x1b[2K\r[1/1] 1 file linted"
    );
    assert_eq!(
        report_result(&RunResult::AllGood { cmds: 12, files: 345 }).unwrap(),
        "\x1b[2K\r[12/12] 345 files linted"
    );
    assert_eq!(report_result(&RunResult::Errors), None);
}

fn run_opts() -> Run {
    Run {
        careful: false,
        check: false,
        dry_run: false,
        on_failure: None,
        fix: false,
        format: false,
        jobs: None,
        keep_going: false,
        no_mtime: false,
        ninja: false,
        no_batch: false,
        no_capture: false,
        only_tool: Vec::new(),
        skip_tool: Vec::new(),
        only_files: Vec::new(),
        skip_files: Vec::new(),
        staged: false,
        on_success: None,
        refs: Vec::new(),
        watch: false,
        cache_size: None,
        fresh: false,
        no_cache: false,
        no_refs: false,
    }
}

fn empty_config() -> Config {
    Config {
        linter: Vec::new(),
        formatter: Vec::new(),
        cache_size: None,
        careful: false,
        cores: None,
        ignore: Vec::new(),
        mtime: true,
        ninja: None,
        refs: Vec::new(),
        tool: Vec::new(),
        warns: WarnCfg { allow: Vec::new(), warn: Vec::new(), deny: Vec::new() },
    }
}

fn cli(quiet: u8, verbose: u8) -> Cli {
    Cli {
        cache: ".lun".to_string(),
        config: "lun.toml".to_string(),
        log: LogOptions { color: Color::Auto, log_timestamp: false, quiet, verbose },
        warn: WarnOpts { allow: Vec::new(), warn: Vec::new(), deny: Vec::new() },
        command: Sub::Clean,
    }
}

#[test]
fn conversions() {
    let mut run = run_opts();
    run.fix = true;
    assert_eq!(RunMode::from(&run), RunMode::Fix);
    assert!(bool::from(&RunResult::AllGood { cmds: 1, files: 2 }));
    assert!(!bool::from(&RunResult::Errors));
    let opts = WarnOpts { allow: strings(&["mtime"]), warn: Vec::new(), deny: strings(&["refs"]) };
    let warns = Warns::try_from(&opts).unwrap();
    assert_eq!(warns.level(Warn::Refs), Level::Deny);
    let opts = WarnOpts { allow: Vec::new(), warn: Vec::new(), deny: strings(&["nope"]) };
    assert!(Warns::try_from(&opts).is_err());
}

#[test]
fn modes() {
    let mut run = run_opts();
    assert_eq!(RunMode::of(&run), RunMode::Normal);
    run.check = true;
    assert_eq!(RunMode::of(&run), RunMode::Check);
    run.fix = true;
    assert_eq!(RunMode::of(&run), RunMode::Fix);
}

#[test]
fn cores() {
    assert_eq!(num_cores(Some(3), Some(8)), 3);
    assert_eq!(num_cores(None, Some(8)), 8);
    assert_eq!(num_cores(None, None), 1);
    assert_eq!(num_cores(Some(0), Some(0)), 1);
    assert_eq!(num_cores(Some(0), Some(2)), 2);
}

#[test]
fn settings() {
    let mut config = empty_config();
    config.refs = strings(&["main"]);
    config.cores = Some(2);
    config.cache_size = Some(100);
    config.ninja = Some(true);
    let s = mk_config(&cli(0, 0), &run_opts(), &config, Some(8));
    assert_eq!(s.show_progress, ProgressFormat::Yes);
    assert_eq!(s.refs, strings(&["main"]));
    assert_eq!(s.cores, 2);
    assert_eq!(s.cache, ".lun");
    assert!(s.mtime && s.ninja && !s.no_cache && !s.dry_run);
    assert_eq!(s.cache_size, Some(100));

    let mut run = run_opts();
    run.refs = strings(&["dev"]);
    run.jobs = Some(5);
    run.cache_size = Some(7);
    run.no_mtime = true;
    run.no_cache = true;
    run.dry_run = true;
    run.keep_going = true;
    run.on_success = Some("echo ok".to_string());
    run.on_failure = Some("echo bad".to_string());
    let s = mk_config(&cli(0, 2), &run, &config, Some(8));
    assert_eq!(s.show_progress, ProgressFormat::Newline);
    assert_eq!(s.refs, strings(&["dev"]));
    assert_eq!(s.cores, 5);
    assert_eq!(s.cache_size, Some(7));
    assert!(!s.mtime && s.no_cache && s.dry_run && s.keep_going);
    assert_eq!(then_else(&s, &RunResult::AllGood { cmds: 1, files: 1 }).as_deref(), Some("echo ok"));
    assert_eq!(then_else(&s, &RunResult::Errors).as_deref(), Some("echo bad"));

    let mut run = run_opts();
    run.refs = strings(&["dev"]);
    run.fresh = true;
    let s = mk_config(&cli(1, 0), &run, &empty_config(), None);
    assert_eq!(s.show_progress, ProgressFormat::No);
    assert!(s.refs.is_empty());
    assert!(s.no_cache);
    assert_eq!(s.cores, 1);
    assert!(!s.ninja);
    let mut run = run_opts();
    run.no_refs = true;
    assert!(mk_config(&cli(0, 0), &run, &config, None).refs.is_empty());
}

#[test]
fn backends() {
    let mut run = run_opts();
    assert_eq!(do_exec(&mk_config(&cli(0, 0), &run, &empty_config(), None)), Backend::Pool);
    run.dry_run = true;
    assert_eq!(do_exec(&mk_config(&cli(0, 0), &run, &empty_config(), None)), Backend::Nothing);
    run.ninja = true;
    assert_eq!(do_exec(&mk_config(&cli(0, 0), &run, &empty_config(), None)), Backend::Ninja);
    assert!(flush_after_exec(1));
    assert!(!flush_after_exec(0));
}

fn file(path: &str) -> File {
    File {
        path: path.to_string(),
        size: 1,
        metadata_stamp: Stamp(Xxhash(1)),
        mtime_stamp: Stamp(Xxhash(2)),
        content_stamp: None,
    }
}

fn kept(only: &[&str], skip: &[&str]) -> Vec<String> {
    let mut files = vec![file("a.py"), file("b.py"), file("src/a.rs"), file("ab.py")];
    filter_files(&mut files, &strings(only), &strings(skip)).unwrap();
    files.into_iter().map(|f| f.path).collect()
}

#[test]
fn files_are_filtered() {
    assert_eq!(kept(&[], &[]), strings(&["a.py", "b.py", "src/a.rs", "ab.py"]));
    assert_eq!(kept(&["a*"], &[]), strings(&["a.py", "ab.py"]));
    assert_eq!(kept(&["a*", "*.rs"], &[]), strings(&["a.py", "src/a.rs", "ab.py"]));
    assert_eq!(kept(&[], &["a*"]), strings(&["b.py", "src/a.rs"]));
    assert_eq!(kept(&["*.py"], &["a.*"]), strings(&["b.py", "ab.py"]));
    assert_eq!(kept(&["*.go"], &[]), Vec::<String>::new());
    let mut files = vec![file("a.py")];
    assert!(matches!(
        filter_files(&mut files, &strings(&["a[b"]), &Vec::new()),
        Err(lun::config::ConfigError::InvalidOnlyGlob { pattern }) if pattern == "a[b"
    ));
    assert!(matches!(
        filter_files(&mut files, &Vec::new(), &strings(&["*", "{a"])),
        Err(lun::config::ConfigError::InvalidSkipGlob { pattern }) if pattern == "{a"
    ));
    assert_eq!(files.len(), 1);
}

fn tool(name: Option<&str>, cmd: &str, files: &[&str]) -> Tool {
    Tool {
        name: name.map(|n| n.to_string()),
        cmd: cmd.to_string(),
        files: strings(files),
        ignore: Vec::new(),
        granularity: Granularity::Individual,
        configs: Vec::new(),
        cd: None,
    }
}

#[test]
fn tools_are_included() {
    let named = tool(Some("ruff"), "ruff", &["*.py"]);
    let nameless = tool(None, "lint", &["*.py"]);
    let mut run = run_opts();
    assert!(include_tool(&named, &run));
    assert!(include_tool(&nameless, &run));
    run.skip_tool = strings(&["ruff", "lint"]);
    assert!(!include_tool(&named, &run));
    assert!(include_tool(&nameless, &run));
    let mut run = run_opts();
    run.only_tool = strings(&["ruff"]);
    assert!(include_tool(&named, &run));
    assert!(!include_tool(&nameless, &run));
    run.skip_tool = strings(&["ruff"]);
    assert!(!include_tool(&named, &run));
}

#[test]
fn tools_of_a_run() {
    let mut config = empty_config();
    config.linter = vec![
        Linter { tool: tool(Some("a"), "a {{color}}", &["*.py"]), fix: Some("a --fix".to_string()) },
        Linter { tool: tool(Some("b"), "b", &["*.py"]), fix: None },
    ];
    config.formatter = vec![Formatter { tool: tool(Some("f"), "f", &["*.py"]), check: Some("f --check".to_string()) }];
    let probes = vec![Probe { configs: Vec::new(), version: Some("1".to_string()), env: Vec::new() }];
    let cmds = |run: &Run| -> Vec<String> {
        filter_tools(run, &config, RunMode::of(run), Color::Always, false, &probes)
            .unwrap()
            .iter()
            .map(|t: &Arc<lun::tool::Tool>| t.cmd.clone())
            .collect()
    };
    assert_eq!(cmds(&run_opts()), strings(&["a always", "b", "f"]));
    let mut run = run_opts();
    run.format = true;
    run.check = true;
    assert_eq!(cmds(&run), strings(&["f --check"]));
    let mut run = run_opts();
    run.fix = true;
    run.skip_tool = strings(&["b"]);
    assert_eq!(cmds(&run), strings(&["a --fix", "f"]));
    // the version counts for the first tool only, and only when careful
    let mut run = run_opts();
    let careless = filter_tools(&run, &config, RunMode::Normal, Color::Always, false, &probes).unwrap();
    run.careful = true;
    let careful = filter_tools(&run, &config, RunMode::Normal, Color::Always, false, &probes).unwrap();
    assert_ne!(careful[0].stamp, careless[0].stamp);
    assert_eq!(careful[1].stamp, careless[1].stamp);
    config.linter[1].tool.files = strings(&["a[b"]);
    assert!(filter_tools(&run_opts(), &config, RunMode::Normal, Color::Always, false, &probes).is_err());
}

#[test]
fn tools_that_ask_nothing_are_made() {
    // no tool takes part
    assert!(filter_tools(&run_opts(), &empty_config(), RunMode::Normal, Color::Never, false, &Vec::new())
        .unwrap()
        .is_empty());
    // a tool without patterns and without configuration files
    let mut config = empty_config();
    config.linter = vec![Linter { tool: tool(None, "lint --", &[]), fix: None }];
    let tools =
        filter_tools(&run_opts(), &config, RunMode::Normal, Color::Never, false, &Vec::new()).unwrap();
    assert_eq!(tools.len(), 1);
    assert_eq!(tools[0].cmd, "lint --");
    assert!(tools[0].files.is_empty());
    assert!(tools[0].ignore.is_none());
    // a pattern that does not compile is the error of making the tool
    config.linter[0].tool.files = strings(&["a[b"]);
    assert!(matches!(
        filter_tools(&run_opts(), &config, RunMode::Normal, Color::Never, false, &Vec::new()),
        Err(lun::config::ConfigError::InvalidFilesGlob { .. })
    ));
}

#[test]
fn tools_with_valid_globs_are_made_in_order() {
    let mut config = empty_config();
    config.ignore = strings(&["gen/**"]);
    config.linter = vec![
        Linter { tool: tool(Some("a"), "a", &["*.py", "src/**/*.rs"]), fix: None },
        Linter { tool: tool(Some("b"), "b", &["{x,y}.c", "[a-z]*"]), fix: None },
    ];
    config.formatter = vec![Formatter { tool: tool(Some("f"), "f", &["**/*.toml"]), check: None }];
    let made = filter_tools(&run_opts(), &config, RunMode::Normal, Color::Never, false, &Vec::new()).unwrap();
    let names: Vec<_> = made.iter().map(|t| t.name.clone().unwrap()).collect();
    assert_eq!(names, strings(&["a", "b", "f"]));
    // the first tool that cannot be made gives the error
    config.linter[1].tool.ignore = strings(&["{a"]);
    config.formatter[0].tool.files = strings(&["a[b"]);
    match filter_tools(&run_opts(), &config, RunMode::Normal, Color::Never, false, &Vec::new()) {
        Err(lun::config::ConfigError::InvalidIgnoreGlob { pattern, tool }) => {
            assert_eq!(pattern, "{a");
            assert_eq!(tool, "b");
        }
        other => panic!("unexpected {:?}", other.map(|t| t.len())),
    }
    let mut run = run_opts();
    run.skip_tool = strings(&["b"]);
    match filter_tools(&run, &config, RunMode::Normal, Color::Never, false, &Vec::new()) {
        Err(lun::config::ConfigError::InvalidFilesGlob { pattern, tool }) => {
            assert_eq!(pattern, "a[b");
            assert_eq!(tool, "f");
        }
        other => panic!("unexpected {:?}", other.map(|t| t.len())),
    }
}

#[test]
fn valid_patterns_filter_files() {
    assert_eq!(kept(&["**/*.rs", "{a,b}.py"], &["[b]*"]), strings(&["a.py", "src/a.rs"]));
    let mut files = vec![file("a.py")];
    // the only patterns are looked at first
    assert!(matches!(
        filter_files(&mut files, &strings(&["a[b"]), &strings(&["{a"])),
        Err(lun::config::ConfigError::InvalidOnlyGlob { pattern }) if pattern == "a[b"
    ));
    assert!(matches!(
        filter_files(&mut files, &strings(&["*", "a[b", "{a"]), &Vec::new()),
        Err(lun::config::ConfigError::InvalidOnlyGlob { pattern }) if pattern == "a[b"
    ));
}

#[test]
fn distinct_files_are_counted() {
    let t = Arc::new(
        Linter { tool: tool(None, "lint", &["*"]), fix: None }
            .into_tool(
                RunMode::Normal,
                false,
                Color::Never,
                false,
                &Vec::new(),
                &Probe { configs: Vec::new(), version: None, env: Vec::new() },
            )
            .unwrap(),
    );
    let jobs = vec![
        Command { tool: t.clone(), files: vec![file("a"), file("b")] },
        Command { tool: t.clone(), files: vec![] },
        Command { tool: t.clone(), files: vec![file("b"), file("c"), file("a")] },
    ];
    assert_eq!(files_linted(&jobs), 3);
    assert_eq!(files_linted(&Vec::new()), 0);
}

#[test]
fn names_of_levels_warnings_and_groups() {
    assert_eq!(Level::Allow.as_str(), "allow");
    assert_eq!(Level::Warn.as_str(), "warn");
    assert_eq!(Level::Deny.as_str(), "deny");
    for w in Warn::all() {
        assert_eq!(Warn::parse(w.as_str()), Some(w));
        assert_eq!(Warn::from_str(w.as_str()), Ok(w));
        assert!(!w.help().is_empty());
        assert!(w.doc().starts_with(&format!("# `{}`", w.as_str())));
    }
    assert_eq!(Warn::all().len(), 9);
    assert_eq!(Warn::UnknownWarning.as_str(), "unknown-lint");
    assert_eq!(Warn::NoFiles.as_str(), "no-files");
    assert_eq!(Warn::parse("bogus"), None);
    assert_eq!(Warn::from_str("all"), Err(()));
    assert_eq!(Warn::UnknownWarning.default_level(), Level::Deny);
    assert_eq!(Warn::UnknownTool.default_level(), Level::Warn);
    assert_eq!(Warn::NoFiles.default_level(), Level::Deny);
    assert_eq!(Warn::Careful.default_level(), Level::Allow);
    assert_eq!(Warn::UnknownTool.help(), "Unknown tool name passed to `--skip-tool` or `--only-tool`");
    assert_eq!(Group::all(), vec![Group::All, Group::Pedantic]);
    assert_eq!(Group::All.into_str(), "all");
    assert_eq!(Group::parse("pedantic"), Some(Group::Pedantic));
    assert_eq!(Group::from_str("careful"), Err(()));
    assert_eq!(Group::All.warns(), vec![Warn::UnknownWarning, Warn::UnknownTool, Warn::UnlistedConfig]);
    assert_eq!(Group::Pedantic.warns().len(), 6);
}

#[test]
fn levels_are_set_and_reset() {
    let mut warns = Warns::new();
    assert_eq!(warns.level(Warn::Mtime), Level::Allow);
    warns.deny(Warn::Mtime);
    assert_eq!(warns.level(Warn::Mtime), Level::Deny);
    warns.warn(Warn::Mtime);
    warns.warn(Warn::Mtime);
    assert_eq!(warns.level(Warn::Mtime), Level::Warn);
    assert!(warns.deny.is_empty());
    assert_eq!(warns.warn, vec![Warn::Mtime]);
    warns.allow(Warn::UnknownWarning);
    assert_eq!(warns.level(Warn::UnknownWarning), Level::Allow);
    assert_eq!(warns.level(Warn::Mtime), Level::Warn);
}

#[test]
fn names_are_processed_in_order() {
    let mut warns = Warns::new();
    let unknown = warns.process_warnings(
        &strings(&["mtime", "nope", "refs"]),
        &strings(&["pedantic", "nah"]),
        &strings(&["refs", "all", "never"]),
    );
    assert_eq!(
        unknown,
        vec![
            (Level::Allow, "nope".to_string()),
            (Level::Warn, "nah".to_string()),
            (Level::Deny, "never".to_string())
        ]
    );
    assert_eq!(warns.level(Warn::Mtime), Level::Warn);
    assert_eq!(warns.level(Warn::Careful), Level::Warn);
    assert_eq!(warns.level(Warn::Refs), Level::Deny);
    assert_eq!(warns.level(Warn::UnknownTool), Level::Deny);
    assert_eq!(warns.level(Warn::NoFiles), Level::Deny);
    assert_eq!(warns.level(Warn::CacheFull), Level::Warn);
}

#[test]
fn command_line_wins_over_configuration() {
    let mut config = empty_config();
    config.warns.deny = strings(&["mtime", "bogus"]);
    config.warns.allow = strings(&["unknown-lint"]);
    let opts = WarnOpts { allow: strings(&["mtime"]), warn: Vec::new(), deny: Vec::new() };
    let warns = Warns::from_cli_and_config(&opts, Some(&config)).unwrap();
    assert_eq!(warns.level(Warn::Mtime), Level::Allow);
    // an unknown name on the command line is let through where the
    // configuration allows it
    let opts = WarnOpts { allow: Vec::new(), warn: strings(&["bogus"]), deny: Vec::new() };
    assert!(Warns::from_cli_and_config(&opts, Some(&config)).is_ok());
    let denied = Warns::from_cli_and_config(&opts, None).unwrap_err();
    assert_eq!(denied.message, "found unknown warning names and --deny=unknown-lint");
    assert_eq!(denied.errors, strings(&["unknown warning `bogus` specified in `--warn`"]));
    // an unknown name in the configuration alone is let through
    let opts = WarnOpts { allow: Vec::new(), warn: Vec::new(), deny: Vec::new() };
    let mut config = empty_config();
    config.warns.deny = strings(&["bogus"]);
    assert!(Warns::from_cli_and_config(&opts, Some(&config)).is_ok());
}

fn at(level: Level, warn: Warn) -> Warns {
    let mut warns = Warns::new();
    match level {
        Level::Allow => warns.allow(warn),
        Level::Warn => warns.warn(warn),
        Level::Deny => warns.deny(warn),
    }
    warns
}

#[test]
fn simple_checks() {
    for (careful_cli, careful_config) in [(true, false), (false, true)] {
        assert_eq!(check_careful(&at(Level::Deny, Warn::Careful), careful_cli, careful_config).unwrap(), Vec::<String>::new());
    }
    assert_eq!(check_careful(&Warns::new(), false, false).unwrap(), Vec::<String>::new());
    assert_eq!(
        check_careful(&at(Level::Warn, Warn::Careful), false, false).unwrap(),
        strings(&["--careful is not set at CLI or config level"])
    );
    let denied = check_careful(&at(Level::Deny, Warn::Careful), false, false).unwrap_err();
    assert_eq!(denied.message, "--careful is not set and --deny=careful");
    assert_eq!(denied.errors, strings(&["--careful is not set at CLI or config level"]));

    assert_eq!(check_mtime(&at(Level::Warn, Warn::Mtime), false, true).unwrap(), strings(&["mtime is enabled"]));
    assert!(check_mtime(&at(Level::Deny, Warn::Mtime), true, true).is_ok());
    assert!(check_mtime(&at(Level::Deny, Warn::Mtime), false, false).is_ok());
    let denied = check_mtime(&at(Level::Deny, Warn::Mtime), false, true).unwrap_err();
    assert_eq!(denied.message, "mtime is set and --deny=mtime");
    assert_eq!(denied.errors, strings(&["mtime is enabled on CLI or config file"]));

    assert!(check_refs(&at(Level::Deny, Warn::Refs), &Vec::new(), &Vec::new()).is_ok());
    assert_eq!(
        check_refs(&at(Level::Warn, Warn::Refs), &Vec::new(), &strings(&["main"])).unwrap(),
        strings(&["refs is used on CLI or config file"])
    );
    assert_eq!(
        check_refs(&at(Level::Deny, Warn::Refs), &strings(&["main"]), &Vec::new()).unwrap_err().message,
        "refs is used and --deny=refs"
    );

    assert!(check_cache_full(&at(Level::Deny, Warn::CacheFull), false).is_ok());
    assert_eq!(
        check_cache_full(&Warns::new(), true).unwrap(),
        strings(&["cache is full and entries are being dropped"])
    );
    assert_eq!(
        check_cache_full(&at(Level::Deny, Warn::CacheFull), true).unwrap_err().message,
        "cache is full and --deny=cache-full"
    );
    assert!(check_cache_full(&at(Level::Allow, Warn::CacheFull), true).unwrap().is_empty());
}

#[test]
fn cache_usage() {
    assert!(check_cache_usage(&Warns::new(), 25, 100).unwrap().is_empty());
    assert_eq!(
        check_cache_usage(&Warns::new(), 26, 100).unwrap(),
        strings(&["single execution added 26 cache entries (26% of cache size)"])
    );
    assert_eq!(
        check_cache_usage(&Warns::new(), 1001, 3).unwrap(),
        strings(&["single execution added 1001 cache entries (33366% of cache size)"])
    );
    assert_eq!(
        check_cache_usage(&Warns::new(), 2, 0).unwrap(),
        strings(&["single execution added 2 cache entries (200% of cache size)"])
    );
    assert!(check_cache_usage(&Warns::new(), 0, 0).unwrap().is_empty());
    let denied = check_cache_usage(&at(Level::Deny, Warn::CacheUsage), 50, 100).unwrap_err();
    assert_eq!(denied.message, "single execution uses more than a quarter of cache size and --deny=cache-usage");
    assert_eq!(denied.errors, strings(&["single execution added 50 cache entries (50% of cache size)"]));
}

#[test]
fn unknown_tools() {
    let mut config = empty_config();
    config.linter = vec![Linter { tool: tool(Some("a"), "a", &["*"]), fix: None }, Linter { tool: tool(None, "b", &["*"]), fix: None }];
    config.formatter = vec![Formatter { tool: tool(Some("f"), "f", &["*"]), check: None }];
    let lines = check_unknown_tools(&Warns::new(), &strings(&["a", "x", "b"]), &strings(&["f", "y"]), &config).unwrap();
    assert_eq!(
        lines,
        strings(&[
            "unknown tool `x` specified in --skip-tool",
            "unknown tool `b` specified in --skip-tool",
            "unknown tool `y` specified in --only-tool"
        ])
    );
    assert!(check_unknown_tools(&Warns::new(), &strings(&["a"]), &strings(&["f"]), &config).unwrap().is_empty());
    assert!(check_unknown_tools(&at(Level::Allow, Warn::UnknownTool), &strings(&["x"]), &Vec::new(), &config).unwrap().is_empty());
    let denied = check_unknown_tools(&at(Level::Deny, Warn::UnknownTool), &strings(&["x"]), &Vec::new(), &config).unwrap_err();
    assert_eq!(denied.message, "found unknown tool names and --deny=unknown-tool");
    assert_eq!(denied.errors, strings(&["unknown tool `x` specified in --skip-tool"]));
}

#[test]
fn unlisted_configs() {
    let mut config = empty_config();
    let mut ruff = tool(Some("ruff check"), "ruff check --", &["*.py"]);
    ruff.configs = strings(&["ruff.toml"]);
    config.linter = vec![Linter { tool: ruff, fix: None }, Linter { tool: tool(Some("mine"), "mine", &["*"]), fix: None }];
    config.formatter = vec![Formatter { tool: tool(Some("cargo fmt"), "cargo fmt", &["*.rs"]), check: None }];
    let existing = strings(&["pyproject.toml", "ruff.toml", "rustfmt.toml", "other.toml"]);
    assert!(check_unlisted_config(&Warns::new(), &config, &existing).unwrap().is_empty());
    let lines = check_unlisted_config(&at(Level::Warn, Warn::UnlistedConfig), &config, &existing).unwrap();
    assert_eq!(
        lines,
        strings(&[
            "tool `ruff check` has unlisted config file `pyproject.toml`",
            "tool `cargo fmt` has unlisted config file `rustfmt.toml`"
        ])
    );
    let denied = check_unlisted_config(&at(Level::Deny, Warn::UnlistedConfig), &config, &existing).unwrap_err();
    assert_eq!(denied.message, "found unlisted config files and --deny=unlisted-config");
    assert_eq!(denied.errors.len(), 2);
    assert!(check_unlisted_config(&at(Level::Deny, Warn::UnlistedConfig), &config, &Vec::new()).is_ok());
}

#[test]
fn tools_without_files() {
    let mut config = empty_config();
    config.linter = vec![Linter { tool: tool(Some("a"), "a --", &[]), fix: None }, Linter { tool: tool(None, "b --", &["*"]), fix: None }];
    config.formatter = vec![Formatter { tool: tool(None, "f --", &[]), check: None }];
    let denied = check_no_files(&Warns::new(), &config).unwrap_err();
    assert_eq!(denied.message, "found tools with empty `files` arrays and --deny=no-files");
    assert_eq!(denied.errors, strings(&["tool `a` has empty `files` array", "tool `f --` has empty `files` array"]));
    assert_eq!(check_no_files(&at(Level::Warn, Warn::NoFiles), &config).unwrap().len(), 2);
    assert!(check_no_files(&Warns::new(), &empty_config()).is_ok());
}

#[test]
fn checks_run_in_order() {
    let mut config = empty_config();
    config.linter = vec![Linter { tool: tool(Some("a"), "a --", &["*"]), fix: None }];
    config.refs = strings(&["main"]);
    let mut run = run_opts();
    run.skip_tool = strings(&["x"]);
    let mut warns = Warns::new();
    warns.warn(Warn::Careful);
    warns.warn(Warn::Mtime);
    warns.warn(Warn::Refs);
    assert_eq!(
        lint(&run, &config, &warns, &Vec::new()).unwrap(),
        strings(&[
            "unknown tool `x` specified in --skip-tool",
            "--careful is not set at CLI or config level",
            "mtime is enabled",
            "refs is used on CLI or config file"
        ])
    );
    warns.deny(Warn::Refs);
    warns.deny(Warn::Careful);
    assert_eq!(lint(&run, &config, &warns, &Vec::new()).unwrap_err().message, "--careful is not set and --deny=careful");
    run.careful = true;
    assert_eq!(lint(&run, &config, &warns, &Vec::new()).unwrap_err().message, "refs is used and --deny=refs");
}
