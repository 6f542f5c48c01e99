use lun::cli::{Cli, Color, Command, LogOptions, Run, WarnOpts};
use lun::config::{Config, Granularity, Linter, Tool, WarnCfg};
use lun::dispatch::{go, GoError, Task};

fn run_opts() -> Run {
    Run {
        careful: false,
        check: false,
        dry_run: true,
        on_failure: None,
        fix: false,
        format: false,
        jobs: None,
        keep_going: false,
        no_mtime: false,
        ninja: false,
        no_batch: false,
        no_capture: false,
        only_tool: Vec::new(),
        skip_tool: Vec::new(),
        only_files: Vec::new(),
        skip_files: Vec::new(),
        staged: false,
        on_success: None,
        refs: Vec::new(),
        watch: false,
        cache_size: None,
        fresh: false,
        no_cache: false,
        no_refs: false,
    }
}

fn strings(names: &[&str]) -> Vec<String> {
    names.iter().map(|n| n.to_string()).collect()
}

fn cli(allow: &[&str], warn: &[&str], deny: &[&str], run: Run) -> Cli {
    Cli {
        cache: ".lun".to_string(),
        config: "test.toml".to_string(),
        log: LogOptions { color: Color::Auto, log_timestamp: false, quiet: 0, verbose: 0 },
        warn: WarnOpts { allow: strings(allow), warn: strings(warn), deny: strings(deny) },
        command: Command::Run(run),
    }
}

/// A configuration with one tool: `cmd = "lint --"`, the given `files`,
/// `granularity = "individual"`, and `name` where one is given.
fn config(name: Option<&str>, files: &[&str]) -> Config {
    Config {
        linter: vec![Linter {
            tool: Tool {
                name: name.map(|n| n.to_string()),
                cmd: "lint --".to_string(),
                files: strings(files),
                ignore: Vec::new(),
                granularity: Granularity::Individual,
                configs: Vec::new(),
                cd: None,
            },
            fix: None,
        }],
        formatter: Vec::new(),
        cache_size: None,
        careful: false,
        cores: None,
        ignore: Vec::new(),
        mtime: true,
        ninja: None,
        refs: Vec::new(),
        tool: Vec::new(),
        warns: WarnCfg { allow: Vec::new(), warn: Vec::new(), deny: Vec::new() },
    }
}

fn test(cli: Cli, config: Config) -> Result<(), String> {
    match go(&cli, Some(&config), &Vec::new()) {
        Ok(Task::Run { .. }) => Ok(()),
        Ok(other) => panic!("unexpected task {:?}", other),
        Err(e) => Err(e.message()),
    }
}

#[test]
fn unknown_tool_success() {
    let mut run = run_opts();
    run.only_tool = strings(&["mylinter"]);
    test(cli(&[], &[], &[], run), config(Some("mylinter"), &["*.py"])).unwrap();
}

#[test]
fn unknown_tool_failure() {
    let mut run = run_opts();
    run.only_tool = strings(&["bogus"]);
    let result = test(cli(&[], &[], &["unknown-tool"], run), config(Some("mylinter"), &["*.py"]));
    assert_eq!(result.unwrap_err(), "found unknown tool names and --deny=unknown-tool");
}

#[test]
fn careful_success() {
    let mut run = run_opts();
    run.careful = true;
    test(cli(&[], &[], &[], run), config(None, &["*.py"])).unwrap();
}

#[test]
fn careful_failure() {
    let result = test(cli(&[], &[], &["careful"], run_opts()), config(None, &["*.py"]));
    assert_eq!(result.unwrap_err(), "--careful is not set and --deny=careful");
}

#[test]
fn mtime_success() {
    test(cli(&[], &[], &[], run_opts()), config(None, &["*.py"])).unwrap();
}

#[test]
fn mtime_failure() {
    let result = test(cli(&[], &[], &["mtime"], run_opts()), config(None, &["*.py"]));
    assert_eq!(result.unwrap_err(), "mtime is set and --deny=mtime");
}

#[test]
fn refs_success() {
    test(cli(&[], &[], &[], run_opts()), config(None, &["*.py"])).unwrap();
}

#[test]
fn refs_failure() {
    let mut run = run_opts();
    run.refs = strings(&["main"]);
    let result = test(cli(&[], &[], &["refs"], run), config(None, &["*.py"]));
    assert_eq!(result.unwrap_err(), "refs is used and --deny=refs");
}

#[test]
fn unknown_warn_success() {
    test(cli(&[], &[], &["unknown-tool"], run_opts()), config(None, &["*.py"])).unwrap();
}

#[test]
fn unknown_warn_failure() {
    let result = test(cli(&["bogus-warn"], &[], &[], run_opts()), config(None, &["*.py"]));
    assert_eq!(result.unwrap_err(), "found unknown warning names and --deny=unknown-lint");
}

#[test]
fn no_files_success() {
    test(cli(&["no-files"], &[], &[], run_opts()), config(None, &[])).unwrap();
}

#[test]
fn no_files_failure() {
    let result = test(cli(&[], &[], &[], run_opts()), config(None, &[]));
    assert_eq!(
        result.unwrap_err(),
        "found tools with empty `files` arrays and --deny=no-files"
    );
}

#[test]
fn run_without_config_is_refused() {
    let result = go(&cli(&[], &[], &[], run_opts()), None, &Vec::new());
    match result {
        Err(GoError::NoConfig) => {}
        other => panic!("unexpected {:?}", other),
    }
}
