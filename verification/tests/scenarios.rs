use std::sync::Arc;

use lun::cache::{CacheWriter, HashCache, Key};
use lun::cli::{Color, Run};
use lun::cmd::Command;
use lun::config::{Config, Formatter, Granularity, Linter, Probe, Tool, WarnCfg};
use lun::file::{compute_hash, File, Stamp, Xxhash};
use lun::plan;
use lun::run::{filter_files, RunMode};

struct TestFile {
    path: &'static str,
    size: usize,
}

impl TestFile {
    fn to_file(&self) -> File {
        let mut metadata = self.path.as_bytes().to_vec();
        metadata.extend_from_slice(&self.size.to_le_bytes());
        let content = "x".repeat(self.size);
        File {
            path: self.path.to_string(),
            size: self.size,
            metadata_stamp: Stamp(compute_hash(&metadata)),
            mtime_stamp: Stamp(Xxhash(0)),
            content_stamp: Some(Stamp(compute_hash(content.as_bytes()))),
        }
    }
}

struct Scenario {
    config: Config,
    files: Vec<TestFile>,
    run: Run,
    color: Color,
    expected_output: Vec<&'static str>,
    failed_commands: Vec<&'static str>,
}

fn default_run() -> Run {
    Run {
        careful: false,
        check: false,
        dry_run: false,
        on_failure: None,
        fix: false,
        format: false,
        jobs: None,
        keep_going: false,
        no_mtime: false,
        ninja: false,
        no_batch: false,
        no_capture: false,
        only_tool: Vec::new(),
        skip_tool: Vec::new(),
        only_files: Vec::new(),
        skip_files: Vec::new(),
        staged: false,
        on_success: None,
        refs: Vec::new(),
        watch: false,
        cache_size: None,
        fresh: false,
        no_cache: false,
        no_refs: false,
    }
}

fn empty_config() -> Config {
    Config {
        linter: Vec::new(),
        formatter: Vec::new(),
        cache_size: None,
        careful: false,
        cores: None,
        ignore: Vec::new(),
        mtime: false,
        ninja: None,
        refs: Vec::new(),
        tool: Vec::new(),
        warns: WarnCfg { allow: Vec::new(), warn: Vec::new(), deny: Vec::new() },
    }
}

fn tool(cmd: &str, files: &[&str], granularity: Granularity) -> Tool {
    Tool {
        name: None,
        cmd: cmd.to_string(),
        files: files.iter().map(|f| f.to_string()).collect(),
        ignore: Vec::new(),
        granularity,
        configs: Vec::new(),
        cd: None,
    }
}

fn linter(cmd: &str, files: &[&str], granularity: Granularity) -> Linter {
    Linter { tool: tool(cmd, files, granularity), fix: None }
}

fn config_with(linters: Vec<Linter>, cores: Option<usize>) -> Config {
    let mut config = empty_config();
    config.linter = linters;
    config.cores = cores;
    config
}

fn no_probe() -> Probe {
    Probe { configs: Vec::new(), version: None, env: Vec::new() }
}

fn command_to_string(cmd: &Command) -> String {
    let inv = cmd.try_to_command().unwrap();
    let cmd_str = format!("{} {}", inv.program, inv.args.join(" "));
    match inv.cd {
        Some(cd) => format!("cd {} && {}", cd, cmd_str),
        None => cmd_str,
    }
}

fn run_scenarios(scenarios: Vec<Scenario>) {
    assert!(!scenarios.is_empty());
    let mut cache = HashCache::new(".lun".to_string(), usize::MAX);
    for (i, scenario) in scenarios.iter().enumerate() {
        let run = &scenario.run;
        let mut files: Vec<File> = scenario.files.iter().map(TestFile::to_file).collect();
        filter_files(&mut files, &run.only_files, &run.skip_files).unwrap();
        let cores = scenario.config.cores.unwrap_or(1);
        let run_mode = RunMode::of(run);
        let mut tools = Vec::new();
        if !run.format {
            for l in &scenario.config.linter {
                let t = l
                    .clone()
                    .into_tool(run_mode, false, scenario.color, false, &scenario.config.ignore, &no_probe())
                    .unwrap();
                tools.push(Arc::new(t));
            }
        }
        for f in &scenario.config.formatter {
            let t = f
                .clone()
                .into_tool(run_mode, false, scenario.color, false, &scenario.config.ignore, &no_probe())
                .unwrap();
            tools.push(Arc::new(t));
        }
        let changed = vec![true; files.len()];
        let batches = plan::plan(&mut cache, &tools, &files, &changed, cores, run.no_batch, false);
        let out: Vec<String> = batches.iter().map(command_to_string).collect();
        assert_eq!(out, scenario.expected_output, "Scenario {} output mismatch", i + 1);
        for cmd in &batches {
            let cmd_str = command_to_string(cmd);
            if !scenario.failed_commands.contains(&cmd_str.as_str()) {
                for file in &cmd.files {
                    let key = Key::new(file.content_stamp(), cmd.tool.stamp);
                    cache.done(&key);
                }
            }
        }
    }
}

fn py_lint(cores: Option<usize>) -> Config {
    config_with(vec![linter("lint --", &["*.py"], Granularity::Individual)], cores)
}

#[test]
fn batch2() {
    let files = || {
        vec![
            TestFile { path: "a.py", size: 100 },
            TestFile { path: "b.py", size: 80 },
            TestFile { path: "c.py", size: 30 },
            TestFile { path: "d.py", size: 20 },
        ]
    };
    run_scenarios(vec![
        Scenario {
            config: py_lint(Some(2)),
            files: files(),
            run: default_run(),
            color: Color::Auto,
            expected_output: vec!["lint -- a.py d.py", "lint -- b.py c.py"],
            failed_commands: vec![],
        },
        Scenario {
            config: py_lint(Some(2)),
            files: files(),
            run: default_run(),
            color: Color::Auto,
            expected_output: vec![],
            failed_commands: vec![],
        },
    ]);
}

#[test]
fn batch3() {
    run_scenarios(vec![Scenario {
        config: py_lint(Some(3)),
        files: vec![
            TestFile { path: "a.py", size: 10 },
            TestFile { path: "b.py", size: 50 },
            TestFile { path: "c.py", size: 20 },
            TestFile { path: "d.py", size: 40 },
            TestFile { path: "e.py", size: 30 },
        ],
        run: default_run(),
        color: Color::Auto,
        // Largest first: b (50), d (40), e (30) open the three batches, then
        // c (20) joins e and a (10) joins d.
        expected_output: vec!["lint -- b.py", "lint -- a.py d.py", "lint -- c.py e.py"],
        failed_commands: vec![],
    }]);
}

#[test]
fn cd() {
    let mut l = linter("lint --", &["sub/*.py"], Granularity::Individual);
    l.tool.cd = Some("sub".to_string());
    run_scenarios(vec![Scenario {
        config: config_with(vec![l], None),
        files: vec![TestFile { path: "sub/a.py", size: 8 }, TestFile { path: "b.py", size: 8 }],
        run: default_run(),
        color: Color::Auto,
        expected_output: vec!["cd sub && lint -- a.py"],
        failed_commands: vec![],
    }]);
}

#[test]
fn changing_cli() {
    run_scenarios(vec![
        Scenario {
            config: py_lint(None),
            files: vec![TestFile { path: "file.py", size: 8 }],
            run: default_run(),
            color: Color::Auto,
            expected_output: vec!["lint -- file.py"],
            failed_commands: vec![],
        },
        Scenario {
            config: config_with(
                vec![linter("lint --some-flag --", &["*.py"], Granularity::Individual)],
                None,
            ),
            files: vec![TestFile { path: "file.py", size: 8 }],
            run: default_run(),
            color: Color::Auto,
            expected_output: vec!["lint --some-flag -- file.py"],
            failed_commands: vec![],
        },
    ]);
}

#[test]
fn color() {
    let config =
        || config_with(vec![linter("lint --color={{color}} --", &["*.py"], Granularity::Individual)], None);
    run_scenarios(vec![
        Scenario {
            config: config(),
            files: vec![TestFile { path: "file.py", size: 8 }],
            run: default_run(),
            color: Color::Always,
            expected_output: vec!["lint --color=always -- file.py"],
            failed_commands: vec![],
        },
        Scenario {
            config: config(),
            files: vec![TestFile { path: "file.py", size: 8 }],
            run: default_run(),
            color: Color::Never,
            expected_output: vec!["lint --color=never -- file.py"],
            failed_commands: vec![],
        },
    ]);
}

#[test]
fn fail() {
    let files = || vec![TestFile { path: "a.py", size: 8 }, TestFile { path: "b.py", size: 9 }];
    run_scenarios(vec![
        Scenario {
            config: py_lint(Some(4)),
            files: files(),
            run: default_run(),
            color: Color::Auto,
            expected_output: vec!["lint -- a.py", "lint -- b.py"],
            failed_commands: vec!["lint -- b.py"],
        },
        Scenario {
            config: py_lint(Some(4)),
            files: files(),
            run: default_run(),
            color: Color::Auto,
            expected_output: vec!["lint -- b.py"],
            failed_commands: vec![],
        },
        Scenario {
            config: py_lint(Some(4)),
            files: files(),
            run: default_run(),
            color: Color::Auto,
            expected_output: vec![],
            failed_commands: vec![],
        },
    ]);
}

#[test]
fn format() {
    let mut config = py_lint(None);
    config.formatter = vec![Formatter {
        tool: tool("fmt --", &["*.py"], Granularity::Individual),
        check: Some("fmt --check --".to_string()),
    }];
    let mut run = default_run();
    run.format = true;
    run_scenarios(vec![Scenario {
        config,
        files: vec![TestFile { path: "file.py", size: 8 }],
        run,
        color: Color::Auto,
        expected_output: vec!["fmt -- file.py"],
        failed_commands: vec![],
    }]);
}

#[test]
fn no_batch() {
    let mut run = default_run();
    run.no_batch = true;
    run_scenarios(vec![Scenario {
        config: py_lint(Some(2)),
        files: vec![
            TestFile { path: "a.py", size: 100 },
            TestFile { path: "b.py", size: 80 },
            TestFile { path: "c.py", size: 30 },
        ],
        run,
        color: Color::Auto,
        expected_output: vec!["lint -- a.py", "lint -- b.py", "lint -- c.py"],
        failed_commands: vec![],
    }]);
}

#[test]
fn only_files() {
    let mut run = default_run();
    run.only_files = vec!["a*.py".to_string()];
    run_scenarios(vec![Scenario {
        config: py_lint(None),
        files: vec![TestFile { path: "a.py", size: 8 }, TestFile { path: "b.py", size: 8 }],
        run,
        color: Color::Auto,
        expected_output: vec!["lint -- a.py"],
        failed_commands: vec![],
    }]);
}

#[test]
fn skip_files() {
    let mut run = default_run();
    run.skip_files = vec!["a*.py".to_string()];
    run_scenarios(vec![Scenario {
        config: py_lint(None),
        files: vec![TestFile { path: "a.py", size: 8 }, TestFile { path: "b.py", size: 8 }],
        run,
        color: Color::Auto,
        expected_output: vec!["lint -- b.py"],
        failed_commands: vec![],
    }]);
}

#[test]
fn twice() {
    let scenario = |expected: Vec<&'static str>| Scenario {
        config: py_lint(None),
        files: vec![TestFile { path: "a.py", size: 8 }, TestFile { path: "b.py", size: 9 }],
        run: default_run(),
        color: Color::Auto,
        expected_output: expected,
        failed_commands: vec![],
    };
    run_scenarios(vec![scenario(vec!["lint -- a.py b.py"]), scenario(vec![])]);
}

#[test]
fn batch_granularity_keeps_files_together() {
    let files = vec![
        TestFile { path: "a.py", size: 1 },
        TestFile { path: "b.py", size: 2 },
        TestFile { path: "c.py", size: 3 },
        TestFile { path: "d.py", size: 4 },
        TestFile { path: "e.py", size: 5 },
    ];
    let mut cache = HashCache::new(".lun".to_string(), 1000);
    let t = linter("lint --", &["*.py"], Granularity::Batch)
        .into_tool(RunMode::Normal, false, Color::Never, false, &Vec::new(), &no_probe())
        .unwrap();
    let files: Vec<File> = files.iter().map(TestFile::to_file).collect();
    let changed = vec![true; files.len()];
    let batches = plan::plan(&mut cache, &vec![Arc::new(t)], &files, &changed, 4, false, true);
    assert_eq!(batches.len(), 1);
    let paths: Vec<&str> = batches[0].files.iter().map(|f| f.path.as_str()).collect();
    assert_eq!(paths, vec!["a.py", "b.py", "c.py", "d.py", "e.py"]);
    assert_eq!(command_to_string(&batches[0]), "lint -- a.py b.py c.py d.py e.py");
}
