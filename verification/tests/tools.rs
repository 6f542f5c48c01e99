use lun::add::{gen_tool, AddError, Added};
use lun::cli::{Add, Color, Init};
use lun::cmd::Command;
use lun::config::{
    build_config_hash, build_files_globset, build_ignore_globset, build_tool_globsets,
    build_tool_stamp, color_to_str, default_mtime, env_prefix, is_default_mtime, starts_with,
    version_output, Config, ConfigError, Formatter, Granularity, KnownTool, Linter, Probe, Tool,
    WarnCfg,
};
use lun::file::{compute_hash, File, FileError, Metadata, Stamp, Xxhash};
use lun::init::{collect_tools, gen_config, get_known_tools, InitError};
use lun::known::{
    known_formatter_by_name, known_formatters, known_linter_by_name, known_linters,
    known_tools_by_name,
};
use lun::ninja::{cmd_hash, describe, escape_ninja_string, generate_ninja_file, targets, tgt_name};
use lun::run::RunMode;
use std::sync::Arc;

fn strings(names: &[&str]) -> Vec<String> {
    names.iter().map(|n| n.to_string()).collect()
}

fn tool(cmd: &str) -> Tool {
    Tool {
        name: None,
        cmd: cmd.to_string(),
        files: strings(&["*.py"]),
        ignore: Vec::new(),
        granularity: Granularity::Individual,
        configs: Vec::new(),
        cd: None,
    }
}

fn no_probe() -> Probe {
    Probe { configs: Vec::new(), version: None, env: Vec::new() }
}

fn env(vars: &[(&str, &str)]) -> Vec<(Vec<u8>, Vec<u8>)> {
    vars.iter().map(|(k, v)| (k.as_bytes().to_vec(), v.as_bytes().to_vec())).collect()
}

#[test]
fn defaults() {
    assert!(default_mtime());
    assert!(is_default_mtime(&true));
    assert!(!is_default_mtime(&false));
    assert_eq!(Granularity::default(), Granularity::Individual);
}

#[test]
fn colour_words() {
    assert_eq!(color_to_str(Color::Always, false), "always");
    assert_eq!(color_to_str(Color::Never, true), "never");
    assert_eq!(color_to_str(Color::Auto, true), "always");
    assert_eq!(color_to_str(Color::Auto, false), "never");
}

#[test]
fn effective_command() {
    let linter = Linter { tool: tool("lint --color={{color}} {{color}} --"), fix: Some("lint --fix {{color}}".to_string()) };
    let made = |mode, color| {
        linter.clone().into_tool(mode, false, color, false, &Vec::new(), &no_probe()).unwrap().cmd
    };
    assert_eq!(made(RunMode::Normal, Color::Always), "lint --color=always always --");
    assert_eq!(made(RunMode::Check, Color::Never), "lint --color=never never --");
    assert_eq!(made(RunMode::Fix, Color::Auto), "lint --fix never");
    let plain = Linter { tool: tool("lint --"), fix: None };
    assert_eq!(
        plain.into_tool(RunMode::Fix, false, Color::Always, false, &Vec::new(), &no_probe()).unwrap().cmd,
        "lint --"
    );
    let formatter = Formatter { tool: tool("fmt --"), check: Some("fmt --check --".to_string()) };
    let made = |mode| {
        formatter.clone().into_tool(mode, false, Color::Never, true, &Vec::new(), &no_probe()).unwrap().cmd
    };
    assert_eq!(made(RunMode::Normal), "fmt --");
    assert_eq!(made(RunMode::Fix), "fmt --");
    assert_eq!(made(RunMode::Check), "fmt --check --");
}

#[test]
fn made_tool_keeps_the_settings() {
    let mut config = tool("lint --");
    config.name = Some("mylint".to_string());
    config.granularity = Granularity::Batch;
    config.cd = Some("sub".to_string());
    config.ignore = strings(&["b*"]);
    let made = Linter { tool: config, fix: None }
        .into_tool(RunMode::Normal, false, Color::Never, false, &strings(&["c*"]), &no_probe())
        .unwrap();
    assert_eq!(made.name.as_deref(), Some("mylint"));
    assert_eq!(made.display_name(), "mylint");
    assert_eq!(made.granularity, Granularity::Batch);
    assert_eq!(made.cd.as_deref(), Some("sub"));
    let ignore = made.ignore.unwrap();
    assert!(ignore.is_match("b.py"));
    assert!(ignore.is_match("c.py"));
    assert!(!ignore.is_match("a.py"));
    assert!(made.files.is_match("a.py"));
    assert_eq!(made.stamp, build_tool_stamp("lint --", None, None, &Some("sub".to_string()), &Vec::new()));
}

#[test]
fn stamp_is_the_digest_of_its_inputs() {
    let config = Some(Xxhash(3));
    let version = Some(Xxhash(4));
    let vars = env(&[("PATH", "/bin"), ("LINT_B", "2"), ("LINT_A", "1"), ("LINTER", "x"), ("lint_c", "3")]);
    let stamp = build_tool_stamp("lint -v --", config, version, &Some("sub".to_string()), &vars);
    let mut bytes = b"lint -v --".to_vec();
    bytes.extend_from_slice(&3u128.to_le_bytes());
    bytes.extend_from_slice(&4u128.to_le_bytes());
    bytes.extend_from_slice(b"sub");
    bytes.extend_from_slice(b"LINT_A1LINT_B2");
    assert_eq!(stamp, lun::tool::Stamp(compute_hash(&bytes)));
    assert_eq!(
        build_tool_stamp("lint", None, None, &None, &Vec::new()),
        lun::tool::Stamp(compute_hash(b"lint"))
    );
}

#[test]
fn stamp_sensitivity() {
    let base = || build_tool_stamp("lint --", Some(Xxhash(3)), Some(Xxhash(4)), &None, &env(&[("LINT_A", "1")]));
    assert_eq!(base(), base());
    let all = [
        build_tool_stamp("lint -v --", Some(Xxhash(3)), Some(Xxhash(4)), &None, &env(&[("LINT_A", "1")])),
        build_tool_stamp("lint --", Some(Xxhash(5)), Some(Xxhash(4)), &None, &env(&[("LINT_A", "1")])),
        build_tool_stamp("lint --", None, Some(Xxhash(4)), &None, &env(&[("LINT_A", "1")])),
        build_tool_stamp("lint --", Some(Xxhash(3)), Some(Xxhash(6)), &None, &env(&[("LINT_A", "1")])),
        build_tool_stamp("lint --", Some(Xxhash(3)), None, &None, &env(&[("LINT_A", "1")])),
        build_tool_stamp("lint --", Some(Xxhash(3)), Some(Xxhash(4)), &Some("x".to_string()), &env(&[("LINT_A", "1")])),
        build_tool_stamp("lint --", Some(Xxhash(3)), Some(Xxhash(4)), &None, &env(&[("LINT_A", "2")])),
        build_tool_stamp("lint --", Some(Xxhash(3)), Some(Xxhash(4)), &None, &env(&[])),
    ];
    for other in all {
        assert_ne!(other, base());
    }
    // a variable of another program does not count, nor does the order
    assert_eq!(
        build_tool_stamp("lint --", None, None, &None, &env(&[("OTHER_A", "1"), ("LINT_B", "2"), ("LINT_A", "1")])),
        build_tool_stamp("lint --", None, None, &None, &env(&[("LINT_A", "1"), ("LINT_B", "2")]))
    );
}

#[test]
fn version_counts_only_when_careful() {
    let probe = Probe { configs: Vec::new(), version: Some("lint 1.2".to_string()), env: Vec::new() };
    let careless = Linter { tool: tool("lint --"), fix: None }
        .into_tool(RunMode::Normal, false, Color::Never, false, &Vec::new(), &probe)
        .unwrap();
    assert_eq!(careless.stamp, build_tool_stamp("lint --", None, None, &None, &Vec::new()));
    let careful = Linter { tool: tool("lint --"), fix: None }
        .into_tool(RunMode::Normal, true, Color::Never, false, &Vec::new(), &probe)
        .unwrap();
    assert_eq!(
        careful.stamp,
        build_tool_stamp("lint --", None, Some(compute_hash(b"lint 1.2")), &None, &Vec::new())
    );
    assert_ne!(careful.stamp, careless.stamp);
}

#[test]
fn environment_prefix() {
    assert_eq!(env_prefix("lint --"), b"LINT_".to_vec());
    assert_eq!(env_prefix("  cargo-clippy2  --x"), b"CARGO-CLIPPY2_".to_vec());
    assert_eq!(env_prefix(""), b"_".to_vec());
    assert_eq!(env_prefix("  "), b"  _".to_vec());
    assert!(starts_with(b"LINT_A", b"LINT_"));
    assert!(starts_with(b"LINT_", b"LINT_"));
    assert!(!starts_with(b"LINT", b"LINT_"));
    assert!(!starts_with(b"LINTER", b"LINT_"));
    assert!(starts_with(b"x", b""));
}

#[test]
fn config_hash() {
    let md = |len, ns| Metadata { len, posix: None, mtime_ns: Some(ns) };
    assert_eq!(build_config_hash(&Vec::new()), Ok(None));
    let a = ("a.toml".to_string(), Some(md(1, 10)));
    let b = ("b.toml".to_string(), Some(md(2, 20)));
    let missing = ("m.toml".to_string(), None);
    let listed = build_config_hash(&vec![b.clone(), missing.clone(), a.clone()]).unwrap().unwrap();
    let mut bytes = b"a.toml".to_vec();
    bytes.extend_from_slice(&1u64.to_le_bytes());
    bytes.extend_from_slice(&10u128.to_le_bytes());
    bytes.extend_from_slice(b"b.toml");
    bytes.extend_from_slice(&2u64.to_le_bytes());
    bytes.extend_from_slice(&20u128.to_le_bytes());
    assert_eq!(listed, compute_hash(&bytes));
    assert_eq!(build_config_hash(&vec![a.clone(), b.clone()]), Ok(Some(listed)));
    // a changed configuration file gives another digest
    let touched = ("a.toml".to_string(), Some(md(1, 11)));
    assert_ne!(build_config_hash(&vec![touched, b.clone()]), Ok(Some(listed)));
    // only files that are not there: the digest of nothing
    assert_eq!(build_config_hash(&vec![missing]), Ok(Some(compute_hash(b""))));
    let timeless = ("t.toml".to_string(), Some(Metadata { len: 1, posix: None, mtime_ns: None }));
    assert_eq!(build_config_hash(&vec![a, timeless]), Err(FileError::NoMtime));
}

#[test]
fn config_hash_ignores_the_listing_order() {
    let md = |len, ns| Metadata { len, posix: None, mtime_ns: Some(ns) };
    let a = ("a.toml".to_string(), Some(md(1, 10)));
    let b = ("sub/b.toml".to_string(), Some(md(2, 20)));
    let c = ("c.toml".to_string(), None);
    let d = ("d.toml".to_string(), Some(md(4, 40)));
    let listed = build_config_hash(&vec![a.clone(), b.clone(), c.clone(), d.clone()]).unwrap();
    assert!(listed.is_some());
    for other in [
        vec![d.clone(), c.clone(), b.clone(), a.clone()],
        vec![b.clone(), a.clone(), d.clone(), c.clone()],
        vec![c.clone(), d.clone(), a.clone(), b.clone()],
    ] {
        assert_eq!(build_config_hash(&other).unwrap(), listed);
    }
    // a file that is not there adds nothing
    assert_eq!(build_config_hash(&vec![a.clone(), b.clone(), d.clone()]).unwrap(), listed);
    // one path listed twice with different metadata: the order of the two counts
    let again = ("a.toml".to_string(), Some(md(1, 11)));
    assert_ne!(
        build_config_hash(&vec![a.clone(), again.clone()]).unwrap(),
        build_config_hash(&vec![again, a]).unwrap()
    );
}

#[test]
fn variables_of_other_programs_do_not_count() {
    let with = env(&[("PATH", "/bin"), ("LINT_A", "1"), ("HOME", "/root"), ("LINT_A", "2"), ("lint_b", "3")]);
    let without = env(&[("LINT_A", "1"), ("LINT_A", "2")]);
    assert_eq!(
        build_tool_stamp("lint --", None, None, &None, &with),
        build_tool_stamp("lint --", None, None, &None, &without)
    );
    let changed = env(&[("PATH", "/usr/bin"), ("LINT_A", "1"), ("LINT_A", "2")]);
    assert_eq!(
        build_tool_stamp("lint --", None, None, &None, &changed),
        build_tool_stamp("lint --", None, None, &None, &without)
    );
    // variables of one name keep their order
    let mut bytes = b"lint --".to_vec();
    bytes.extend_from_slice(b"LINT_A1LINT_A2");
    assert_eq!(
        build_tool_stamp("lint --", None, None, &None, &with),
        lun::tool::Stamp(compute_hash(&bytes))
    );
}

#[test]
fn without_care_any_version_gives_one_stamp() {
    let make = |version: Option<&str>, careful: bool| {
        let probe = Probe {
            configs: Vec::new(),
            version: version.map(|v| v.to_string()),
            env: env(&[("LINT_A", "1")]),
        };
        Linter { tool: tool("lint --"), fix: None }
            .into_tool(RunMode::Normal, careful, Color::Never, false, &Vec::new(), &probe)
            .unwrap()
            .stamp
    };
    assert_eq!(make(Some("lint 1.2"), false), make(Some("lint 1.3"), false));
    assert_eq!(make(Some("lint 1.2"), false), make(None, false));
    assert_ne!(make(Some("lint 1.2"), true), make(Some("lint 1.3"), true));
    assert_eq!(make(None, true), make(None, false));
}

#[test]
fn config_files_enter_the_stamp() {
    let md = Metadata { len: 1, posix: None, mtime_ns: Some(10) };
    let probe = Probe { configs: vec![("a.toml".to_string(), Some(md))], version: None, env: env(&[("LINT_X", "1")]) };
    let made = Linter { tool: tool("lint --"), fix: None }
        .into_tool(RunMode::Normal, false, Color::Never, false, &Vec::new(), &probe)
        .unwrap();
    let digest = build_config_hash(&probe.configs).unwrap();
    assert_eq!(made.stamp, build_tool_stamp("lint --", digest, None, &None, &probe.env));
    let timeless = Probe {
        configs: vec![("a.toml".to_string(), Some(Metadata { len: 1, posix: None, mtime_ns: None }))],
        version: None,
        env: Vec::new(),
    };
    let mut named = tool("lint --");
    named.name = Some("mylint".to_string());
    match (Linter { tool: named, fix: None }).into_tool(RunMode::Normal, false, Color::Never, false, &Vec::new(), &timeless) {
        Err(ConfigError::NoMtime { tool }) => assert_eq!(tool, "mylint"),
        other => panic!("unexpected {:?}", other.map(|t| t.cmd)),
    }
}

#[test]
fn glob_sets() {
    let set = build_files_globset(&strings(&["*.py", "src/**/*.rs"]), "lint").unwrap();
    assert!(set.is_match("a.py"));
    assert!(set.is_match("src/x/y.rs"));
    assert!(!set.is_match("a.rs"));
    assert!(build_files_globset(&Vec::new(), "lint").unwrap().is_empty());
    match build_files_globset(&strings(&["*.py", "a[b"]), "lint") {
        Err(ConfigError::InvalidFilesGlob { pattern, tool }) => {
            assert_eq!(pattern, "a[b");
            assert_eq!(tool, "lint");
        }
        other => panic!("unexpected {:?}", other.map(|s| s.len())),
    }
    assert!(build_ignore_globset(&Vec::new(), "lint").unwrap().is_none());
    assert!(build_ignore_globset(&strings(&["x*"]), "lint").unwrap().unwrap().is_match("xy"));
    match build_ignore_globset(&strings(&["{a"]), "lint") {
        Err(ConfigError::InvalidIgnoreGlob { pattern, tool }) => {
            assert_eq!(pattern, "{a");
            assert_eq!(tool, "lint");
        }
        other => panic!("unexpected {:?}", other.map(|s| s.map(|s| s.len()))),
    }
    let mut t = tool("lint --");
    t.ignore = strings(&["b*"]);
    let (files, ignore) = build_tool_globsets(&t, &strings(&["c*"])).unwrap();
    assert!(files.is_match("b.py"));
    assert_eq!(ignore.unwrap().len(), 2);
    let (_, ignore) = build_tool_globsets(&tool("lint --"), &Vec::new()).unwrap();
    assert!(ignore.is_none());
}

#[test]
fn version_text() {
    assert_eq!(version_output(true, b"1.0", b"warn"), Some(&b"1.0"[..]));
    assert_eq!(version_output(true, b"", b"2.0"), Some(&b"2.0"[..]));
    assert_eq!(version_output(false, b"1.0", b"2.0"), None);
}

#[test]
fn catalog() {
    let linters = known_linters();
    assert_eq!(linters.len(), 10);
    assert_eq!(linters[0].tool.name.as_deref(), Some("cargo clippy"));
    assert_eq!(linters[0].tool.cmd, "cargo clippy --color={{color}} --all-targets -- --deny warnings");
    assert_eq!(linters[0].tool.granularity, Granularity::Batch);
    assert_eq!(linters[0].fix.as_deref(), Some("cargo clippy --color={{color}} --allow-dirty --fix"));
    assert_eq!(linters[1].tool.name, None);
    assert_eq!(linters[1].tool.configs, strings(&[".hlint.yml", ".hlint.yaml"]));
    assert_eq!(linters[9].tool.files, strings(&[".github/**/*.yml"]));
    let formatters = known_formatters();
    assert_eq!(formatters.len(), 3);
    assert_eq!(formatters[2].tool.name.as_deref(), Some("taplo"));
    assert_eq!(formatters[2].check.as_deref(), Some("taplo format --check --"));
    assert!(formatters[2].tool.configs.is_empty());
}

#[test]
fn catalog_by_name() {
    assert_eq!(known_linter_by_name("mypy").unwrap().tool.cmd, "mypy --strict --");
    assert!(known_linter_by_name("hlint --").is_none());
    assert!(known_linter_by_name("cargo fmt").is_none());
    assert_eq!(known_formatter_by_name("cargo fmt").unwrap().tool.granularity, Granularity::Batch);
    assert!(known_formatter_by_name("mypy").is_none());
    let by_name = known_tools_by_name();
    assert_eq!(by_name.len(), 12);
    assert_eq!(by_name[0].0, "cargo clippy");
    assert_eq!(by_name[1].0, "mdlynx");
    assert_eq!(by_name[9].0, "cargo fmt");
    assert!(by_name.iter().all(|(n, t)| t.name.as_ref() == Some(n)));
    // no name twice
    let mut names: Vec<&str> = by_name.iter().map(|(n, _)| n.as_str()).collect();
    names.sort();
    names.dedup();
    assert_eq!(names.len(), 12);
}

fn empty_config() -> Config {
    Config {
        linter: Vec::new(),
        formatter: Vec::new(),
        cache_size: None,
        careful: false,
        cores: None,
        ignore: Vec::new(),
        mtime: true,
        ninja: None,
        refs: Vec::new(),
        tool: Vec::new(),
        warns: WarnCfg { allow: Vec::new(), warn: Vec::new(), deny: Vec::new() },
    }
}

fn entry(name: &str) -> KnownTool {
    KnownTool {
        name: name.to_string(),
        cmd: None,
        files: Vec::new(),
        ignore: Vec::new(),
        granularity: None,
        configs: Vec::new(),
        cd: None,
        fix: None,
        check: None,
    }
}

#[test]
fn known_tool_entries_are_merged() {
    let mut config = empty_config();
    config.linter.push(Linter { tool: tool("mine"), fix: None });
    let mut ruff = entry("ruff check");
    ruff.cmd = Some("ruff check -q --".to_string());
    ruff.ignore = strings(&["gen/*"]);
    ruff.granularity = Some(Granularity::Batch);
    ruff.cd = Some("py".to_string());
    let mut fmt = entry("cargo fmt");
    fmt.files = strings(&["src/*.rs"]);
    fmt.configs = strings(&["my.toml"]);
    fmt.check = Some("cargo fmt --check".to_string());
    fmt.fix = Some("ignored".to_string());
    config.tool = vec![ruff, fmt, entry("mypy")];
    assert!(config.known_tools().is_ok());
    assert_eq!(config.linter.len(), 3);
    assert_eq!(config.formatter.len(), 1);
    assert_eq!(config.tool.len(), 3);
    let ruff = &config.linter[1];
    assert_eq!(ruff.tool.cmd, "ruff check -q --");
    assert_eq!(ruff.tool.files, strings(&["*.py"]));
    assert_eq!(ruff.tool.ignore, strings(&["gen/*"]));
    assert_eq!(ruff.tool.granularity, Granularity::Batch);
    assert_eq!(ruff.tool.cd.as_deref(), Some("py"));
    assert_eq!(ruff.tool.configs, strings(&["pyproject.toml", "ruff.toml", ".ruff.toml"]));
    assert_eq!(ruff.fix.as_deref(), Some("ruff check --fix --"));
    assert_eq!(config.linter[2].tool.cmd, "mypy --strict --");
    let fmt = &config.formatter[0];
    assert_eq!(fmt.tool.files, strings(&["src/*.rs"]));
    assert_eq!(fmt.tool.configs, strings(&["my.toml"]));
    assert_eq!(fmt.check.as_deref(), Some("cargo fmt --check"));
}

#[test]
fn unknown_tool_entry_is_refused() {
    let mut config = empty_config();
    config.tool = vec![entry("mypy"), entry("nolint"), entry("typos")];
    match config.known_tools() {
        Err(ConfigError::UnknownTool { name }) => assert_eq!(name, "nolint"),
        other => panic!("unexpected {:?}", other),
    }
    assert_eq!(config.linter.len(), 1);
}

fn init_options(tools: &[&str]) -> Init {
    Init {
        tool: strings(tools),
        careful: true,
        cores: Some(3),
        mtime: false,
        refs: strings(&["main"]),
        allow: strings(&["mtime"]),
        warn: Vec::new(),
        deny: strings(&["refs"]),
    }
}

#[test]
fn init_with_names() {
    let existing = strings(&["Cargo.toml", "ruff.toml"]);
    let config = gen_config(&init_options(&["cargo clippy", "ruff check", "cargo clippy", "cargo fmt"]), &existing).unwrap();
    assert_eq!(config.linter.len(), 2);
    assert_eq!(config.linter[0].tool.name.as_deref(), Some("cargo clippy"));
    assert_eq!(config.linter[0].tool.configs, strings(&["Cargo.toml"]));
    assert_eq!(config.linter[1].tool.configs, strings(&["ruff.toml"]));
    assert_eq!(config.formatter.len(), 1);
    assert_eq!(config.formatter[0].tool.configs, strings(&["Cargo.toml"]));
    assert!(config.careful);
    assert_eq!(config.cores, Some(3));
    assert!(!config.mtime);
    assert_eq!(config.refs, strings(&["main"]));
    assert_eq!(config.warns.allow, strings(&["mtime"]));
    assert_eq!(config.warns.deny, strings(&["refs"]));
    assert_eq!(config.ninja, None);
}

#[test]
fn init_detects() {
    let existing = strings(&["Cargo.toml"]);
    let (linters, formatters) = collect_tools(&Vec::new(), &existing).unwrap();
    let names: Vec<_> = linters.iter().map(|l| l.tool.name.clone().unwrap()).collect();
    assert_eq!(names, strings(&["cargo clippy"]));
    let names: Vec<_> = formatters.iter().map(|l| l.tool.name.clone().unwrap()).collect();
    assert_eq!(names, strings(&["cargo fmt"]));
    let (linters, formatters) = collect_tools(&Vec::new(), &Vec::new()).unwrap();
    assert!(linters.is_empty() && formatters.is_empty());
    let (linters, _) = collect_tools(&Vec::new(), &strings(&["pyproject.toml"])).unwrap();
    let names: Vec<_> = linters.iter().map(|l| l.tool.name.clone().unwrap()).collect();
    assert_eq!(names, strings(&["mypy", "ruff check", "ty"]));
}

#[test]
fn init_refuses_unknown_names() {
    match get_known_tools(&strings(&["mypy", "nolint"]), &Vec::new()) {
        Err(InitError::UnknownTool { name }) => assert_eq!(name, "nolint"),
        other => panic!("unexpected {:?}", other),
    }
    assert!(gen_config(&init_options(&["nolint"]), &Vec::new()).is_err());
    let (linters, formatters) = get_known_tools(&strings(&["taplo", "mdlynx"]), &Vec::new()).unwrap();
    assert_eq!(linters.len(), 1);
    assert_eq!(formatters.len(), 1);
}

fn add(tool: &str) -> Add {
    Add { tool: tool.to_string(), name: None, formatter: None, cmd: None, files: None, check: None, config: None }
}

#[test]
fn add_a_known_tool() {
    match gen_tool(&add("ruff check")).unwrap() {
        Added::Linter(l) => {
            assert_eq!(l.tool.cmd, "ruff check --");
            assert_eq!(l.fix.as_deref(), Some("ruff check --fix --"));
        }
        other => panic!("unexpected {:?}", other),
    }
    let mut options = add("ruff format");
    options.name = Some("fmt".to_string());
    options.cmd = Some("ruff format -q --".to_string());
    options.files = Some("src/*.py".to_string());
    options.check = Some("ruff format -q --check --".to_string());
    options.config = Some("my.toml".to_string());
    match gen_tool(&options).unwrap() {
        Added::Formatter(f) => {
            assert_eq!(f.tool.name.as_deref(), Some("fmt"));
            assert_eq!(f.tool.cmd, "ruff format -q --");
            assert_eq!(f.tool.files, strings(&["src/*.py"]));
            assert_eq!(f.tool.configs, strings(&["my.toml"]));
            assert_eq!(f.check.as_deref(), Some("ruff format -q --check --"));
        }
        other => panic!("unexpected {:?}", other),
    }
}

#[test]
fn add_refuses_unknown_tools() {
    match gen_tool(&add("nolint")) {
        Err(AddError::UnknownLinter { name }) => assert_eq!(name, "nolint"),
        other => panic!("unexpected {:?}", other),
    }
    let mut options = add("mypy");
    options.formatter = Some(true);
    match gen_tool(&options) {
        Err(AddError::UnknownFormatter { name }) => assert_eq!(name, "mypy"),
        other => panic!("unexpected {:?}", other),
    }
    let mut options = add("taplo");
    options.formatter = Some(false);
    assert!(matches!(gen_tool(&options), Err(AddError::UnknownLinter { .. })));
}

fn command(cmd: &str, cd: Option<&str>, paths: &[&str]) -> Command {
    let mut config = tool(cmd);
    config.files = strings(&["**"]);
    config.cd = cd.map(|c| c.to_string());
    let made = Linter { tool: config, fix: None }
        .into_tool(RunMode::Normal, false, Color::Never, false, &Vec::new(), &no_probe())
        .unwrap();
    Command {
        tool: Arc::new(made),
        files: paths
            .iter()
            .map(|p| File {
                path: p.to_string(),
                size: 1,
                metadata_stamp: Stamp(Xxhash(1)),
                mtime_stamp: Stamp(Xxhash(2)),
                content_stamp: None,
            })
            .collect(),
    }
}

#[test]
fn process_of_a_command() {
    let inv = command("  lint\t-v   -- ", None, &["a.py", "sub/b.py"]).to_command();
    assert_eq!(inv.program, "lint");
    assert_eq!(inv.args, strings(&["-v", "--", "a.py", "sub/b.py"]));
    assert_eq!(inv.cd, None);
    let inv = command("lint", Some("sub"), &["a.py", "sub/b.py", "subway/c.py", "sub"]).to_command();
    assert_eq!(inv.args, strings(&["a.py", "b.py", "subway/c.py", ""]));
    assert_eq!(inv.cd.as_deref(), Some("sub"));
    assert!(command("", None, &["a.py"]).try_to_command().is_none());
    assert!(command(" \n", None, &["a.py"]).try_to_command().is_none());
    assert_eq!(command("x", None, &[]).try_to_command().unwrap().args, Vec::<String>::new());
}

#[test]
fn ninja_text() {
    assert_eq!(escape_ninja_string("a b"), "a b");
    assert_eq!(escape_ninja_string("$x: a|b\nc"), "$$x$: a$|b$\nc");
    assert_eq!(escape_ninja_string("$$"), "$$$$");
    assert_eq!(escape_ninja_string(""), "");
    let cmd = command("lint --", None, &["a.py"]);
    assert_eq!(describe(&cmd.to_command()), "lint -- a.py");
    assert_eq!(describe(&command("lint", None, &[]).to_command()), "lint ");
    let hash = cmd_hash(&cmd);
    assert_eq!(hash, compute_hash(b"lint\0--\0a.py\0a.py\0").0);
    assert_eq!(tgt_name(&cmd), format!("$builddir/{:032x}", hash));
    assert_ne!(cmd_hash(&command("lint --", None, &["b.py"])), hash);
}

#[test]
fn ninja_build_file() {
    let rule = "builddir=.lun/ninja\n\nrule run\n  command = $cmd && touch $out\n  description = Running $desc\n\n";
    assert_eq!(generate_ninja_file(".lun/ninja", &Vec::new()), rule);
    let plain = command("lint --", None, &["a.py"]);
    let odd = command("lint", None, &["my file.py", "a:b", "q\"$x"]);
    let empty = command("", None, &["a.py"]);
    let expected = format!(
        "{rule}build {}: run\n  cmd = lint -- a.py\n  desc = lint -- a.py\n\nbuild {}: run\n  cmd = lint \"my file.py\" \"a$$$:b\" \"q\\\"$$$$x\"\n  desc = lint my file.py a$:b q\"$$x\n\n",
        tgt_name(&plain),
        tgt_name(&odd),
    );
    let batches = vec![plain, empty, odd];
    assert_eq!(generate_ninja_file(".lun/ninja", &batches), expected);
    let known = targets(&batches);
    assert_eq!(known.len(), 2);
    assert_eq!(known[0].description, "lint -- a.py");
    assert_eq!(known[0].name, tgt_name(&batches[0]));
    assert_eq!(known[1].description, "lint my file.py a:b q\"$x");
}

fn first_config(tools: &[&str], existing: &[&str]) -> Config {
    let options = Init {
        tool: strings(tools),
        careful: false,
        cores: None,
        mtime: false,
        refs: Vec::new(),
        allow: Vec::new(),
        warn: Vec::new(),
        deny: Vec::new(),
    };
    gen_config(&options, &strings(existing)).unwrap()
}

#[test]
fn init() {
    let config = first_config(&["cargo clippy", "ruff check"], &["Cargo.toml"]);
    assert!(config.formatter.is_empty());
    assert_eq!(config.linter.len(), 2);
    let clippy = &config.linter[0];
    assert_eq!(clippy.tool.name.as_deref(), Some("cargo clippy"));
    assert_eq!(clippy.tool.cmd, "cargo clippy --color={{color}} --all-targets -- --deny warnings");
    assert_eq!(clippy.tool.files, strings(&["*.rs"]));
    assert_eq!(clippy.tool.granularity, Granularity::Batch);
    assert_eq!(clippy.tool.configs, strings(&["Cargo.toml"]));
    assert_eq!(clippy.fix.as_deref(), Some("cargo clippy --color={{color}} --allow-dirty --fix"));
    let ruff = &config.linter[1];
    assert_eq!(ruff.tool.name.as_deref(), Some("ruff check"));
    assert_eq!(ruff.tool.cmd, "ruff check --");
    assert_eq!(ruff.tool.files, strings(&["*.py"]));
    assert_eq!(ruff.tool.granularity, Granularity::Individual);
    assert!(ruff.tool.configs.is_empty());
    assert_eq!(ruff.fix.as_deref(), Some("ruff check --fix --"));
    assert!(!config.careful && !config.mtime && config.cores.is_none() && config.refs.is_empty());
}

#[test]
fn init_detect() {
    let config = first_config(&[], &["Cargo.toml"]);
    assert_eq!(config.linter.len(), 1);
    let clippy = &config.linter[0];
    assert_eq!(clippy.tool.name.as_deref(), Some("cargo clippy"));
    assert_eq!(clippy.tool.files, strings(&["*.rs"]));
    assert_eq!(clippy.tool.granularity, Granularity::Batch);
    assert_eq!(clippy.tool.configs, strings(&["Cargo.toml"]));
    assert_eq!(config.formatter.len(), 1);
    let fmt = &config.formatter[0];
    assert_eq!(fmt.tool.name.as_deref(), Some("cargo fmt"));
    assert_eq!(fmt.tool.cmd, "cargo fmt -- --color={{color}} --");
    assert_eq!(fmt.tool.files, strings(&["*.rs"]));
    assert_eq!(fmt.tool.granularity, Granularity::Batch);
    assert_eq!(fmt.tool.configs, strings(&["Cargo.toml"]));
    assert_eq!(fmt.check.as_deref(), Some("cargo fmt --check -- --color={{color}} --"));
}
