//! Warnings about a run and its configuration, each at a level that options
//! and configuration can set.
//!
//! A check finds lines to report. What becomes of them depends on the level
//! of its warning: allowed, they are dropped; at warn, they are handed back
//! to be shown; denied, they are handed back as errors and the run is
//! refused.

pub mod group;
pub mod level;
pub mod warn;
pub mod warns;

use vstd::prelude::*;
use crate::config::{Config, Tool};
use crate::known::{by_name_is, known_tools_by_name, named_catalog, Known};
use crate::text::{contains_str, decimal, spec_decimal, str_eq, views};
use crate::warn::level::Level;
use crate::warn::warn::Warn;
use crate::warn::warns::{Denied, Warns};

verus! {

/// What a check gives back for the lines it found, at a level: nothing
/// where the warning is allowed or nothing was found, the lines to show at
/// warn, a refusal with the lines and `message` where it is denied.
pub open spec fn verdict(
    level: Level,
    lines: Seq<Seq<char>>,
    message: Seq<char>,
    r: Result<Vec<String>, Denied>,
) -> bool {
    if level == Level::Allow || lines.len() == 0 {
        r matches Ok(shown) && shown@.len() == 0
    } else if level == Level::Warn {
        r matches Ok(shown) && views(shown@) == lines
    } else {
        r matches Err(d) && d.message@ == message && views(d.errors@) == lines
    }
}

fn conclude(level: Level, lines: Vec<String>, message: &str) -> (r: Result<Vec<String>, Denied>)
    ensures
        verdict(level, views(lines@), message@, r),
{
    if lines.len() == 0 {
        return Ok(lines);
    }
    match level {
        Level::Allow => Ok(Vec::new()),
        Level::Warn => Ok(lines),
        Level::Deny => Err(Denied { message: message.to_owned(), errors: lines }),
    }
}

/// The names of the first `n` tools, those that have one.
pub open spec fn names_of(tools: Seq<Tool>, n: nat) -> Seq<Seq<char>>
    decreases n,
{
    if n == 0 {
        Seq::empty()
    } else {
        let before = names_of(tools, (n - 1) as nat);
        match tools[n - 1].name {
            Some(name) => before.push(name@),
            None => before,
        }
    }
}

/// The tools of a configuration: those of its linters, then those of its
/// formatters.
pub open spec fn config_tools(config: Config) -> Seq<Tool> {
    Seq::new(config.linter@.len(), |i: int| config.linter@[i].tool) + Seq::new(
        config.formatter@.len(),
        |i: int| config.formatter@[i].tool,
    )
}

/// The names that the tools of a configuration have.
pub open spec fn config_names(config: Config) -> Seq<Seq<char>> {
    names_of(config_tools(config), config_tools(config).len())
}

/// The line that reports a tool name that the configuration lacks.
pub open spec fn unknown_tool_line(name: Seq<char>, flag: Seq<char>) -> Seq<char> {
    "unknown tool `"@ + name + "` specified in "@ + flag
}

/// The lines for those of the first `n` names that are not among `known`.
pub open spec fn unknown_tool_lines(
    known: Seq<Seq<char>>,
    names: Seq<Seq<char>>,
    flag: Seq<char>,
    n: nat,
) -> Seq<Seq<char>>
    decreases n,
{
    if n == 0 {
        Seq::empty()
    } else {
        let before = unknown_tool_lines(known, names, flag, (n - 1) as nat);
        if known.contains(names[n - 1]) {
            before
        } else {
            before.push(unknown_tool_line(names[n - 1], flag))
        }
    }
}

fn tools_of(config: &Config) -> (tools: Vec<&Tool>)
    ensures
        tools@.len() == config_tools(*config).len(),
        forall|i: int| 0 <= i < tools@.len() ==> *(#[trigger] tools@[i]) == config_tools(*config)[i],
{
    let mut tools: Vec<&Tool> = Vec::new();
    let n: usize = config.linter.len();
    let mut i: usize = 0;
    while i < n
        invariant
            n == config.linter@.len(),
            i <= n,
            tools@.len() == i,
            forall|j: int| 0 <= j < i ==> *(#[trigger] tools@[j]) == config.linter@[j].tool,
        decreases n - i,
    {
        tools.push(&config.linter[i].tool);
        i += 1;
    }
    let m: usize = config.formatter.len();
    let mut k: usize = 0;
    while k < m
        invariant
            n == config.linter@.len(),
            m == config.formatter@.len(),
            k <= m,
            tools@.len() == n + k,
            forall|j: int| 0 <= j < n ==> *(#[trigger] tools@[j]) == config.linter@[j].tool,
            forall|j: int| 0 <= j < k ==> *(#[trigger] tools@[n + j]) == config.formatter@[j].tool,
        decreases m - k,
    {
        tools.push(&config.formatter[k].tool);
        k += 1;
    }
    assert forall|i: int| 0 <= i < tools@.len() implies *(#[trigger] tools@[i]) == config_tools(
        *config,
    )[i] by {
        if i >= n {
            assert(*tools@[n + (i - n)] == config.formatter@[i - n].tool);
        }
    }
    tools
}

fn tool_names(config: &Config) -> (names: Vec<String>)
    ensures
        views(names@) == config_names(*config),
{
    let mut names: Vec<String> = Vec::new();
    let ghost tools = config_tools(*config);
    let all = tools_of(config);
    let n: usize = all.len();
    let mut i: usize = 0;
    assert(views(names@) =~= names_of(tools, 0));
    while i < n
        invariant
            n == tools.len(),
            tools == config_tools(*config),
            n == all@.len(),
            forall|k: int| 0 <= k < n ==> *(#[trigger] all@[k]) == tools[k],
            i <= n,
            views(names@) == names_of(tools, i as nat),
        decreases n - i,
    {
        let tool = all[i];
        let ghost before = views(names@);
        match &tool.name {
            Some(name) => {
                names.push(name.clone());
                assert(views(names@) =~= before.push(name@));
            },
            None => {},
        }
        i += 1;
    }
    names
}

fn push_unknown(lines: &mut Vec<String>, known: &Vec<String>, names: &Vec<String>, flag: &str)
    ensures
        views(final(lines)@) == views(old(lines)@) + unknown_tool_lines(
            views(known@),
            views(names@),
            flag@,
            names@.len(),
        ),
{
    let n: usize = names.len();
    let mut i: usize = 0;
    assert(views(lines@) =~= views(old(lines)@) + unknown_tool_lines(
        views(known@),
        views(names@),
        flag@,
        0,
    ));
    while i < n
        invariant
            n == names@.len(),
            i <= n,
            views(lines@) == views(old(lines)@) + unknown_tool_lines(
                views(known@),
                views(names@),
                flag@,
                i as nat,
            ),
        decreases n - i,
    {
        let name = names[i].as_str();
        assert(views(names@)[i as int] == name@);
        let ghost before = views(lines@);
        if !contains_str(known, name) {
            let mut line: String = "unknown tool `".to_owned();
            line.append(name);
            line.append("` specified in ");
            line.append(flag);
            lines.push(line);
            assert(views(lines@) =~= before.push(unknown_tool_line(name@, flag@)));
        }
        assert(views(lines@) =~= views(old(lines)@) + unknown_tool_lines(
            views(known@),
            views(names@),
            flag@,
            (i + 1) as nat,
        ));
        i += 1;
    }
}

/// Reports the tools named with `--skip-tool` and then with `--only-tool`
/// that no linter or formatter of the configuration is named like.
pub fn check_unknown_tools(
    lints: &Warns,
    skip_tool: &Vec<String>,
    only_tool: &Vec<String>,
    config: &Config,
) -> (r: Result<Vec<String>, Denied>)
    ensures
        verdict(
            lints@.level(Warn::UnknownTool),
            unknown_tool_lines(
                config_names(*config),
                views(skip_tool@),
                "--skip-tool"@,
                skip_tool@.len(),
            ) + unknown_tool_lines(
                config_names(*config),
                views(only_tool@),
                "--only-tool"@,
                only_tool@.len(),
            ),
            "found unknown tool names and --deny=unknown-tool"@,
            r,
        ),
{
    let level = lints.level(Warn::UnknownTool);
    if level == Level::Allow {
        return Ok(Vec::new());
    }
    let known = tool_names(config);
    let mut lines: Vec<String> = Vec::new();
    assert(views(lines@) =~= Seq::<Seq<char>>::empty());
    push_unknown(&mut lines, &known, skip_tool, "--skip-tool");
    push_unknown(&mut lines, &known, only_tool, "--only-tool");
    assert(views(lines@) =~= unknown_tool_lines(
        config_names(*config),
        views(skip_tool@),
        "--skip-tool"@,
        skip_tool@.len(),
    ) + unknown_tool_lines(
        config_names(*config),
        views(only_tool@),
        "--only-tool"@,
        only_tool@.len(),
    ));
    conclude(level, lines, "found unknown tool names and --deny=unknown-tool")
}

/// The line that reports a configuration file that is not listed.
pub open spec fn unlisted_line(tool: Seq<char>, path: Seq<char>) -> Seq<char> {
    "tool `"@ + tool + "` has unlisted config file `"@ + path + "`"@
}

/// The lines for those of the first `n` configuration files known of a tool
/// that exist and that the tool does not list.
pub open spec fn unlisted_of(
    tool: Seq<char>,
    known_configs: Seq<Seq<char>>,
    existing: Seq<Seq<char>>,
    listed: Seq<Seq<char>>,
    n: nat,
) -> Seq<Seq<char>>
    decreases n,
{
    if n == 0 {
        Seq::empty()
    } else {
        let before = unlisted_of(tool, known_configs, existing, listed, (n - 1) as nat);
        let path = known_configs[n - 1];
        if existing.contains(path) && !listed.contains(path) {
            before.push(unlisted_line(tool, path))
        } else {
            before
        }
    }
}

/// The place of the first of the first `n` known tools that has that name.
pub open spec fn known_place(known: Seq<Known>, name: Seq<char>, n: nat) -> Option<int>
    decreases n,
{
    if n == 0 {
        None
    } else {
        match known_place(known, name, (n - 1) as nat) {
            Some(i) => Some(i),
            None => if known[n - 1].name == Some(name) {
                Some(n - 1)
            } else {
                None
            },
        }
    }
}

/// The lines for one tool of the configuration: where it is named like a
/// known tool, those for the configuration files known of that tool.
pub open spec fn unlisted_for(tool: Tool, existing: Seq<Seq<char>>) -> Seq<Seq<char>> {
    match tool.name {
        Some(name) => match known_place(named_catalog(), name@, named_catalog().len()) {
            Some(i) => unlisted_of(
                name@,
                named_catalog()[i].configs,
                existing,
                views(tool.configs@),
                named_catalog()[i].configs.len(),
            ),
            None => Seq::empty(),
        },
        None => Seq::empty(),
    }
}

/// The lines for the first `n` tools of the configuration.
pub open spec fn unlisted_lines(tools: Seq<Tool>, existing: Seq<Seq<char>>, n: nat) -> Seq<
    Seq<char>,
>
    decreases n,
{
    if n == 0 {
        Seq::empty()
    } else {
        unlisted_lines(tools, existing, (n - 1) as nat) + unlisted_for(tools[n - 1], existing)
    }
}

fn find_known(known: &Vec<(String, Tool)>, name: &str) -> (place: Option<usize>)
    requires
        by_name_is(known@, named_catalog()),
    ensures
        match place {
            Some(i) => known_place(named_catalog(), name@, named_catalog().len()) == Some(
                i as int,
            ) && i < known@.len(),
            None => known_place(named_catalog(), name@, named_catalog().len()) is None,
        },
{
    let n: usize = known.len();
    let mut i: usize = 0;
    while i < n
        invariant
            n == known@.len(),
            by_name_is(known@, named_catalog()),
            i <= n,
            known_place(named_catalog(), name@, i as nat) is None,
        decreases n - i,
    {
        if str_eq(known[i].0.as_str(), name) {
            proof {
                lemma_known_place(named_catalog(), name@, i as int, n as nat);
            }
            return Some(i);
        }
        i += 1;
    }
    None
}

proof fn lemma_known_place(known: Seq<Known>, name: Seq<char>, i: int, n: nat)
    requires
        0 <= i < n <= known.len(),
        known_place(known, name, i as nat) is None,
        known[i].name == Some(name),
    ensures
        known_place(known, name, n) == Some(i),
    decreases n,
{
    if n > i + 1 {
        lemma_known_place(known, name, i, (n - 1) as nat);
    }
}

/// Reports, for each tool of the configuration that is named like a known
/// tool, the configuration files known of that tool that are among
/// `existing`, the files that were found on disk, and that the tool does not
/// list.
pub fn check_unlisted_config(lints: &Warns, config: &Config, existing: &Vec<String>) -> (r: Result<
    Vec<String>,
    Denied,
>)
    ensures
        verdict(
            lints@.level(Warn::UnlistedConfig),
            unlisted_lines(config_tools(*config), views(existing@), config_tools(*config).len()),
            "found unlisted config files and --deny=unlisted-config"@,
            r,
        ),
{
    let level = lints.level(Warn::UnlistedConfig);
    if level == Level::Allow {
        return Ok(Vec::new());
    }
    let known = known_tools_by_name();
    let ghost tools = config_tools(*config);
    let mut lines: Vec<String> = Vec::new();
    let all = tools_of(config);
    let n: usize = all.len();
    let mut i: usize = 0;
    assert(views(lines@) =~= unlisted_lines(tools, views(existing@), 0));
    while i < n
        invariant
            n == tools.len(),
            tools == config_tools(*config),
            n == all@.len(),
            forall|k: int| 0 <= k < n ==> *(#[trigger] all@[k]) == tools[k],
            by_name_is(known@, named_catalog()),
            i <= n,
            views(lines@) == unlisted_lines(tools, views(existing@), i as nat),
        decreases n - i,
    {
        let tool = all[i];
        let ghost before = views(lines@);
        if let Some(name) = &tool.name {
            if let Some(place) = find_known(&known, name.as_str()) {
                let known_configs = &known[place].1.configs;
                let m: usize = known_configs.len();
                let mut j: usize = 0;
                assert(views(known_configs@) == named_catalog()[place as int].configs);
                assert(views(lines@) =~= before + unlisted_of(
                    name@,
                    views(known_configs@),
                    views(existing@),
                    views(tool.configs@),
                    0,
                ));
                while j < m
                    invariant
                        m == known_configs@.len(),
                        j <= m,
                        views(lines@) == before + unlisted_of(
                            name@,
                            views(known_configs@),
                            views(existing@),
                            views(tool.configs@),
                            j as nat,
                        ),
                    decreases m - j,
                {
                    let path = known_configs[j].as_str();
                    assert(views(known_configs@)[j as int] == path@);
                    let ghost mid = views(lines@);
                    if contains_str(existing, path) && !contains_str(&tool.configs, path) {
                        let mut line: String = "tool `".to_owned();
                        line.append(name.as_str());
                        line.append("` has unlisted config file `");
                        line.append(path);
                        line.append("`");
                        lines.push(line);
                        assert(views(lines@) =~= mid.push(unlisted_line(name@, path@)));
                    }
                    assert(views(lines@) =~= before + unlisted_of(
                        name@,
                        views(known_configs@),
                        views(existing@),
                        views(tool.configs@),
                        (j + 1) as nat,
                    ));
                    j += 1;
                }
            }
        }
        assert(views(lines@) =~= before + unlisted_for(tools[i as int], views(existing@)));
        i += 1;
    }
    conclude(level, lines, "found unlisted config files and --deny=unlisted-config")
}

/// One line, or none.
pub open spec fn line_if(found: bool, line: Seq<char>) -> Seq<Seq<char>> {
    if found {
        seq![line]
    } else {
        Seq::empty()
    }
}

fn one_line(found: bool, line: &str) -> (lines: Vec<String>)
    ensures
        views(lines@) == line_if(found, line@),
{
    let mut lines: Vec<String> = Vec::new();
    if found {
        lines.push(line.to_owned());
    }
    assert(views(lines@) =~= line_if(found, line@));
    lines
}

/// Reports that tool versions do not enter the cache keys: that `careful`
/// is set neither on the command line nor in the configuration.
pub fn check_careful(lints: &Warns, careful_cli: bool, careful_config: bool) -> (r: Result<
    Vec<String>,
    Denied,
>)
    ensures
        verdict(
            lints@.level(Warn::Careful),
            line_if(
                !(careful_cli || careful_config),
                "--careful is not set at CLI or config level"@,
            ),
            "--careful is not set and --deny=careful"@,
            r,
        ),
{
    let level = lints.level(Warn::Careful);
    let careful = careful_cli || careful_config;
    let lines = one_line(!careful, "--careful is not set at CLI or config level");
    conclude(level, lines, "--careful is not set and --deny=careful")
}

/// Reports that modification times are used: that the configuration
/// enables them and the command line does not disable them.
pub fn check_mtime(lints: &Warns, no_mtime_cli: bool, mtime_config: bool) -> (r: Result<
    Vec<String>,
    Denied,
>)
    ensures
        verdict(
            lints@.level(Warn::Mtime),
            line_if(
                mtime_config && !no_mtime_cli,
                if lints@.level(Warn::Mtime) == Level::Deny {
                    "mtime is enabled on CLI or config file"@
                } else {
                    "mtime is enabled"@
                },
            ),
            "mtime is set and --deny=mtime"@,
            r,
        ),
{
    let level = lints.level(Warn::Mtime);
    let mtime_enabled = mtime_config && !no_mtime_cli;
    let lines = match level {
        Level::Deny => one_line(mtime_enabled, "mtime is enabled on CLI or config file"),
        _ => one_line(mtime_enabled, "mtime is enabled"),
    };
    conclude(level, lines, "mtime is set and --deny=mtime")
}

/// Reports that git refs are used: that the command line or the
/// configuration names one.
pub fn check_refs(lints: &Warns, refs_cli: &Vec<String>, refs_config: &Vec<String>) -> (r: Result<
    Vec<String>,
    Denied,
>)
    ensures
        verdict(
            lints@.level(Warn::Refs),
            line_if(
                refs_cli@.len() > 0 || refs_config@.len() > 0,
                "refs is used on CLI or config file"@,
            ),
            "refs is used and --deny=refs"@,
            r,
        ),
{
    let level = lints.level(Warn::Refs);
    let refs_used = refs_cli.len() > 0 || refs_config.len() > 0;
    let lines = one_line(refs_used, "refs is used on CLI or config file");
    conclude(level, lines, "refs is used and --deny=refs")
}

/// The name to show for a tool of the configuration: its name, or else its
/// command.
pub open spec fn shown_name(tool: Tool) -> Seq<char> {
    match tool.name {
        Some(n) => n@,
        None => tool.cmd@,
    }
}

/// The line that reports a tool without file patterns.
pub open spec fn no_files_line(name: Seq<char>) -> Seq<char> {
    "tool `"@ + name + "` has empty `files` array"@
}

/// The lines for those of the first `n` tools that list no file pattern.
pub open spec fn no_files_lines(tools: Seq<Tool>, n: nat) -> Seq<Seq<char>>
    decreases n,
{
    if n == 0 {
        Seq::empty()
    } else {
        let before = no_files_lines(tools, (n - 1) as nat);
        if tools[n - 1].files@.len() == 0 {
            before.push(no_files_line(shown_name(tools[n - 1])))
        } else {
            before
        }
    }
}

/// Reports the tools of the configuration that list no file pattern.
pub fn check_no_files(lints: &Warns, config: &Config) -> (r: Result<Vec<String>, Denied>)
    ensures
        verdict(
            lints@.level(Warn::NoFiles),
            no_files_lines(config_tools(*config), config_tools(*config).len()),
            "found tools with empty `files` arrays and --deny=no-files"@,
            r,
        ),
{
    let level = lints.level(Warn::NoFiles);
    let ghost tools = config_tools(*config);
    let mut lines: Vec<String> = Vec::new();
    let all = tools_of(config);
    let n: usize = all.len();
    let mut i: usize = 0;
    assert(views(lines@) =~= no_files_lines(tools, 0));
    while i < n
        invariant
            n == tools.len(),
            tools == config_tools(*config),
            n == all@.len(),
            forall|k: int| 0 <= k < n ==> *(#[trigger] all@[k]) == tools[k],
            i <= n,
            views(lines@) == no_files_lines(tools, i as nat),
        decreases n - i,
    {
        let tool = all[i];
        let ghost before = views(lines@);
        if tool.files.len() == 0 {
            let name: &str = match &tool.name {
                Some(n) => n.as_str(),
                None => tool.cmd.as_str(),
            };
            let mut line: String = "tool `".to_owned();
            line.append(name);
            line.append("` has empty `files` array");
            lines.push(line);
            assert(views(lines@) =~= before.push(no_files_line(shown_name(*tool))));
        }
        i += 1;
    }
    conclude(level, lines, "found tools with empty `files` arrays and --deny=no-files")
}

/// Reports that the cache was full and entries were dropped.
pub fn check_cache_full(lints: &Warns, cache_full: bool) -> (r: Result<Vec<String>, Denied>)
    ensures
        verdict(
            lints@.level(Warn::CacheFull),
            line_if(cache_full, "cache is full and entries are being dropped"@),
            "cache is full and --deny=cache-full"@,
            r,
        ),
{
    let level = lints.level(Warn::CacheFull);
    let lines = one_line(cache_full, "cache is full and entries are being dropped");
    conclude(level, lines, "cache is full and --deny=cache-full")
}

/// The share of the cache that a run filled, in percent, rounded down; of a
/// cache that holds nothing, the entries count as of one that holds one.
pub open spec fn usage_percent(entries_added: usize, max_entries: usize) -> nat {
    ((entries_added * 100) / (if max_entries == 0 {
        1
    } else {
        max_entries as int
    })) as nat
}

/// The line that reports how much of the cache a run filled.
pub open spec fn usage_line(entries_added: usize, max_entries: usize) -> Seq<char> {
    "single execution added "@ + spec_decimal(entries_added as nat) + " cache entries ("@
        + spec_decimal(usage_percent(entries_added, max_entries)) + "% of cache size)"@
}

/// Reports that one run added more entries than a quarter of what the
/// cache can hold.
pub fn check_cache_usage(lints: &Warns, entries_added: usize, max_entries: usize) -> (r: Result<
    Vec<String>,
    Denied,
>)
    ensures
        verdict(
            lints@.level(Warn::CacheUsage),
            line_if(entries_added > max_entries / 4, usage_line(entries_added, max_entries)),
            "single execution uses more than a quarter of cache size and --deny=cache-usage"@,
            r,
        ),
{
    let level = lints.level(Warn::CacheUsage);
    let quarter_cache: usize = max_entries / 4;
    let mut lines: Vec<String> = Vec::new();
    if entries_added > quarter_cache {
        let divisor: u128 = if max_entries == 0 {
            1
        } else {
            max_entries as u128
        };
        let percent: u128 = (entries_added as u128 * 100) / divisor;
        let mut line: String = "single execution added ".to_owned();
        let added = decimal(entries_added as u128);
        line.append(added.as_str());
        line.append(" cache entries (");
        let share = decimal(percent);
        line.append(share.as_str());
        line.append("% of cache size)");
        lines.push(line);
    }
    assert(views(lines@) =~= line_if(
        entries_added > max_entries / 4,
        usage_line(entries_added, max_entries),
    ));
    conclude(level, lines, "single execution uses more than a quarter of cache size and --deny=cache-usage")
}

} // verus!
