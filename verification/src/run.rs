//! The run: what is run on what, and how it ended.

use vstd::prelude::*;
use std::sync::Arc;
use globset::{Glob, GlobSet};
use crate::cli;
use crate::cmd::Command;
use crate::config;
use crate::config::{color_word, is_made_tool, ConfigError, Probe};
use crate::exec::ProgressFormat;
use crate::file::File;
use crate::glob::{
    all_compile, glob_new, glob_pattern, glob_set_is_match, glob_set_new, glob_set_patterns,
    lemma_refused_stays, patterns_match, refused_at,
};
use crate::known::opt_view;
use crate::text::{clone_opt, clone_strings, contains_str, decimal, replaced, spec_decimal, views};
use crate::tool;
use crate::warn::warns::{Denied, Warns};
use crate::warn::{
    check_careful, check_mtime, check_no_files, check_refs, check_unknown_tools,
    check_unlisted_config,
};

verus! {

/// The mode of a run.
#[derive(Clone, Copy, Debug, PartialEq, Eq, Structural)]
pub enum RunMode {
    /// Linters report, formatters rewrite.
    Normal,
    /// Linters report, formatters only report.
    Check,
    /// Linters repair where they can, formatters rewrite.
    Fix,
}

impl RunMode {
    /// The mode that the options ask for: fix before check, and normal
    /// where neither is asked for.
    pub open spec fn spec_of(fix: bool, check: bool) -> RunMode {
        if fix {
            RunMode::Fix
        } else if check {
            RunMode::Check
        } else {
            RunMode::Normal
        }
    }

    /// See [`RunMode::spec_of`].
    pub fn of(run: &cli::Run) -> (mode: RunMode)
        ensures
            mode == Self::spec_of(run.fix, run.check),
    {
        if run.fix {
            RunMode::Fix
        } else if run.check {
            RunMode::Check
        } else {
            RunMode::Normal
        }
    }
}

impl From<&cli::Run> for RunMode {
    fn from(run: &cli::Run) -> (mode: Self) {
        RunMode::of(run)
    }
}

impl vstd::std_specs::convert::FromSpecImpl<&cli::Run> for RunMode {
    open spec fn obeys_from_spec() -> bool {
        true
    }

    open spec fn from_spec(run: &cli::Run) -> Self {
        RunMode::spec_of(run.fix, run.check)
    }
}

/// The number of cores to use: the number asked for, else the number the
/// machine offers, else one.
pub fn num_cores(cores: Option<usize>, available: Option<usize>) -> (n: usize)
    ensures
        n > 0,
        n == match cores {
            Some(c) if c > 0 => c,
            _ => match available {
                Some(a) if a > 0 => a,
                _ => 1,
            },
        },
{
    match cores {
        Some(c) if c > 0 => c,
        _ => match available {
            Some(a) if a > 0 => a,
            _ => 1,
        },
    }
}

/// Whether a file stays: it matches one of the `only` patterns, if there
/// are any, and none of the `skip` patterns.
pub open spec fn file_stays(only: Seq<Seq<char>>, skip: Seq<Seq<char>>, path: Seq<char>) -> bool {
    &&& only.len() == 0 || patterns_match(only, path)
    &&& skip.len() == 0 || !patterns_match(skip, path)
}

/// Those of the first `n` files that stay, in their order.
pub open spec fn staying(files: Seq<File>, only: Seq<Seq<char>>, skip: Seq<Seq<char>>, n: nat) -> Seq<
    File,
>
    decreases n,
{
    if n == 0 {
        Seq::empty()
    } else {
        let before = staying(files, only, skip, (n - 1) as nat);
        if file_stays(only, skip, files[n - 1].path@) {
            before.push(files[n - 1])
        } else {
            before
        }
    }
}

/// The pattern that an error about patterns of the command line names: the
/// first that does not compile, or none where each compiles and only the
/// set of them is refused.
pub open spec fn refused_pattern(patterns: Seq<Seq<char>>) -> Seq<char> {
    match refused_at(patterns, patterns.len()) {
        Some(i) => patterns[i],
        None => Seq::empty(),
    }
}

/// Compiles patterns given on the command line: the set comes back exactly
/// where they compile; else the first pattern that does not compile comes
/// back, or nothing where only the set is refused.
fn matcher(patterns: &Vec<String>) -> (r: Result<GlobSet, Option<String>>)
    ensures
        r is Ok <==> all_compile(views(patterns@)),
        r matches Ok(set) ==> glob_set_patterns(set) == views(patterns@),
        r matches Err(p) ==> opt_view(p) == match refused_at(
            views(patterns@),
            patterns@.len(),
        ) {
            Some(i) => Some(views(patterns@)[i]),
            None => None,
        },
{
    let mut globs: Vec<Glob> = Vec::new();
    let ghost ps = views(patterns@);
    let n: usize = patterns.len();
    let mut i: usize = 0;
    while i < n
        invariant
            n == patterns@.len(),
            ps == views(patterns@),
            i <= n,
            globs@.len() == i,
            refused_at(ps, i as nat) is None,
            forall|j: int| 0 <= j < i ==> glob_pattern(#[trigger] globs@[j]) == patterns@[j]@,
        decreases n - i,
    {
        assert(ps[i as int] == patterns@[i as int]@);
        match glob_new(patterns[i].as_str()) {
            Ok(glob) => {
                globs.push(glob);
            },
            Err(_) => {
                proof {
                    assert(refused_at(ps, (i + 1) as nat) == Some(i as int));
                    lemma_refused_stays(ps, (i + 1) as nat, n as nat);
                }
                return Err(Some(patterns[i].clone()));
            },
        }
        i += 1;
    }
    assert(Seq::new(globs@.len(), |i: int| glob_pattern(globs@[i])) =~= ps);
    match glob_set_new(&globs) {
        Ok(set) => Ok(set),
        Err(_) => Err(None),
    }
}

/// Keeps the files that match one of the `only` patterns, if there are
/// any, and none of the `skip` patterns. Without patterns every file stays.
///
/// Succeeds exactly where the `only` patterns compile and the `skip`
/// patterns compile. Else the files are left alone, and the error is about
/// the `only` patterns where they do not compile, about the `skip` patterns
/// where only they do not; it names the first pattern that does not
/// compile, or none where each compiles and the set of them is refused.
pub fn filter_files(files: &mut Vec<File>, only_patterns: &Vec<String>, skip_patterns: &Vec<String>) -> (r:
    Result<(), ConfigError>)
    ensures
        r is Ok <==> all_compile(views(only_patterns@)) && all_compile(views(skip_patterns@)),
        r is Ok ==> final(files)@ == staying(
            old(files)@,
            views(only_patterns@),
            views(skip_patterns@),
            old(files)@.len(),
        ),
        r is Err ==> final(files)@ == old(files)@,
        r matches Err(e) ==> if !all_compile(views(only_patterns@)) {
            e matches ConfigError::InvalidOnlyGlob { pattern } && pattern@ == refused_pattern(
                views(only_patterns@),
            )
        } else {
            e matches ConfigError::InvalidSkipGlob { pattern } && pattern@ == refused_pattern(
                views(skip_patterns@),
            )
        },
{
    let ghost only_v = views(only_patterns@);
    let ghost skip_v = views(skip_patterns@);
    if only_patterns.len() == 0 && skip_patterns.len() == 0 {
        proof {
            lemma_all_stay(files@, only_v, skip_v, files@.len());
        }
        return Ok(());
    }
    let only: Option<GlobSet> = if only_patterns.len() == 0 {
        None
    } else {
        match matcher(only_patterns) {
            Ok(set) => Some(set),
            Err(Some(pattern)) => {
                return Err(ConfigError::InvalidOnlyGlob { pattern });
            },
            Err(None) => {
                return Err(ConfigError::InvalidOnlyGlob { pattern: String::new() });
            },
        }
    };
    let skip: Option<GlobSet> = if skip_patterns.len() == 0 {
        None
    } else {
        match matcher(skip_patterns) {
            Ok(set) => Some(set),
            Err(Some(pattern)) => {
                return Err(ConfigError::InvalidSkipGlob { pattern });
            },
            Err(None) => {
                return Err(ConfigError::InvalidSkipGlob { pattern: String::new() });
            },
        }
    };
    let mut kept: Vec<File> = Vec::new();
    let n: usize = files.len();
    let mut i: usize = 0;
    while i < n
        invariant
            n == files@.len(),
            files@ == old(files)@,
            i <= n,
            only_v == views(only_patterns@),
            skip_v == views(skip_patterns@),
            only matches Some(set) ==> glob_set_patterns(set) == only_v,
            only is None ==> only_v.len() == 0,
            only is Some ==> only_v.len() > 0,
            skip matches Some(set) ==> glob_set_patterns(set) == skip_v,
            skip is None ==> skip_v.len() == 0,
            skip is Some ==> skip_v.len() > 0,
            kept@ == staying(files@, only_v, skip_v, i as nat),
        decreases n - i,
    {
        let path = files[i].path.as_str();
        let wanted: bool = match &only {
            Some(set) => glob_set_is_match(set, path),
            None => true,
        };
        let skipped: bool = match &skip {
            Some(set) => glob_set_is_match(set, path),
            None => false,
        };
        if wanted && !skipped {
            kept.push(files[i].clone());
        }
        i += 1;
    }
    *files = kept;
    Ok(())
}

/// Without patterns every file stays.
pub proof fn lemma_all_stay(files: Seq<File>, only: Seq<Seq<char>>, skip: Seq<Seq<char>>, n: nat)
    requires
        only.len() == 0,
        skip.len() == 0,
        n <= files.len(),
    ensures
        staying(files, only, skip, n) == files.subrange(0, n as int),
    decreases n,
{
    if n > 0 {
        lemma_all_stay(files, only, skip, (n - 1) as nat);
        assert(files.subrange(0, n as int) =~= files.subrange(0, n - 1).push(files[n - 1]));
    } else {
        assert(files.subrange(0, 0) =~= Seq::<File>::empty());
    }
}

/// Whether a tool takes part in a run: it is not named with `--skip-tool`
/// and, where tools are named with `--only-tool`, it is one of them. A tool
/// without name cannot be skipped, and takes part only where no tool is
/// named with `--only-tool`.
pub open spec fn tool_included(tool: config::Tool, run: cli::Run) -> bool {
    let skip = match tool.name {
        Some(n) => !views(run.skip_tool@).contains(n@),
        None => true,
    };
    let only = run.only_tool@.len() == 0 || match tool.name {
        Some(n) => views(run.only_tool@).contains(n@),
        None => false,
    };
    skip && only
}

/// See [`tool_included`].
pub fn include_tool(tool: &config::Tool, run: &cli::Run) -> (included: bool)
    ensures
        included == tool_included(*tool, *run),
{
    let skip: bool = match &tool.name {
        Some(n) => !contains_str(&run.skip_tool, n.as_str()),
        None => true,
    };
    let only: bool = run.only_tool.len() == 0 || match &tool.name {
        Some(n) => contains_str(&run.only_tool, n.as_str()),
        None => false,
    };
    skip && only
}

/// Nothing was found out.
pub open spec fn is_nothing(probe: Probe) -> bool {
    &&& probe.configs@.len() == 0
    &&& probe.version is None
    &&& probe.env@.len() == 0
}

/// What was found out about the `i`-th tool; nothing where nothing is
/// given.
pub open spec fn probe_is(probes: Seq<Probe>, i: int, probe: Probe) -> bool {
    if 0 <= i < probes.len() {
        probe == probes[i]
    } else {
        is_nothing(probe)
    }
}

/// What one tool of a run was made from.
pub struct Source {
    /// What the configuration says of the tool.
    pub tool: config::Tool,
    /// The command for the mode of the run, before the colour is put in.
    pub template: Seq<char>,
    /// Its place among the tools of the configuration, linters first.
    pub place: int,
}

/// The linters that take part among the first `n`, none where only
/// formatters are asked for.
pub open spec fn linter_sources(run: cli::Run, config: config::Config, mode: RunMode, n: nat) -> Seq<
    Source,
>
    decreases n,
{
    if n == 0 || run.format {
        Seq::empty()
    } else {
        let before = linter_sources(run, config, mode, (n - 1) as nat);
        let l = config.linter@[n - 1];
        if tool_included(l.tool, run) {
            before.push(Source { tool: l.tool, template: l.template(mode), place: n - 1 })
        } else {
            before
        }
    }
}

/// The formatters that take part among the first `n`.
pub open spec fn formatter_sources(
    run: cli::Run,
    config: config::Config,
    mode: RunMode,
    n: nat,
) -> Seq<Source>
    decreases n,
{
    if n == 0 {
        Seq::empty()
    } else {
        let before = formatter_sources(run, config, mode, (n - 1) as nat);
        let f = config.formatter@[n - 1];
        if tool_included(f.tool, run) {
            before.push(
                Source {
                    tool: f.tool,
                    template: f.template(mode),
                    place: config.linter@.len() + n - 1,
                },
            )
        } else {
            before
        }
    }
}

/// The tools that take part in a run: linters first, unless only
/// formatters are asked for, then formatters.
pub open spec fn sources(run: cli::Run, config: config::Config, mode: RunMode) -> Seq<Source> {
    linter_sources(run, config, mode, config.linter@.len()) + formatter_sources(
        run,
        config,
        mode,
        config.formatter@.len(),
    )
}

/// The tool is made from the source, with what was found out about it.
pub open spec fn is_made_from(
    made: tool::Tool,
    source: Source,
    careful: bool,
    color: Seq<char>,
    global_ignore: Seq<Seq<char>>,
    probes: Seq<Probe>,
) -> bool {
    exists|probe: Probe|
        probe_is(probes, source.place, probe) && is_made_tool(
            made,
            source.tool,
            replaced(source.template, "{{color}}"@, color),
            careful,
            global_ignore,
            probe,
        )
}

/// `tools` are made from `made_from`, one for one.
pub open spec fn tools_are(
    tools: Seq<Arc<tool::Tool>>,
    made_from: Seq<Source>,
    careful: bool,
    color: Seq<char>,
    global_ignore: Seq<Seq<char>>,
    probes: Seq<Probe>,
) -> bool {
    &&& tools.len() == made_from.len()
    &&& forall|k: int|
        0 <= k < tools.len() ==> is_made_from(
            *#[trigger] tools[k],
            made_from[k],
            careful,
            color,
            global_ignore,
            probes,
        )
}

/// The place of the probe of a tool, if one is given for it.
fn probe_place(probes: &Vec<Probe>, before: usize, i: usize) -> (place: Option<usize>)
    ensures
        match place {
            Some(p) => p == before + i && p < probes@.len(),
            None => before + i >= probes@.len(),
        },
{
    let len: usize = probes.len();
    if before <= usize::MAX - i {
        let place: usize = before + i;
        if place < len {
            Some(place)
        } else {
            None
        }
    } else {
        None
    }
}

/// One tool that takes part, as it stands in the configuration.
struct Pick<'a> {
    tool: &'a config::Tool,
    template: &'a String,
    probe: Option<usize>,
}

/// `picks` are `made_from`, one for one.
spec fn picks_are(picks: Seq<Pick>, made_from: Seq<Source>, probes: Seq<Probe>) -> bool {
    &&& picks.len() == made_from.len()
    &&& forall|k: int|
        0 <= k < picks.len() ==> *(#[trigger] picks[k]).tool == made_from[k].tool
            && picks[k].template@ == made_from[k].template && match picks[k].probe {
            Some(p) => p == made_from[k].place && p < probes.len(),
            None => made_from[k].place >= probes.len(),
        }
}

fn pick_tools<'a>(
    run: &cli::Run,
    config: &'a config::Config,
    mode: RunMode,
    probes: &Vec<Probe>,
) -> (picks: Vec<Pick<'a>>)
    ensures
        picks_are(picks@, sources(*run, *config, mode), probes@),
{
    let mut picks: Vec<Pick<'a>> = Vec::new();
    let n: usize = config.linter.len();
    let mut i: usize = 0;
    while i < n && !run.format
        invariant
            n == config.linter@.len(),
            i <= n,
            picks_are(picks@, linter_sources(*run, *config, mode, i as nat), probes@),
        decreases n - i,
    {
        let linter = &config.linter[i];
        if include_tool(&linter.tool, run) {
            let template: &String = match (&linter.fix, mode) {
                (Some(fix), RunMode::Fix) => fix,
                _ => &linter.tool.cmd,
            };
            picks.push(Pick { tool: &linter.tool, template, probe: probe_place(probes, 0, i) });
        }
        i += 1;
    }
    let ghost first = linter_sources(*run, *config, mode, n as nat);
    assert(picks_are(picks@, first, probes@));
    let m: usize = config.formatter.len();
    let mut j: usize = 0;
    assert(first + formatter_sources(*run, *config, mode, 0) =~= first);
    while j < m
        invariant
            n == config.linter@.len(),
            m == config.formatter@.len(),
            j <= m,
            first == linter_sources(*run, *config, mode, n as nat),
            picks_are(picks@, first + formatter_sources(*run, *config, mode, j as nat), probes@),
        decreases m - j,
    {
        let formatter = &config.formatter[j];
        let ghost from = first + formatter_sources(*run, *config, mode, j as nat);
        if include_tool(&formatter.tool, run) {
            let template: &String = match (&formatter.check, mode) {
                (Some(check), RunMode::Check) => check,
                _ => &formatter.tool.cmd,
            };
            picks.push(
                Pick { tool: &formatter.tool, template, probe: probe_place(probes, n, j) },
            );
            assert(first + formatter_sources(*run, *config, mode, (j + 1) as nat) =~= from.push(
                Source {
                    tool: formatter.tool,
                    template: formatter.template(mode),
                    place: n + j,
                },
            ));
        } else {
            assert(first + formatter_sources(*run, *config, mode, (j + 1) as nat) =~= from);
        }
        j += 1;
    }
    picks
}

/// Whether the tool of a source can be made, with what was found out about
/// it: its patterns compile, and every configuration file that was looked
/// at for it and is there has a modification time.
pub open spec fn source_can_be_made(
    source: Source,
    global_ignore: Seq<Seq<char>>,
    probes: Seq<Probe>,
) -> bool {
    &&& all_compile(views(source.tool.files@))
    &&& all_compile(config::ignore_patterns(source.tool, global_ignore))
    &&& 0 <= source.place < probes.len() ==> config::configs_have_mtime(
        probes[source.place].configs@,
    )
}

/// The error is that of making the tool of the source, with what was found
/// out about it.
pub open spec fn is_error_of_source(
    e: ConfigError,
    source: Source,
    global_ignore: Seq<Seq<char>>,
    probes: Seq<Probe>,
) -> bool {
    exists|probe: Probe|
        probe_is(probes, source.place, probe) && config::is_error_of_making(
            e,
            source.tool,
            global_ignore,
            probe,
        )
}

/// The place of the first of the first `n` sources whose tool cannot be
/// made.
pub open spec fn first_unmade(
    made_from: Seq<Source>,
    global_ignore: Seq<Seq<char>>,
    probes: Seq<Probe>,
    n: nat,
) -> Option<int>
    decreases n,
{
    if n == 0 {
        None
    } else {
        match first_unmade(made_from, global_ignore, probes, (n - 1) as nat) {
            Some(i) => Some(i),
            None => if source_can_be_made(made_from[n - 1], global_ignore, probes) {
                None
            } else {
                Some(n - 1)
            },
        }
    }
}

/// Where no source is unmade, the tool of each can be made; where one is,
/// it is the first whose tool cannot.
pub proof fn lemma_first_unmade(
    made_from: Seq<Source>,
    global_ignore: Seq<Seq<char>>,
    probes: Seq<Probe>,
    n: nat,
)
    requires
        n <= made_from.len(),
    ensures
        match first_unmade(made_from, global_ignore, probes, n) {
            Some(i) => 0 <= i < n && !source_can_be_made(made_from[i], global_ignore, probes)
                && forall|j: int|
                0 <= j < i ==> source_can_be_made(#[trigger] made_from[j], global_ignore, probes),
            None => forall|j: int|
                0 <= j < n ==> source_can_be_made(#[trigger] made_from[j], global_ignore, probes),
        },
    decreases n,
{
    if n > 0 {
        lemma_first_unmade(made_from, global_ignore, probes, (n - 1) as nat);
    }
}

/// Once a source is unmade, it stays the first that is.
pub proof fn lemma_unmade_stays(
    made_from: Seq<Source>,
    global_ignore: Seq<Seq<char>>,
    probes: Seq<Probe>,
    k: nat,
    n: nat,
)
    requires
        k <= n,
        first_unmade(made_from, global_ignore, probes, k) is Some,
    ensures
        first_unmade(made_from, global_ignore, probes, n) == first_unmade(
            made_from,
            global_ignore,
            probes,
            k,
        ),
    decreases n,
{
    if n > k {
        lemma_unmade_stays(made_from, global_ignore, probes, k, (n - 1) as nat);
    }
}

/// The tools of a run: every linter that takes part, unless only formatters
/// are asked for, then every formatter that takes part, each made into a
/// tool for the mode of the run. `probes` holds what was found out about
/// each tool of the configuration, linters first.
///
/// Succeeds exactly where the tool of every source can be made: where its
/// patterns compile and its configuration files that are there have a
/// modification time. Else it fails with the error of making the first
/// tool that cannot be made.
pub fn filter_tools(
    run: &cli::Run,
    config: &config::Config,
    mode: RunMode,
    color: cli::Color,
    stdout_is_terminal: bool,
    probes: &Vec<Probe>,
) -> (r: Result<Vec<Arc<tool::Tool>>, ConfigError>)
    ensures
        r is Ok <==> forall|k: int|
            0 <= k < sources(*run, *config, mode).len() ==> source_can_be_made(
                #[trigger] sources(*run, *config, mode)[k],
                views(config.ignore@),
                probes@,
            ),
        r matches Ok(tools) ==> tools_are(
            tools@,
            sources(*run, *config, mode),
            run.careful || config.careful,
            color_word(color, stdout_is_terminal),
            views(config.ignore@),
            probes@,
        ),
        r matches Err(e) ==> (first_unmade(
            sources(*run, *config, mode),
            views(config.ignore@),
            probes@,
            sources(*run, *config, mode).len(),
        ) matches Some(k) && is_error_of_source(
            e,
            sources(*run, *config, mode)[k],
            views(config.ignore@),
            probes@,
        )),
{
    let careful = run.careful || config.careful;
    let nothing = Probe { configs: Vec::new(), version: None, env: Vec::new() };
    let picks = pick_tools(run, config, mode, probes);
    let ghost made_from = sources(*run, *config, mode);
    let ghost word = color_word(color, stdout_is_terminal);
    let ghost ignore = views(config.ignore@);
    let mut tools: Vec<Arc<tool::Tool>> = Vec::new();
    let n: usize = picks.len();
    let mut i: usize = 0;
    while i < n
        invariant
            n == picks@.len(),
            i <= n,
            picks_are(picks@, made_from, probes@),
            made_from == sources(*run, *config, mode),
            careful == (run.careful || config.careful),
            word == color_word(color, stdout_is_terminal),
            ignore == views(config.ignore@),
            tools@.len() == i,
            is_nothing(nothing),
            first_unmade(made_from, ignore, probes@, i as nat) is None,
            forall|k: int|
                0 <= k < i ==> is_made_from(
                    *#[trigger] tools@[k],
                    made_from[k],
                    careful,
                    word,
                    ignore,
                    probes@,
                ),
        decreases n - i,
    {
        let pick = &picks[i];
        let probe: &Probe = match pick.probe {
            Some(p) => &probes[p],
            None => &nothing,
        };
        assert(probe_is(probes@, made_from[i as int].place, *probe));
        assert(source_can_be_made(made_from[i as int], ignore, probes@) == config::can_be_made(
            *pick.tool,
            ignore,
            *probe,
        ));
        let ghost before = tools@;
        match crate::config::make_colored(
            pick.tool,
            pick.template.as_str(),
            careful,
            color,
            stdout_is_terminal,
            &config.ignore,
            probe,
        ) {
            Ok(made) => {
                tools.push(Arc::new(made));
                proof {
                    assert forall|k: int| 0 <= k < i + 1 implies is_made_from(
                        *#[trigger] tools@[k],
                        made_from[k],
                        careful,
                        word,
                        ignore,
                        probes@,
                    ) by {
                        if k < i {
                            assert(tools@[k] == before[k]);
                        } else {
                            assert(is_made_tool(
                                *tools@[k],
                                made_from[k].tool,
                                replaced(made_from[k].template, "{{color}}"@, word),
                                careful,
                                ignore,
                                *probe,
                            ));
                        }
                    }
                }
            },
            Err(e) => {
                proof {
                    assert(first_unmade(made_from, ignore, probes@, (i + 1) as nat) == Some(
                        i as int,
                    ));
                    lemma_unmade_stays(made_from, ignore, probes@, (i + 1) as nat, n as nat);
                    lemma_first_unmade(made_from, ignore, probes@, n as nat);
                    assert(is_error_of_source(e, made_from[i as int], ignore, probes@));
                }
                return Err(e);
            },
        }
        i += 1;
    }
    proof {
        lemma_first_unmade(made_from, ignore, probes@, n as nat);
    }
    Ok(tools)
}

/// What a run needs to know, settled between command line and
/// configuration.
#[derive(Debug)]
pub struct Settings {
    /// The git refs that are known to be good.
    pub refs: Vec<String>,
    /// The cache directory.
    pub cache: String,
    pub cores: usize,
    pub dry_run: bool,
    pub mtime: bool,
    pub ninja: bool,
    pub no_batch: bool,
    pub no_capture: bool,
    pub no_cache: bool,
    pub show_progress: ProgressFormat,
    pub keep_going: bool,
    /// The command to run after success.
    pub on_success: Option<String>,
    /// The command to run after failure.
    pub on_failure: Option<String>,
    pub cache_size: Option<usize>,
}

/// How progress is shown: in place at the usual verbosity, line by line
/// where more is asked for, not at all where less is.
pub open spec fn progress_for(quiet: u8, verbose: u8) -> ProgressFormat {
    if quiet == verbose {
        ProgressFormat::Yes
    } else if quiet <= verbose {
        ProgressFormat::Newline
    } else {
        ProgressFormat::No
    }
}

/// The settings of a run. The command line wins over the configuration:
/// for the refs, unless it gives none; for the jobs; for the cache size.
/// `--no-refs` and `--fresh` leave no ref; `--fresh` and `--no-cache`
/// switch the cache off; `--no-mtime` switches modification times off.
pub fn mk_config(cli: &cli::Cli, run: &cli::Run, config: &config::Config, available: Option<usize>) -> (s:
    Settings)
    ensures
        s.show_progress == progress_for(cli.log.quiet, cli.log.verbose),
        s.refs@ == if run.no_refs || run.fresh {
            Seq::<String>::empty()
        } else if run.refs@.len() > 0 {
            run.refs@
        } else {
            config.refs@
        },
        s.cache == cli.cache,
        s.cores > 0,
        s.cores == match (match run.jobs {
            Some(j) => Some(j),
            None => config.cores,
        }) {
            Some(c) if c > 0 => c,
            _ => match available {
                Some(a) if a > 0 => a,
                _ => 1,
            },
        },
        s.dry_run == run.dry_run,
        s.mtime == (config.mtime && !run.no_mtime),
        s.ninja == (run.ninja || config.ninja == Some(true)),
        s.no_batch == run.no_batch,
        s.no_capture == run.no_capture,
        s.no_cache == (run.no_cache || run.fresh),
        s.keep_going == run.keep_going,
        s.on_success == run.on_success,
        s.on_failure == run.on_failure,
        s.cache_size == match run.cache_size {
            Some(b) => Some(b),
            None => config.cache_size,
        },
{
    let show_progress = if cli.log.quiet == cli.log.verbose {
        ProgressFormat::Yes
    } else if cli.log.quiet <= cli.log.verbose {
        ProgressFormat::Newline
    } else {
        ProgressFormat::No
    };
    let refs: Vec<String> = if run.no_refs || run.fresh {
        Vec::new()
    } else if run.refs.len() > 0 {
        clone_strings(&run.refs)
    } else {
        clone_strings(&config.refs)
    };
    let jobs: Option<usize> = match run.jobs {
        Some(j) => Some(j),
        None => config.cores,
    };
    let ninja: bool = run.ninja || match config.ninja {
        Some(b) => b,
        None => false,
    };
    let cache_size: Option<usize> = match run.cache_size {
        Some(b) => Some(b),
        None => config.cache_size,
    };
    Settings {
        refs,
        cache: cli.cache.clone(),
        cores: num_cores(jobs, available),
        dry_run: run.dry_run,
        mtime: config.mtime && !run.no_mtime,
        ninja,
        no_batch: run.no_batch,
        no_capture: run.no_capture,
        no_cache: run.no_cache || run.fresh,
        show_progress,
        keep_going: run.keep_going,
        on_success: clone_opt(&run.on_success),
        on_failure: clone_opt(&run.on_failure),
        cache_size,
    }
}

/// How a run ended.
#[derive(Clone, Copy, Debug, PartialEq, Eq, Structural)]
pub enum RunResult {
    /// Every command succeeded.
    AllGood { cmds: usize, files: usize },
    /// Some command failed.
    Errors,
}

impl RunResult {
    /// Whether the run succeeded.
    pub fn success(&self) -> (ok: bool)
        ensures
            ok == (*self is AllGood),
    {
        match self {
            RunResult::AllGood { .. } => true,
            RunResult::Errors => false,
        }
    }
}

/// What runs the batches.
#[derive(Clone, Copy, Debug, PartialEq, Eq, Structural)]
pub enum Backend {
    /// Ninja, from a build file; in a dry run the build file is written and
    /// nothing is run.
    Ninja,
    /// Nothing: a dry run.
    Nothing,
    /// The pool of worker threads.
    Pool,
}

/// What runs the batches of a run: ninja where it is asked for, else
/// nothing in a dry run, else the pool.
pub fn do_exec(settings: &Settings) -> (backend: Backend)
    ensures
        backend == if settings.ninja {
            Backend::Ninja
        } else if settings.dry_run {
            Backend::Nothing
        } else {
            Backend::Pool
        },
{
    if settings.ninja {
        Backend::Ninja
    } else if settings.dry_run {
        Backend::Nothing
    } else {
        Backend::Pool
    }
}

/// Whether the cache is flushed once more after the batches were run: only
/// where there were batches.
pub fn flush_after_exec(n_jobs: usize) -> (flush: bool)
    ensures
        flush == (n_jobs > 0),
{
    n_jobs > 0
}

impl From<&RunResult> for bool {
    fn from(value: &RunResult) -> (ok: Self) {
        value.success()
    }
}

impl vstd::std_specs::convert::FromSpecImpl<&RunResult> for bool {
    open spec fn obeys_from_spec() -> bool {
        true
    }

    open spec fn from_spec(value: &RunResult) -> Self {
        *value is AllGood
    }
}

/// The result of a run: a dry run is good and counts nothing; else a run
/// whose commands all succeeded is good and counts its commands and files.
pub fn run_result(dry_run: bool, ok: bool, n_jobs: usize, files_linted: usize) -> (res: RunResult)
    ensures
        res == if dry_run {
            RunResult::AllGood { cmds: 0, files: 0 }
        } else if ok {
            RunResult::AllGood { cmds: n_jobs, files: files_linted }
        } else {
            RunResult::Errors
        },
{
    if dry_run {
        RunResult::AllGood { cmds: 0, files: 0 }
    } else if ok {
        RunResult::AllGood { cmds: n_jobs, files: files_linted }
    } else {
        RunResult::Errors
    }
}

/// The paths of the first `n` files of some batches.
pub open spec fn paths_of(files: Seq<File>, n: nat) -> Set<Seq<char>> {
    Set::new(|p: Seq<char>| exists|i: int| 0 <= i < n && (#[trigger] files[i]).path@ == p)
}

/// The number of different paths among the files of the batches.
pub fn files_linted(jobs: &Vec<Command>) -> (count: usize)
    ensures
        count == paths_of(crate::cmd::all_files(jobs@), crate::cmd::all_files(jobs@).len()).len(),
{
    let mut seen: Vec<String> = Vec::new();
    let ghost all = crate::cmd::all_files(jobs@);
    let n: usize = jobs.len();
    let mut i: usize = 0;
    let ghost mut done: Seq<File> = Seq::empty();
    assert(paths_of(done, 0) =~= Set::<Seq<char>>::empty());
    assert(crate::cmd::all_files(jobs@.subrange(0, 0)) =~= Seq::<File>::empty());
    while i < n
        invariant
            n == jobs@.len(),
            i <= n,
            done == crate::cmd::all_files(jobs@.subrange(0, i as int)),
            views(seen@).no_duplicates(),
            views(seen@).to_set() == paths_of(done, done.len()),
        decreases n - i,
    {
        let files = &jobs[i].files;
        let m: usize = files.len();
        let mut j: usize = 0;
        let ghost base = done;
        assert(base + files@.subrange(0, 0) =~= base);
        while j < m
            invariant
                m == files@.len(),
                j <= m,
                done == base + files@.subrange(0, j as int),
                views(seen@).no_duplicates(),
                views(seen@).to_set() == paths_of(done, done.len()),
            decreases m - j,
        {
            let path = files[j].path.as_str();
            let ghost before = views(seen@);
            let ghost prev = done;
            proof {
                done = base + files@.subrange(0, j + 1);
                assert(done =~= prev.push(files@[j as int]));
                assert(paths_of(done, done.len()) =~= paths_of(prev, prev.len()).insert(path@)) by {
                    assert forall|p: Seq<char>|
                        paths_of(done, done.len()).contains(p) <==> paths_of(
                            prev,
                            prev.len(),
                        ).contains(p) || p == path@ by {
                        if paths_of(done, done.len()).contains(p) {
                            let k = choose|k: int|
                                0 <= k < done.len() && (#[trigger] done[k]).path@ == p;
                            if k < prev.len() {
                                assert(prev[k].path@ == p);
                            }
                        }
                        if paths_of(prev, prev.len()).contains(p) {
                            let k = choose|k: int|
                                0 <= k < prev.len() && (#[trigger] prev[k]).path@ == p;
                            assert(done[k].path@ == p);
                        }
                        if p == path@ {
                            assert(done[prev.len() as int].path@ == p);
                        }
                    }
                }
            }
            if !contains_str(&seen, path) {
                seen.push(files[j].path.clone());
                proof {
                    assert(views(seen@) =~= before.push(path@));
                    before.lemma_push_to_set_commute(path@);
                }
            } else {
                assert(before.to_set().insert(path@) =~= before.to_set());
            }
            j += 1;
        }
        proof {
            assert(files@.subrange(0, m as int) =~= files@);
            let next = jobs@.subrange(0, i + 1);
            assert(next.drop_last() =~= jobs@.subrange(0, i as int));
            assert(next.last() == jobs@[i as int]);
        }
        i += 1;
    }
    proof {
        assert(jobs@.subrange(0, n as int) =~= jobs@);
        views(seen@).unique_seq_to_set();
    }
    seen.len()
}

/// The line that closes a good run.
pub open spec fn result_line(cmds: usize, files: usize) -> Seq<char> {
    "\x1b[2K\r["@ + spec_decimal(cmds as nat) + "/"@ + spec_decimal(cmds as nat) + "] "@ + (if files
        == 1 {
        "1 file linted"@
    } else {
        spec_decimal(files as nat) + " files linted"@
    })
}

/// The line to show for a result: the count of commands and files for a
/// good run, nothing for a run with errors, whose output was shown already.
pub fn report_result(res: &RunResult) -> (line: Option<String>)
    ensures
        match *res {
            RunResult::AllGood { cmds, files } => line matches Some(l) && l@ == result_line(
                cmds,
                files,
            ),
            RunResult::Errors => line is None,
        },
{
    match res {
        RunResult::AllGood { cmds, files } => {
            let count = decimal(*cmds as u128);
            let mut line: String = "\x1b[2K\r[".to_owned();
            line.append(count.as_str());
            line.append("/");
            line.append(count.as_str());
            line.append("] ");
            if *files == 1 {
                line.append("1 file linted");
            } else {
                let n = decimal(*files as u128);
                line.append(n.as_str());
                line.append(" files linted");
            }
            Some(line)
        },
        RunResult::Errors => None,
    }
}

/// The command to run when the run is over: the one for success after a
/// good run, the one for failure after any other.
pub fn then_else<'a>(settings: &'a Settings, result: &RunResult) -> (hook: &'a Option<String>)
    ensures
        *hook == if *result is AllGood {
            settings.on_success
        } else {
            settings.on_failure
        },
{
    if result.success() {
        &settings.on_success
    } else {
        &settings.on_failure
    }
}

/// One check: the level of its warning, the lines it found, and the message
/// with which it refuses.
pub struct Check {
    pub level: crate::warn::level::Level,
    pub lines: Seq<Seq<char>>,
    pub message: Seq<char>,
}

/// The checks on a run and its configuration, in the order in which they
/// are made: unknown tools, unlisted configuration files, tools without
/// files, `careful`, modification times, refs.
pub open spec fn checks(
    run_cli: cli::Run,
    config: config::Config,
    lints: Warns,
    existing: Seq<Seq<char>>,
) -> Seq<Check> {
    seq![
        Check {
            level: lints@.level(crate::warn::warn::Warn::UnknownTool),
            lines: crate::warn::unknown_tool_lines(
                crate::warn::config_names(config),
                views(run_cli.skip_tool@),
                "--skip-tool"@,
                run_cli.skip_tool@.len(),
            ) + crate::warn::unknown_tool_lines(
                crate::warn::config_names(config),
                views(run_cli.only_tool@),
                "--only-tool"@,
                run_cli.only_tool@.len(),
            ),
            message: "found unknown tool names and --deny=unknown-tool"@,
        },
        Check {
            level: lints@.level(crate::warn::warn::Warn::UnlistedConfig),
            lines: crate::warn::unlisted_lines(
                crate::warn::config_tools(config),
                existing,
                crate::warn::config_tools(config).len(),
            ),
            message: "found unlisted config files and --deny=unlisted-config"@,
        },
        Check {
            level: lints@.level(crate::warn::warn::Warn::NoFiles),
            lines: crate::warn::no_files_lines(
                crate::warn::config_tools(config),
                crate::warn::config_tools(config).len(),
            ),
            message: "found tools with empty `files` arrays and --deny=no-files"@,
        },
        Check {
            level: lints@.level(crate::warn::warn::Warn::Careful),
            lines: crate::warn::line_if(
                !(run_cli.careful || config.careful),
                "--careful is not set at CLI or config level"@,
            ),
            message: "--careful is not set and --deny=careful"@,
        },
        Check {
            level: lints@.level(crate::warn::warn::Warn::Mtime),
            lines: crate::warn::line_if(
                config.mtime && !run_cli.no_mtime,
                if lints@.level(crate::warn::warn::Warn::Mtime) == crate::warn::level::Level::Deny {
                    "mtime is enabled on CLI or config file"@
                } else {
                    "mtime is enabled"@
                },
            ),
            message: "mtime is set and --deny=mtime"@,
        },
        Check {
            level: lints@.level(crate::warn::warn::Warn::Refs),
            lines: crate::warn::line_if(
                run_cli.refs@.len() > 0 || config.refs@.len() > 0,
                "refs is used on CLI or config file"@,
            ),
            message: "refs is used and --deny=refs"@,
        },
    ]
}

/// Whether a check refuses the run: its warning is denied and it found
/// something.
pub open spec fn refuses(check: Check) -> bool {
    check.level == crate::warn::level::Level::Deny && check.lines.len() > 0
}

/// The lines that a check shows: those it found, where its warning is at
/// warn.
pub open spec fn shows(check: Check) -> Seq<Seq<char>> {
    if check.level == crate::warn::level::Level::Warn {
        check.lines
    } else {
        Seq::empty()
    }
}

/// What the checks come to: the refusal of the first that refuses, else
/// the lines that they show, in their order.
pub open spec fn lint_verdict(cs: Seq<Check>, r: Result<Vec<String>, Denied>) -> bool
    recommends
        cs.len() == 6,
{
    if refuses(cs[0]) {
        r matches Err(d) && d.message@ == cs[0].message && views(d.errors@) == cs[0].lines
    } else if refuses(cs[1]) {
        r matches Err(d) && d.message@ == cs[1].message && views(d.errors@) == cs[1].lines
    } else if refuses(cs[2]) {
        r matches Err(d) && d.message@ == cs[2].message && views(d.errors@) == cs[2].lines
    } else if refuses(cs[3]) {
        r matches Err(d) && d.message@ == cs[3].message && views(d.errors@) == cs[3].lines
    } else if refuses(cs[4]) {
        r matches Err(d) && d.message@ == cs[4].message && views(d.errors@) == cs[4].lines
    } else if refuses(cs[5]) {
        r matches Err(d) && d.message@ == cs[5].message && views(d.errors@) == cs[5].lines
    } else {
        r matches Ok(shown) && views(shown@) == shows(cs[0]) + shows(cs[1]) + shows(cs[2])
            + shows(cs[3]) + shows(cs[4]) + shows(cs[5])
    }
}

/// Adds what a check showed to what was shown before, or passes its refusal
/// on.
fn and_then(mut shown: Vec<String>, r: Result<Vec<String>, Denied>, Ghost(check): Ghost<Check>) -> (out:
    Result<Vec<String>, Denied>)
    requires
        crate::warn::verdict(check.level, check.lines, check.message, r),
    ensures
        refuses(check) ==> (out matches Err(d) && d.message@ == check.message && views(d.errors@)
            == check.lines),
        !refuses(check) ==> (out matches Ok(all) && views(all@) == views(shown@) + shows(check)),
{
    match r {
        Ok(mut more) => {
            let ghost before = views(shown@);
            let ghost added = views(more@);
            shown.append(&mut more);
            assert(views(shown@) =~= before + added);
            Ok(shown)
        },
        Err(d) => Err(d),
    }
}

/// Runs the checks on a run and its configuration, in the order of
/// [`checks`]. The first check that is denied and finds something refuses
/// the run. Else the lines to show come back, in the order of the checks.
/// `existing` holds the configuration files of known tools that were found
/// on disk.
pub fn lint(run_cli: &cli::Run, config: &config::Config, lints: &Warns, existing: &Vec<String>) -> (r:
    Result<Vec<String>, Denied>)
    ensures
        lint_verdict(checks(*run_cli, *config, *lints, views(existing@)), r),
{
    let ghost cs = checks(*run_cli, *config, *lints, views(existing@));
    let shown: Vec<String> = Vec::new();
    assert(views(shown@) =~= Seq::<Seq<char>>::empty());
    let shown = match and_then(
        shown,
        check_unknown_tools(lints, &run_cli.skip_tool, &run_cli.only_tool, config),
        Ghost(cs[0]),
    ) {
        Ok(s) => s,
        Err(d) => {
            return Err(d);
        },
    };
    let shown = match and_then(shown, check_unlisted_config(lints, config, existing), Ghost(cs[1])) {
        Ok(s) => s,
        Err(d) => {
            return Err(d);
        },
    };
    let shown = match and_then(shown, check_no_files(lints, config), Ghost(cs[2])) {
        Ok(s) => s,
        Err(d) => {
            return Err(d);
        },
    };
    let shown = match and_then(
        shown,
        check_careful(lints, run_cli.careful, config.careful),
        Ghost(cs[3]),
    ) {
        Ok(s) => s,
        Err(d) => {
            return Err(d);
        },
    };
    let shown = match and_then(
        shown,
        check_mtime(lints, run_cli.no_mtime, config.mtime),
        Ghost(cs[4]),
    ) {
        Ok(s) => s,
        Err(d) => {
            return Err(d);
        },
    };
    let r = and_then(shown, check_refs(lints, &run_cli.refs, &config.refs), Ghost(cs[5]));
    proof {
        if r is Ok {
            assert(views(r->Ok_0@) =~= shows(cs[0]) + shows(cs[1]) + shows(cs[2]) + shows(cs[3])
                + shows(cs[4]) + shows(cs[5]));
        }
    }
    r
}

/// Whether a path lies in a directory that is none of the project's
/// business: whether one of its components is the cache directory `.lun`,
/// `.git` or `target`.
pub open spec fn path_ignored(components: Seq<Seq<char>>) -> bool {
    components.contains(".lun"@) || components.contains(".git"@) || components.contains("target"@)
}

/// Whether a change that the file system reported calls for another run:
/// not where it was a mere access, and not where every path it concerns is
/// ignored. Each path is given as its components.
pub fn need_rerun(is_access: bool, paths: &Vec<Vec<String>>) -> (rerun: bool)
    ensures
        rerun == (!is_access && exists|i: int|
            0 <= i < paths@.len() && !path_ignored(views((#[trigger] paths@[i])@))),
{
    if is_access {
        return false;
    }
    let n: usize = paths.len();
    let mut i: usize = 0;
    while i < n
        invariant
            n == paths@.len(),
            i <= n,
            !is_access,
            forall|j: int| 0 <= j < i ==> path_ignored(views((#[trigger] paths@[j])@)),
        decreases n - i,
    {
        let components = &paths[i];
        let ignored: bool = contains_str(components, ".lun") || contains_str(components, ".git")
            || contains_str(components, "target");
        if !ignored {
            assert(!path_ignored(views(paths@[i as int]@)));
            return true;
        }
        i += 1;
    }
    false
}

} // verus!
