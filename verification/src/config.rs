//! What a configuration file says, as plain values, and how the entries of
//! known tools are merged into it.

use vstd::prelude::*;
use vstd::bytes::{spec_u128_to_le_bytes, u128_to_le_bytes};
use vstd::string::StringSliceAdditionalSpecFns;
use globset::{Glob, GlobSet};
use crate::cli::Color;
use crate::file::{compute_hash, feed, hash_md, hash_mtime, md_bytes, mtime_bytes, Metadata, Xxhash};
use crate::glob::{
    all_compile, glob_new, glob_pattern, glob_set_new, glob_set_patterns, lemma_refused_stays,
    refused_at,
};
use crate::hash::{xxh3_128, xxh3_128_digest};
use crate::known::{
    known_formatter_by_name, known_linter_by_name, opt_view, spec_known_formatter,
    spec_known_linter,
};
use crate::order::{
    bytes_le, is_sorted_order, lemma_bytes_le_antisymmetric, lemma_order_lists_all,
    lemma_sorted_order_unique, sorted_order,
};
use crate::run::RunMode;
use crate::sorting::picked;
use crate::text::{clone_opt, clone_strings, replace_all, replaced, split_whitespace, views, words};
use crate::tool;

verus! {

/// Whether a tool takes its files one invocation at a time or all at once.
#[derive(Clone, Copy, Debug, PartialEq, Eq, Structural)]
pub enum Granularity {
    /// Files may be spread over several invocations.
    Individual,
    /// All files go to a single invocation.
    Batch,
}

impl Default for Granularity {
    fn default() -> (g: Self)
        ensures
            g == Granularity::Individual,
    {
        Granularity::Individual
    }
}

/// Whether modification times are used where the configuration is silent.
pub fn default_mtime() -> (mtime: bool)
    ensures
        mtime,
{
    true
}

/// Whether `mtime` is what a silent configuration means.
pub fn is_default_mtime(mtime: &bool) -> (is_default: bool)
    ensures
        is_default == *mtime,
{
    *mtime == default_mtime()
}

/// The levels that the configuration sets for warnings, by name.
#[derive(Debug)]
pub struct WarnCfg {
    pub allow: Vec<String>,
    pub warn: Vec<String>,
    pub deny: Vec<String>,
}

/// What the configuration says of one tool.
#[derive(Debug)]
pub struct Tool {
    pub name: Option<String>,
    /// The command, with `{{color}}` where the colour choice goes.
    pub cmd: String,
    /// Patterns of the files the tool applies to.
    pub files: Vec<String>,
    /// Patterns of the files it leaves alone.
    pub ignore: Vec<String>,
    pub granularity: Granularity,
    /// The configuration files of the tool itself.
    pub configs: Vec<String>,
    /// The directory to run it in.
    pub cd: Option<String>,
}

/// A tool that reports.
#[derive(Debug)]
pub struct Linter {
    pub tool: Tool,
    /// The command that also repairs, if there is one.
    pub fix: Option<String>,
}

/// A tool that rewrites.
#[derive(Debug)]
pub struct Formatter {
    pub tool: Tool,
    /// The command that only reports, if there is one.
    pub check: Option<String>,
}

/// An entry that names a known tool and overrides some of its settings.
#[derive(Debug)]
pub struct KnownTool {
    pub name: String,
    pub cmd: Option<String>,
    pub files: Vec<String>,
    pub ignore: Vec<String>,
    pub granularity: Option<Granularity>,
    pub configs: Vec<String>,
    pub cd: Option<String>,
    pub fix: Option<String>,
    pub check: Option<String>,
}

/// A configuration file.
#[derive(Debug)]
pub struct Config {
    pub linter: Vec<Linter>,
    pub formatter: Vec<Formatter>,
    /// Byte budget of the cache file.
    pub cache_size: Option<usize>,
    pub careful: bool,
    /// Number of parallel jobs; never 0.
    pub cores: Option<usize>,
    /// Patterns of files that no tool applies to.
    pub ignore: Vec<String>,
    pub mtime: bool,
    pub ninja: Option<bool>,
    /// Git refs that are known to be good.
    pub refs: Vec<String>,
    pub tool: Vec<KnownTool>,
    pub warns: WarnCfg,
}

/// Why a configuration is refused.
#[derive(Debug)]
pub enum ConfigError {
    /// An entry names a tool that is not known.
    UnknownTool { name: String },
    /// A `files` pattern of a tool is not a glob.
    InvalidFilesGlob { pattern: String, tool: String },
    /// An `ignore` pattern of a tool is not a glob.
    InvalidIgnoreGlob { pattern: String, tool: String },
    /// The `files` patterns of a tool could not be compiled together.
    FilesGlobSet { tool: String },
    /// The `ignore` patterns of a tool could not be compiled together.
    IgnoreGlobSet { tool: String },
    /// A glob given with `--only-files` is not a glob.
    InvalidOnlyGlob { pattern: String },
    /// A glob given with `--skip-files` is not a glob.
    InvalidSkipGlob { pattern: String },
    /// A configuration file of a tool has no modification time.
    NoMtime { tool: String },
}

/// Two tools say the same.
pub open spec fn same_tool(a: Tool, b: Tool) -> bool {
    &&& a.name == b.name
    &&& a.cmd == b.cmd
    &&& a.files@ == b.files@
    &&& a.ignore@ == b.ignore@
    &&& a.granularity == b.granularity
    &&& a.configs@ == b.configs@
    &&& a.cd == b.cd
}

impl Clone for Tool {
    fn clone(&self) -> (copy: Self)
        ensures
            same_tool(copy, *self),
    {
        Tool {
            name: clone_opt(&self.name),
            cmd: self.cmd.clone(),
            files: clone_strings(&self.files),
            ignore: clone_strings(&self.ignore),
            granularity: self.granularity,
            configs: clone_strings(&self.configs),
            cd: clone_opt(&self.cd),
        }
    }
}

impl Clone for Linter {
    fn clone(&self) -> (copy: Self)
        ensures
            same_tool(copy.tool, self.tool),
            copy.fix == self.fix,
    {
        Linter { tool: self.tool.clone(), fix: clone_opt(&self.fix) }
    }
}

impl Clone for Formatter {
    fn clone(&self) -> (copy: Self)
        ensures
            same_tool(copy.tool, self.tool),
            copy.check == self.check,
    {
        Formatter { tool: self.tool.clone(), check: clone_opt(&self.check) }
    }
}

impl KnownTool {
    /// The tool after the settings of this entry were laid over it: every
    /// setting that the entry gives replaces the tool's, a list that the
    /// entry leaves empty does not.
    pub open spec fn merged(self, tool: Tool, merged: Tool) -> bool {
        &&& merged.name == tool.name
        &&& merged.cmd == match self.cmd {
            Some(c) => c,
            None => tool.cmd,
        }
        &&& merged.files@ == if self.files@.len() > 0 {
            self.files@
        } else {
            tool.files@
        }
        &&& merged.ignore@ == if self.ignore@.len() > 0 {
            self.ignore@
        } else {
            tool.ignore@
        }
        &&& merged.granularity == match self.granularity {
            Some(g) => g,
            None => tool.granularity,
        }
        &&& merged.configs@ == if self.configs@.len() > 0 {
            self.configs@
        } else {
            tool.configs@
        }
        &&& merged.cd == match self.cd {
            Some(c) => Some(c),
            None => tool.cd,
        }
    }

    fn merge_into_tool(&self, tool: &mut Tool)
        ensures
            self.merged(*old(tool), *final(tool)),
    {
        if let Some(cmd) = &self.cmd {
            tool.cmd = cmd.clone();
        }
        if self.files.len() > 0 {
            tool.files = clone_strings(&self.files);
        }
        if self.ignore.len() > 0 {
            tool.ignore = clone_strings(&self.ignore);
        }
        if let Some(granularity) = self.granularity {
            tool.granularity = granularity;
        }
        if self.configs.len() > 0 {
            tool.configs = clone_strings(&self.configs);
        }
        if let Some(cd) = &self.cd {
            tool.cd = Some(cd.clone());
        }
    }

    /// Lays the settings of this entry over a linter; a `fix` command that
    /// the entry gives replaces the linter's.
    pub fn merge_into_linter(&self, linter: &mut Linter)
        ensures
            self.merged(old(linter).tool, final(linter).tool),
            final(linter).fix == match self.fix {
                Some(f) => Some(f),
                None => old(linter).fix,
            },
    {
        self.merge_into_tool(&mut linter.tool);
        if let Some(fix) = &self.fix {
            linter.fix = Some(fix.clone());
        }
    }

    /// Lays the settings of this entry over a formatter; a `check` command
    /// that the entry gives replaces the formatter's.
    pub fn merge_into_formatter(&self, formatter: &mut Formatter)
        ensures
            self.merged(old(formatter).tool, final(formatter).tool),
            final(formatter).check == match self.check {
                Some(c) => Some(c),
                None => old(formatter).check,
            },
    {
        self.merge_into_tool(&mut formatter.tool);
        if let Some(check) = &self.check {
            formatter.check = Some(check.clone());
        }
    }
}

/// Whether a name is that of a known linter or formatter.
pub open spec fn is_known(name: Seq<char>) -> bool {
    spec_known_linter(name) is Some || spec_known_formatter(name) is Some
}

/// `tool` is what is known of a tool with the settings of `entry` laid over
/// it.
pub open spec fn merged_known(entry: KnownTool, known: crate::known::Known, tool: Tool) -> bool {
    &&& opt_view(tool.name) == known.name
    &&& tool.cmd@ == match entry.cmd {
        Some(c) => c@,
        None => known.cmd,
    }
    &&& views(tool.files@) == if entry.files@.len() > 0 {
        views(entry.files@)
    } else {
        known.files
    }
    &&& views(tool.ignore@) == views(entry.ignore@)
    &&& tool.granularity == match entry.granularity {
        Some(g) => g,
        None => known.granularity,
    }
    &&& views(tool.configs@) == if entry.configs@.len() > 0 {
        views(entry.configs@)
    } else {
        known.configs
    }
    &&& opt_view(tool.cd) == opt_view(entry.cd)
}

/// The linter is the known linter that `entry` names, with the settings of
/// `entry` laid over it.
pub open spec fn is_merged_linter(entry: KnownTool, linter: Linter) -> bool {
    spec_known_linter(entry.name@) matches Some(known) && merged_known(entry, known, linter.tool)
        && opt_view(linter.fix) == match entry.fix {
        Some(f) => Some(f@),
        None => known.alt,
    }
}

/// The formatter is the known formatter that `entry` names, with the
/// settings of `entry` laid over it.
pub open spec fn is_merged_formatter(entry: KnownTool, formatter: Formatter) -> bool {
    spec_known_formatter(entry.name@) matches Some(known) && merged_known(
        entry,
        known,
        formatter.tool,
    ) && opt_view(formatter.check) == match entry.check {
        Some(c) => Some(c@),
        None => known.alt,
    }
}

/// Those of the first `n` entries that name a known linter.
pub open spec fn linter_entries(entries: Seq<KnownTool>, n: nat) -> Seq<KnownTool>
    decreases n,
{
    if n == 0 {
        Seq::empty()
    } else {
        let before = linter_entries(entries, (n - 1) as nat);
        if spec_known_linter(entries[n - 1].name@) is Some {
            before.push(entries[n - 1])
        } else {
            before
        }
    }
}

/// Those of the first `n` entries that name no known linter, but a known
/// formatter.
pub open spec fn formatter_entries(entries: Seq<KnownTool>, n: nat) -> Seq<KnownTool>
    decreases n,
{
    if n == 0 {
        Seq::empty()
    } else {
        let before = formatter_entries(entries, (n - 1) as nat);
        if spec_known_linter(entries[n - 1].name@) is None && spec_known_formatter(
            entries[n - 1].name@,
        ) is Some {
            before.push(entries[n - 1])
        } else {
            before
        }
    }
}

/// The number of entries before the first that names no known tool; the
/// number of all entries where each names one.
pub open spec fn known_prefix(entries: Seq<KnownTool>, n: nat) -> nat
    decreases n,
{
    if n == 0 {
        0
    } else {
        let before = known_prefix(entries, (n - 1) as nat);
        if before == n - 1 && is_known(entries[n - 1].name@) {
            n
        } else {
            before
        }
    }
}

/// The prefix of known entries is no longer than the entries looked at, and
/// stays where it ended.
pub proof fn lemma_known_prefix(entries: Seq<KnownTool>, k: nat, n: nat)
    requires
        k <= n,
        known_prefix(entries, k) < k,
    ensures
        known_prefix(entries, n) == known_prefix(entries, k),
    decreases n,
{
    if n > k {
        lemma_known_prefix(entries, k, (n - 1) as nat);
    }
}

/// After `before` come the linters that the entries have become, one for
/// one.
pub open spec fn linters_added(before: Seq<Linter>, after: Seq<Linter>, entries: Seq<KnownTool>) -> bool {
    &&& after.len() == before.len() + entries.len()
    &&& before.is_prefix_of(after)
    &&& forall|k: int|
        0 <= k < entries.len() ==> is_merged_linter(entries[k], #[trigger] after[before.len() + k])
}

/// After `before` come the formatters that the entries have become, one
/// for one.
pub open spec fn formatters_added(
    before: Seq<Formatter>,
    after: Seq<Formatter>,
    entries: Seq<KnownTool>,
) -> bool {
    &&& after.len() == before.len() + entries.len()
    &&& before.is_prefix_of(after)
    &&& forall|k: int|
        0 <= k < entries.len() ==> is_merged_formatter(
            entries[k],
            #[trigger] after[before.len() + k],
        )
}

impl Config {
    /// Adds to the linters and formatters the known tools that the `tool`
    /// entries name, each with the entry's settings laid over it: a known
    /// linter goes to the end of the linters, else a known formatter to the
    /// end of the formatters. Fails at the first entry that names neither,
    /// with what was added for the entries before it.
    pub fn known_tools(&mut self) -> (r: Result<(), ConfigError>)
        ensures
            final(self).tool == old(self).tool,
            ({
                let entries = old(self).tool@;
                let n = known_prefix(entries, entries.len());
                &&& r is Ok <==> n == entries.len()
                &&& r matches Err(e) ==> e matches ConfigError::UnknownTool { name } && name@
                    == entries[n as int].name@
                &&& linters_added(old(self).linter@, final(self).linter@, linter_entries(entries, n))
                &&& formatters_added(
                    old(self).formatter@,
                    final(self).formatter@,
                    formatter_entries(entries, n),
                )
            }),
    {
        let n: usize = self.tool.len();
        let mut i: usize = 0;
        while i < n
            invariant
                n == self.tool@.len(),
                i <= n,
                self.tool == old(self).tool,
                known_prefix(self.tool@, i as nat) == i,
                linters_added(old(self).linter@, self.linter@, linter_entries(self.tool@, i as nat)),
                formatters_added(
                    old(self).formatter@,
                    self.formatter@,
                    formatter_entries(self.tool@, i as nat),
                ),
            decreases n - i,
        {
            let name = self.tool[i].name.as_str();
            let ghost entry = self.tool@[i as int];
            match known_linter_by_name(name) {
                Some(mut linter) => {
                    self.tool[i].merge_into_linter(&mut linter);
                    assert(views(linter.tool.ignore@) =~= views(entry.ignore@));
                    assert(is_merged_linter(entry, linter));
                    self.linter.push(linter);
                },
                None => match known_formatter_by_name(name) {
                    Some(mut formatter) => {
                        self.tool[i].merge_into_formatter(&mut formatter);
                        assert(views(formatter.tool.ignore@) =~= views(entry.ignore@));
                        assert(is_merged_formatter(entry, formatter));
                        self.formatter.push(formatter);
                    },
                    None => {
                        proof {
                            assert(known_prefix(self.tool@, (i + 1) as nat) == i);
                            lemma_known_prefix(self.tool@, (i + 1) as nat, n as nat);
                        }
                        return Err(ConfigError::UnknownTool { name: self.tool[i].name.clone() });
                    },
                },
            }
            i += 1;
        }
        Ok(())
    }
}

/// The word that stands for a colour choice in a command: `always` or
/// `never`, the automatic choice going by whether standard output is a
/// terminal.
pub open spec fn color_word(color: Color, stdout_is_terminal: bool) -> Seq<char> {
    if color == Color::Always || (color == Color::Auto && stdout_is_terminal) {
        "always"@
    } else {
        "never"@
    }
}

/// See [`color_word`].
pub fn color_to_str(color: Color, stdout_is_terminal: bool) -> (s: &'static str)
    ensures
        s@ == color_word(color, stdout_is_terminal),
{
    match color {
        Color::Always => "always",
        Color::Never => "never",
        Color::Auto => if stdout_is_terminal {
            "always"
        } else {
            "never"
        },
    }
}

/// What was found out about a tool's surroundings before its stamp is made.
pub struct Probe {
    /// The configuration files of the tool, each with its metadata; `None`
    /// for a file that is not there.
    pub configs: Vec<(String, Option<Metadata>)>,
    /// What the tool printed when asked for its version, trimmed; `None`
    /// where it was not asked or did not answer.
    pub version: Option<String>,
    /// The environment: names and values.
    pub env: Vec<(Vec<u8>, Vec<u8>)>,
}

/// The bytes in upper case, as far as they are ASCII letters.
pub open spec fn upper(b: Seq<u8>) -> Seq<u8> {
    Seq::new(
        b.len(),
        |i: int|
            if 0x61 <= b[i] <= 0x7a {
                (b[i] - 0x20) as u8
            } else {
                b[i]
            },
    )
}

/// The program of a command: its first word, or the whole command where it
/// has no word.
pub open spec fn program_of(cmd: Seq<char>) -> Seq<char> {
    if words(cmd).len() > 0 {
        words(cmd)[0]
    } else {
        cmd
    }
}

/// The prefix of the environment variables that count for a command: its
/// program in upper case, then an underscore.
pub open spec fn spec_env_prefix(cmd: Seq<char>) -> Seq<u8> {
    upper(vstd::utf8::encode_utf8(program_of(cmd))).push(0x5f)
}

/// See [`program_of`].
pub fn program(cmd: &str) -> (exe: String)
    ensures
        exe@ == program_of(cmd@),
{
    let mut parts = split_whitespace(cmd);
    if parts.len() > 0 {
        assert(views(parts@)[0] == parts@[0]@);
        parts.swap_remove(0)
    } else {
        cmd.to_owned()
    }
}

/// See [`spec_env_prefix`].
pub fn env_prefix(cmd: &str) -> (prefix: Vec<u8>)
    ensures
        prefix@ == spec_env_prefix(cmd@),
{
    let exe = program(cmd);
    let bytes = exe.as_str().as_bytes();
    let mut prefix: Vec<u8> = Vec::new();
    let n: usize = bytes.len();
    let mut i: usize = 0;
    while i < n
        invariant
            n == bytes@.len(),
            i <= n,
            prefix@ == upper(bytes@).subrange(0, i as int),
        decreases n - i,
    {
        let b: u8 = bytes[i];
        let u: u8 = if 0x61 <= b && b <= 0x7a {
            b - 0x20
        } else {
            b
        };
        prefix.push(u);
        assert(prefix@ =~= upper(bytes@).subrange(0, i + 1));
        i += 1;
    }
    assert(upper(bytes@).subrange(0, n as int) =~= upper(bytes@));
    prefix.push(0x5f);
    prefix
}

/// Whether `key` begins with `prefix`.
pub open spec fn begins_with(key: Seq<u8>, prefix: Seq<u8>) -> bool {
    prefix.len() <= key.len() && key.subrange(0, prefix.len() as int) == prefix
}

/// See [`begins_with`].
pub fn starts_with(key: &[u8], prefix: &[u8]) -> (b: bool)
    ensures
        b == begins_with(key@, prefix@),
{
    if prefix.len() > key.len() {
        return false;
    }
    let n: usize = prefix.len();
    let mut i: usize = 0;
    while i < n
        invariant
            n == prefix@.len(),
            n <= key@.len(),
            i <= n,
            forall|j: int| 0 <= j < i ==> key@[j] == prefix@[j],
        decreases n - i,
    {
        if key[i] != prefix[i] {
            assert(key@.subrange(0, n as int)[i as int] != prefix@[i as int]);
            return false;
        }
        i += 1;
    }
    assert(key@.subrange(0, n as int) =~= prefix@);
    true
}

/// Those of the first `n` variables whose name begins with `prefix`.
pub open spec fn relevant(env: Seq<(Vec<u8>, Vec<u8>)>, prefix: Seq<u8>, n: nat) -> Seq<
    (Seq<u8>, Seq<u8>),
>
    decreases n,
{
    if n == 0 {
        Seq::empty()
    } else {
        let before = relevant(env, prefix, (n - 1) as nat);
        if begins_with(env[n - 1].0@, prefix) {
            before.push((env[n - 1].0@, env[n - 1].1@))
        } else {
            before
        }
    }
}

/// The bytes of the first `n` variables in `order`: each name, then its
/// value.
pub open spec fn env_bytes(vars: Seq<(Seq<u8>, Seq<u8>)>, order: Seq<usize>, n: nat) -> Seq<u8>
    decreases n,
{
    if n == 0 {
        Seq::empty()
    } else {
        env_bytes(vars, order, (n - 1) as nat) + vars[order[n - 1] as int].0 + vars[order[n
            - 1] as int].1
    }
}

/// The 16 bytes of a digest, or none where there is no digest.
pub open spec fn opt_digest_bytes(h: Option<Xxhash>) -> Seq<u8> {
    match h {
        Some(x) => spec_u128_to_le_bytes(x.0),
        None => Seq::empty(),
    }
}

/// The bytes of a string, or none where there is no string.
pub open spec fn opt_str_bytes(s: Option<Seq<char>>) -> Seq<u8> {
    match s {
        Some(x) => vstd::utf8::encode_utf8(x),
        None => Seq::empty(),
    }
}

/// The bytes that a tool stamp is the digest of: the command, the digest
/// of the configuration files, the digest of the version, the working
/// directory, and the environment variables that count, by name.
pub open spec fn stamp_bytes(
    cmd: Seq<char>,
    config: Option<Xxhash>,
    version: Option<Xxhash>,
    cd: Option<Seq<char>>,
    vars: Seq<(Seq<u8>, Seq<u8>)>,
    order: Seq<usize>,
) -> Seq<u8> {
    vstd::utf8::encode_utf8(cmd) + opt_digest_bytes(config) + opt_digest_bytes(version)
        + opt_str_bytes(cd) + env_bytes(vars, order, order.len())
}

/// The names of some variables.
pub open spec fn var_names(vars: Seq<(Seq<u8>, Seq<u8>)>) -> Seq<Seq<u8>> {
    Seq::new(vars.len(), |i: int| vars[i].0)
}

/// Whether `stamp` is the stamp of a tool with this command, these digests,
/// this working directory and this environment: the digest of
/// [`stamp_bytes`], with the variables whose name begins with the prefix of
/// the command, in ascending order of their names; variables of one name
/// keep their order. There is one such stamp: see
/// [`lemma_stamp_is_stable`].
pub open spec fn is_tool_stamp(
    stamp: tool::Stamp,
    cmd: Seq<char>,
    config: Option<Xxhash>,
    version: Option<Xxhash>,
    cd: Option<Seq<char>>,
    env: Seq<(Vec<u8>, Vec<u8>)>,
) -> bool {
    let vars = relevant(env, spec_env_prefix(cmd), env.len());
    exists|order: Seq<usize>|
        is_sorted_order(order, var_names(vars)) && stamp.0.0 == xxh3_128_digest(
            stamp_bytes(cmd, config, version, cd, vars, order),
        )
}

/// The stamp of a tool.
pub fn build_tool_stamp(
    cmd: &str,
    config: Option<Xxhash>,
    version: Option<Xxhash>,
    cd: &Option<String>,
    env: &Vec<(Vec<u8>, Vec<u8>)>,
) -> (stamp: tool::Stamp)
    ensures
        is_tool_stamp(stamp, cmd@, config, version, opt_view(*cd), env@),
{
    let mut hasher: Vec<u8> = Vec::new();
    feed(&mut hasher, cmd.as_bytes());
    if let Some(config_hash) = config {
        let b = u128_to_le_bytes(config_hash.0);
        feed(&mut hasher, b.as_slice());
    }
    if let Some(version_hash) = version {
        let b = u128_to_le_bytes(version_hash.0);
        feed(&mut hasher, b.as_slice());
    }
    if let Some(dir) = cd {
        feed(&mut hasher, dir.as_str().as_bytes());
    }
    let ghost head = hasher@;
    assert(head =~= vstd::utf8::encode_utf8(cmd@) + opt_digest_bytes(config) + opt_digest_bytes(
        version,
    ) + opt_str_bytes(opt_view(*cd)));
    let prefix = env_prefix(cmd);
    let mut keys: Vec<Vec<u8>> = Vec::new();
    let mut values: Vec<Vec<u8>> = Vec::new();
    let n: usize = env.len();
    let mut i: usize = 0;
    let ghost mut vars: Seq<(Seq<u8>, Seq<u8>)> = Seq::empty();
    while i < n
        invariant
            n == env@.len(),
            i <= n,
            vars == relevant(env@, prefix@, i as nat),
            keys@.len() == vars.len(),
            values@.len() == vars.len(),
            forall|j: int| 0 <= j < vars.len() ==> (#[trigger] keys@[j])@ == vars[j].0,
            forall|j: int| 0 <= j < vars.len() ==> (#[trigger] values@[j])@ == vars[j].1,
        decreases n - i,
    {
        if starts_with(env[i].0.as_slice(), prefix.as_slice()) {
            keys.push(vstd::slice::slice_to_vec(env[i].0.as_slice()));
            values.push(vstd::slice::slice_to_vec(env[i].1.as_slice()));
            proof {
                vars = vars.push((env@[i as int].0@, env@[i as int].1@));
            }
        }
        i += 1;
    }
    let order = sorted_order(&keys);
    assert(Seq::new(keys@.len(), |i: int| keys@[i]@) =~= var_names(vars));
    let m: usize = order.len();
    let mut k: usize = 0;
    assert(hasher@ =~= head + env_bytes(vars, order@, 0));
    while k < m
        invariant
            m == order@.len(),
            k <= m,
            is_sorted_order(order@, var_names(vars)),
            keys@.len() == vars.len(),
            values@.len() == vars.len(),
            forall|j: int| 0 <= j < vars.len() ==> (#[trigger] keys@[j])@ == vars[j].0,
            forall|j: int| 0 <= j < vars.len() ==> (#[trigger] values@[j])@ == vars[j].1,
            hasher@ == head + env_bytes(vars, order@, k as nat),
        decreases m - k,
    {
        let at: usize = order[k];
        assert(at < vars.len());
        feed(&mut hasher, keys[at].as_slice());
        feed(&mut hasher, values[at].as_slice());
        assert(hasher@ =~= head + env_bytes(vars, order@, (k + 1) as nat));
        k += 1;
    }
    assert(hasher@ =~= stamp_bytes(cmd@, config, version, opt_view(*cd), vars, order@));
    tool::Stamp(Xxhash(xxh3_128(hasher.as_slice())))
}

/// The bytes that the first `n` configuration files in `order` contribute:
/// for each one that is there, its path and metadata and then its
/// modification time. `None` where one that is there has no modification
/// time.
pub open spec fn config_bytes(
    configs: Seq<(String, Option<Metadata>)>,
    order: Seq<usize>,
    n: nat,
) -> Option<Seq<u8>>
    decreases n,
{
    if n == 0 {
        Some(Seq::empty())
    } else {
        match config_bytes(configs, order, (n - 1) as nat) {
            None => None,
            Some(before) => {
                let (path, metadata) = configs[order[n - 1] as int];
                match metadata {
                    None => Some(before),
                    Some(md) => match md.mtime_ns {
                        None => None,
                        Some(ns) => Some(before + md_bytes(path@, md) + mtime_bytes(ns)),
                    },
                }
            },
        }
    }
}

/// The encoded paths of some configuration files.
pub open spec fn config_paths(configs: Seq<(String, Option<Metadata>)>) -> Seq<Seq<u8>> {
    Seq::new(configs.len(), |i: int| vstd::utf8::encode_utf8(configs[i].0@))
}

/// Whether every configuration file that is there has a modification time.
pub open spec fn configs_have_mtime(configs: Seq<(String, Option<Metadata>)>) -> bool {
    forall|i: int|
        0 <= i < configs.len() ==> ((#[trigger] configs[i]).1 matches Some(md)
            ==> md.mtime_ns is Some)
}

/// The digest of a tool's configuration files, taken in ascending order of
/// their paths: `None` for a tool without any. A file that is not there
/// contributes nothing. Fails exactly where a file that is there has no
/// modification time.
pub fn build_config_hash(configs: &Vec<(String, Option<Metadata>)>) -> (r: Result<
    Option<Xxhash>,
    crate::file::FileError,
>)
    ensures
        r is Ok <==> configs_have_mtime(configs@),
        configs@.len() == 0 ==> r == Ok::<Option<Xxhash>, crate::file::FileError>(None),
        configs@.len() > 0 ==> exists|order: Seq<usize>|
            is_sorted_order(order, config_paths(configs@)) && match config_bytes(
                configs@,
                order,
                order.len(),
            ) {
                Some(bytes) => r == Ok::<Option<Xxhash>, crate::file::FileError>(
                    Some(Xxhash(xxh3_128_digest(bytes))),
                ),
                None => r == Err::<Option<Xxhash>, crate::file::FileError>(
                    crate::file::FileError::NoMtime,
                ),
            },
{
    if configs.len() == 0 {
        return Ok(None);
    }
    let mut keys: Vec<Vec<u8>> = Vec::new();
    let n: usize = configs.len();
    let mut i: usize = 0;
    while i < n
        invariant
            n == configs@.len(),
            i <= n,
            keys@.len() == i,
            forall|j: int|
                0 <= j < i ==> (#[trigger] keys@[j])@ == vstd::utf8::encode_utf8(configs@[j].0@),
        decreases n - i,
    {
        keys.push(vstd::slice::slice_to_vec(configs[i].0.as_str().as_bytes()));
        i += 1;
    }
    let order = sorted_order(&keys);
    assert(Seq::new(keys@.len(), |i: int| keys@[i]@) =~= config_paths(configs@));
    let mut hasher: Vec<u8> = Vec::new();
    let m: usize = order.len();
    let mut k: usize = 0;
    while k < m
        invariant
            m == order@.len(),
            k <= m,
            is_sorted_order(order@, config_paths(configs@)),
            config_bytes(configs@, order@, k as nat) == Some(hasher@),
            forall|j: int|
                0 <= j < k ==> ((#[trigger] configs@[order@[j] as int]).1 matches Some(md)
                    ==> md.mtime_ns is Some),
        decreases m - k,
    {
        let at: usize = order[k];
        assert(at < configs@.len());
        let ghost before = hasher@;
        if let Some(metadata) = &configs[at].1 {
            hash_md(configs[at].0.as_str(), metadata, &mut hasher);
            match hash_mtime(metadata, &mut hasher) {
                Ok(()) => {
                    assert(hasher@ =~= before + md_bytes(configs@[at as int].0@, *metadata)
                        + mtime_bytes(metadata.mtime_ns->Some_0));
                },
                Err(e) => {
                    proof {
                        lemma_config_bytes_stay_none(configs@, order@, (k + 1) as nat, m as nat);
                        assert(configs@[at as int].1 is Some);
                    }
                    return Err(e);
                },
            }
        }
        k += 1;
    }
    proof {
        assert forall|i: int| 0 <= i < configs@.len() implies ((#[trigger] configs@[i]).1 matches Some(
            md,
        ) ==> md.mtime_ns is Some) by {
            crate::order::lemma_order_lists_all(order@, configs@.len(), i);
            let a = choose|a: int| 0 <= a < order@.len() && order@[a] == i;
            assert(configs@[order@[a] as int] == configs@[i]);
        }
    }
    Ok(Some(Xxhash(xxh3_128(hasher.as_slice()))))
}

/// Once a file without modification time was met, the bytes stay undefined.
pub proof fn lemma_config_bytes_stay_none(
    configs: Seq<(String, Option<Metadata>)>,
    order: Seq<usize>,
    k: nat,
    n: nat,
)
    requires
        k <= n,
        config_bytes(configs, order, k) is None,
    ensures
        config_bytes(configs, order, n) is None,
    decreases n,
{
    if n > k {
        lemma_config_bytes_stay_none(configs, order, k, (n - 1) as nat);
    }
}

/// What compiling the patterns of a tool gives: the error that names the
/// first pattern that does not compile, where there is one; else the set of
/// the patterns, where they compile together; else the error that the set
/// was refused. `ignore` tells which of the tool's two lists it is.
pub open spec fn compiled(
    patterns: Seq<Seq<char>>,
    tool_name: Seq<char>,
    ignore: bool,
    r: Result<GlobSet, ConfigError>,
) -> bool {
    match refused_at(patterns, patterns.len()) {
        Some(i) => if ignore {
            r matches Err(ConfigError::InvalidIgnoreGlob { pattern, tool }) && pattern@
                == patterns[i] && tool@ == tool_name
        } else {
            r matches Err(ConfigError::InvalidFilesGlob { pattern, tool }) && pattern@
                == patterns[i] && tool@ == tool_name
        },
        None => if all_compile(patterns) {
            r matches Ok(set) && glob_set_patterns(set) == patterns
        } else if ignore {
            r matches Err(ConfigError::IgnoreGlobSet { tool }) && tool@ == tool_name
        } else {
            r matches Err(ConfigError::FilesGlobSet { tool }) && tool@ == tool_name
        },
    }
}

/// Compiles the patterns of a tool into a set.
fn build_globset(patterns: &Vec<String>, tool_name: &str, ignore: bool) -> (r: Result<
    GlobSet,
    ConfigError,
>)
    ensures
        compiled(views(patterns@), tool_name@, ignore, r),
{
    let mut globs: Vec<Glob> = Vec::new();
    let ghost ps = views(patterns@);
    let n: usize = patterns.len();
    let mut i: usize = 0;
    while i < n
        invariant
            n == patterns@.len(),
            ps == views(patterns@),
            i <= n,
            globs@.len() == i,
            refused_at(ps, i as nat) is None,
            forall|j: int| 0 <= j < i ==> glob_pattern(#[trigger] globs@[j]) == patterns@[j]@,
        decreases n - i,
    {
        assert(ps[i as int] == patterns@[i as int]@);
        match glob_new(patterns[i].as_str()) {
            Ok(glob) => {
                globs.push(glob);
            },
            Err(_) => {
                proof {
                    assert(refused_at(ps, (i + 1) as nat) == Some(i as int));
                    lemma_refused_stays(ps, (i + 1) as nat, n as nat);
                }
                if ignore {
                    return Err(
                        ConfigError::InvalidIgnoreGlob {
                            pattern: patterns[i].clone(),
                            tool: tool_name.to_owned(),
                        },
                    );
                } else {
                    return Err(
                        ConfigError::InvalidFilesGlob {
                            pattern: patterns[i].clone(),
                            tool: tool_name.to_owned(),
                        },
                    );
                }
            },
        }
        i += 1;
    }
    assert(Seq::new(globs@.len(), |i: int| glob_pattern(globs@[i])) =~= ps);
    match glob_set_new(&globs) {
        Ok(set) => Ok(set),
        Err(_) => if ignore {
            Err(ConfigError::IgnoreGlobSet { tool: tool_name.to_owned() })
        } else {
            Err(ConfigError::FilesGlobSet { tool: tool_name.to_owned() })
        },
    }
}

/// The set of the files that a tool applies to: it comes back exactly
/// where the patterns compile, each of them and all together. Else the
/// error names the first pattern that does not compile, or says that the
/// set was refused.
pub fn build_files_globset(patterns: &Vec<String>, tool_name: &str) -> (r: Result<
    GlobSet,
    ConfigError,
>)
    ensures
        r is Ok <==> all_compile(views(patterns@)),
        compiled(views(patterns@), tool_name@, false, r),
{
    build_globset(patterns, tool_name, false)
}

/// What compiling the ignore patterns of a tool gives: no set where there
/// is no pattern, else what compiling them gives.
pub open spec fn ignore_compiled(
    patterns: Seq<Seq<char>>,
    tool_name: Seq<char>,
    r: Result<Option<GlobSet>, ConfigError>,
) -> bool {
    if patterns.len() == 0 {
        r matches Ok(None)
    } else {
        match r {
            Ok(Some(set)) => compiled(patterns, tool_name, true, Ok(set)),
            Ok(None) => false,
            Err(e) => compiled(patterns, tool_name, true, Err(e)),
        }
    }
}

/// The set of the files that a tool leaves alone: none where there is no
/// such pattern; else it comes back exactly where the patterns compile,
/// and the error is as for the files.
pub fn build_ignore_globset(patterns: &Vec<String>, tool_name: &str) -> (r: Result<
    Option<GlobSet>,
    ConfigError,
>)
    ensures
        r is Ok <==> all_compile(views(patterns@)),
        ignore_compiled(views(patterns@), tool_name@, r),
{
    if patterns.len() == 0 {
        return Ok(None);
    }
    match build_globset(patterns, tool_name, true) {
        Ok(set) => Ok(Some(set)),
        Err(e) => Err(e),
    }
}

/// The name by which errors call a tool: its name, or else its command.
pub open spec fn error_name(tool: Tool) -> Seq<char> {
    match tool.name {
        Some(n) => n@,
        None => tool.cmd@,
    }
}

/// The patterns of the files that a tool leaves alone: those of the
/// configuration as a whole, then its own.
pub open spec fn ignore_patterns(tool: Tool, global_ignore: Seq<Seq<char>>) -> Seq<Seq<char>> {
    global_ignore + views(tool.ignore@)
}

/// What compiling the two sets of a tool gives: the sets, where the file
/// patterns and the ignore patterns compile; else the error of the file
/// patterns, where they do not compile; else that of the ignore patterns.
pub open spec fn sets_compiled(
    tool: Tool,
    global_ignore: Seq<Seq<char>>,
    r: Result<(GlobSet, Option<GlobSet>), ConfigError>,
) -> bool {
    if !all_compile(views(tool.files@)) {
        r matches Err(e) && compiled(views(tool.files@), error_name(tool), false, Err(e))
    } else {
        match r {
            Ok((files, ignore)) => glob_set_patterns(files) == views(tool.files@)
                && ignore_compiled(ignore_patterns(tool, global_ignore), error_name(tool), Ok(ignore)),
            Err(e) => ignore_compiled(
                ignore_patterns(tool, global_ignore),
                error_name(tool),
                Err(e),
            ),
        }
    }
}

/// The two sets of a tool: of the files it applies to, and of those it
/// leaves alone, which are those of the global patterns followed by its own.
/// They come back exactly where both lists compile.
pub fn build_tool_globsets(tool: &Tool, global_ignore: &Vec<String>) -> (r: Result<
    (GlobSet, Option<GlobSet>),
    ConfigError,
>)
    ensures
        r is Ok <==> all_compile(views(tool.files@)) && all_compile(
            ignore_patterns(*tool, views(global_ignore@)),
        ),
        sets_compiled(*tool, views(global_ignore@), r),
{
    let tool_name: &str = match &tool.name {
        Some(n) => n.as_str(),
        None => tool.cmd.as_str(),
    };
    let files = match build_files_globset(&tool.files, tool_name) {
        Ok(set) => set,
        Err(e) => {
            return Err(e);
        },
    };
    let mut all_ignore = clone_strings(global_ignore);
    let mut own = clone_strings(&tool.ignore);
    all_ignore.append(&mut own);
    assert(views(all_ignore@) =~= ignore_patterns(*tool, views(global_ignore@)));
    match build_ignore_globset(&all_ignore, tool_name) {
        Ok(ignore) => Ok((files, ignore)),
        Err(e) => Err(e),
    }
}

/// The digest of a version text, where versions count and one was found.
pub open spec fn version_digest(careful: bool, version: Option<String>) -> Option<Xxhash> {
    match version {
        Some(v) if careful => Some(Xxhash(xxh3_128_digest(vstd::utf8::encode_utf8(v@)))),
        _ => None,
    }
}

/// The digest of the configuration files in `probe`, if they give one.
pub open spec fn is_config_digest(
    configs: Seq<(String, Option<Metadata>)>,
    digest: Option<Xxhash>,
) -> bool {
    if configs.len() == 0 {
        digest is None
    } else {
        exists|order: Seq<usize>|
            is_sorted_order(order, config_paths(configs)) && config_bytes(
                configs,
                order,
                order.len(),
            ) is Some && digest == Some(
                Xxhash(xxh3_128_digest(config_bytes(configs, order, order.len())->Some_0)),
            )
    }
}

/// `made` is the tool that the configuration `tool` becomes with the
/// effective command `cmd`.
pub open spec fn is_made_tool(
    made: tool::Tool,
    tool: Tool,
    cmd: Seq<char>,
    careful: bool,
    global_ignore: Seq<Seq<char>>,
    probe: Probe,
) -> bool {
    &&& made.name == tool.name
    &&& made.cmd@ == cmd
    &&& glob_set_patterns(made.files) == views(tool.files@)
    &&& match made.ignore {
        Some(set) => glob_set_patterns(set) == global_ignore + views(tool.ignore@),
        None => global_ignore.len() + tool.ignore@.len() == 0,
    }
    &&& made.granularity == tool.granularity
    &&& made.cd == tool.cd
    &&& exists|digest: Option<Xxhash>|
        is_config_digest(probe.configs@, digest) && is_tool_stamp(
            made.stamp,
            cmd,
            digest,
            version_digest(careful, probe.version),
            opt_view(tool.cd),
            probe.env@,
        )
}

/// Whether a tool can be made: its file patterns compile, its ignore
/// patterns, those of the configuration as a whole and then its own,
/// compile, and every configuration file of it that is there has a
/// modification time.
pub open spec fn can_be_made(tool: Tool, global_ignore: Seq<Seq<char>>, probe: Probe) -> bool {
    &&& all_compile(views(tool.files@))
    &&& all_compile(ignore_patterns(tool, global_ignore))
    &&& configs_have_mtime(probe.configs@)
}

/// The error with which making a tool fails: that of its file patterns,
/// where they do not compile; else that of its ignore patterns, where they
/// do not; else that a configuration file has no modification time.
pub open spec fn is_error_of_making(
    e: ConfigError,
    tool: Tool,
    global_ignore: Seq<Seq<char>>,
    probe: Probe,
) -> bool {
    if !all_compile(views(tool.files@)) {
        compiled(views(tool.files@), error_name(tool), false, Err(e))
    } else if !all_compile(ignore_patterns(tool, global_ignore)) {
        compiled(ignore_patterns(tool, global_ignore), error_name(tool), true, Err(e))
    } else {
        !configs_have_mtime(probe.configs@) && (e matches ConfigError::NoMtime { tool: name }
            && name@ == error_name(tool))
    }
}

/// What making a tool gives: the tool, exactly where it can be made; else
/// the error of making it.
pub open spec fn made(
    tool: Tool,
    cmd: Seq<char>,
    careful: bool,
    global_ignore: Seq<Seq<char>>,
    probe: Probe,
    r: Result<tool::Tool, ConfigError>,
) -> bool {
    match r {
        Ok(t) => can_be_made(tool, global_ignore, probe) && is_made_tool(
            t,
            tool,
            cmd,
            careful,
            global_ignore,
            probe,
        ),
        Err(e) => !can_be_made(tool, global_ignore, probe) && is_error_of_making(
            e,
            tool,
            global_ignore,
            probe,
        ),
    }
}

/// Makes the tool from its configuration and its effective command.
fn make_tool(tool: Tool, cmd: String, careful: bool, global_ignore: &Vec<String>, probe: &Probe) -> (r:
    Result<tool::Tool, ConfigError>)
    ensures
        made(tool, cmd@, careful, views(global_ignore@), *probe, r),
{
    let (files, ignore) = match build_tool_globsets(&tool, global_ignore) {
        Ok(sets) => sets,
        Err(e) => {
            return Err(e);
        },
    };
    let config = match build_config_hash(&probe.configs) {
        Ok(h) => h,
        Err(_) => {
            let name: String = match &tool.name {
                Some(n) => n.clone(),
                None => tool.cmd.clone(),
            };
            return Err(ConfigError::NoMtime { tool: name });
        },
    };
    let version: Option<Xxhash> = match &probe.version {
        Some(v) => if careful {
            Some(compute_hash(v.as_str().as_bytes()))
        } else {
            None
        },
        None => None,
    };
    let stamp = build_tool_stamp(cmd.as_str(), config, version, &tool.cd, &probe.env);
    let Tool { name, cmd: _, files: _, ignore: _, granularity, configs: _, cd } = tool;
    assert(is_config_digest(probe.configs@, config));
    Ok(tool::Tool { name, cmd, files, ignore, granularity, stamp, cd })
}

/// Makes the tool from its configuration and the command for the mode,
/// with the colour put in. The tool comes back exactly where it can be
/// made; see [`can_be_made`].
pub fn make_colored(
    tool: &Tool,
    template: &str,
    careful: bool,
    color: Color,
    stdout_is_terminal: bool,
    global_ignore: &Vec<String>,
    probe: &Probe,
) -> (r: Result<tool::Tool, ConfigError>)
    ensures
        r is Ok <==> can_be_made(*tool, views(global_ignore@), *probe),
        made(
            *tool,
            replaced(template@, "{{color}}"@, color_word(color, stdout_is_terminal)),
            careful,
            views(global_ignore@),
            *probe,
            r,
        ),
{
    proof {
        reveal_strlit("{{color}}");
    }
    let color_str = color_to_str(color, stdout_is_terminal);
    let cmd: String = replace_all(template, "{{color}}", color_str);
    let copy = tool.clone();
    let r = make_tool(copy, cmd, careful, global_ignore, probe);
    proof {
        lemma_made_of_copy(
            copy,
            *tool,
            replaced(template@, "{{color}}"@, color_word(color, stdout_is_terminal)),
            careful,
            views(global_ignore@),
            *probe,
            r,
        );
    }
    r
}

/// What is made of a copy of a configuration is made of the configuration.
pub proof fn lemma_made_of_copy(
    copy: Tool,
    tool: Tool,
    cmd: Seq<char>,
    careful: bool,
    global_ignore: Seq<Seq<char>>,
    probe: Probe,
    r: Result<tool::Tool, ConfigError>,
)
    requires
        same_tool(copy, tool),
        made(copy, cmd, careful, global_ignore, probe, r),
    ensures
        made(tool, cmd, careful, global_ignore, probe, r),
{
}

impl Linter {
    /// The command to run in a mode, before the colour is put in: the `fix`
    /// command in fix mode where there is one, else the plain command.
    pub open spec fn template(self, mode: RunMode) -> Seq<char> {
        match self.fix {
            Some(fix) if mode == RunMode::Fix => fix@,
            _ => self.tool.cmd@,
        }
    }

    /// The tool that this linter is in a mode: its command with the colour
    /// put in, its patterns compiled, and its stamp. It comes back exactly
    /// where it can be made: where its patterns compile and every
    /// configuration file of it that is there has a modification time.
    pub fn into_tool(
        self,
        mode: RunMode,
        careful: bool,
        color: Color,
        stdout_is_terminal: bool,
        global_ignore: &Vec<String>,
        probe: &Probe,
    ) -> (r: Result<tool::Tool, ConfigError>)
        ensures
            r is Ok <==> can_be_made(self.tool, views(global_ignore@), *probe),
            made(
                self.tool,
                replaced(
                    self.template(mode),
                    "{{color}}"@,
                    color_word(color, stdout_is_terminal),
                ),
                careful,
                views(global_ignore@),
                *probe,
                r,
            ),
    {
        proof {
            reveal_strlit("{{color}}");
        }
        let color_str = color_to_str(color, stdout_is_terminal);
        let cmd: String = match (&self.fix, mode) {
            (Some(fix), RunMode::Fix) => replace_all(fix.as_str(), "{{color}}", color_str),
            _ => replace_all(self.tool.cmd.as_str(), "{{color}}", color_str),
        };
        make_tool(self.tool, cmd, careful, global_ignore, probe)
    }
}

impl Formatter {
    /// The command to run in a mode, before the colour is put in: the
    /// `check` command in check mode where there is one, else the plain
    /// command.
    pub open spec fn template(self, mode: RunMode) -> Seq<char> {
        match self.check {
            Some(check) if mode == RunMode::Check => check@,
            _ => self.tool.cmd@,
        }
    }

    /// The tool that this formatter is in a mode: its command with the
    /// colour put in, its patterns compiled, and its stamp. It comes back
    /// exactly where it can be made: where its patterns compile and every
    /// configuration file of it that is there has a modification time.
    pub fn into_tool(
        self,
        mode: RunMode,
        careful: bool,
        color: Color,
        stdout_is_terminal: bool,
        global_ignore: &Vec<String>,
        probe: &Probe,
    ) -> (r: Result<tool::Tool, ConfigError>)
        ensures
            r is Ok <==> can_be_made(self.tool, views(global_ignore@), *probe),
            made(
                self.tool,
                replaced(
                    self.template(mode),
                    "{{color}}"@,
                    color_word(color, stdout_is_terminal),
                ),
                careful,
                views(global_ignore@),
                *probe,
                r,
            ),
    {
        proof {
            reveal_strlit("{{color}}");
        }
        let color_str = color_to_str(color, stdout_is_terminal);
        let cmd: String = match (&self.check, mode) {
            (Some(check), RunMode::Check) => replace_all(check.as_str(), "{{color}}", color_str),
            _ => replace_all(self.tool.cmd.as_str(), "{{color}}", color_str),
        };
        make_tool(self.tool, cmd, careful, global_ignore, probe)
    }
}

/// What a tool said of its version: its standard output if it wrote any,
/// else its standard error; nothing where it ended in failure.
pub fn version_output<'a>(success: bool, stdout: &'a [u8], stderr: &'a [u8]) -> (out: Option<
    &'a [u8],
>)
    ensures
        out == if !success {
            None
        } else if stdout@.len() > 0 {
            Some(stdout)
        } else {
            Some(stderr)
        },
{
    if !success {
        None
    } else if stdout.len() > 0 {
        Some(stdout)
    } else {
        Some(stderr)
    }
}

/// A tool stamp is stable: the same command, the same digests, the same
/// working directory and the same environment give the same stamp.
pub proof fn lemma_stamp_is_stable(
    first: tool::Stamp,
    second: tool::Stamp,
    cmd: Seq<char>,
    config: Option<Xxhash>,
    version: Option<Xxhash>,
    cd: Option<Seq<char>>,
    env: Seq<(Vec<u8>, Vec<u8>)>,
)
    requires
        is_tool_stamp(first, cmd, config, version, cd, env),
        is_tool_stamp(second, cmd, config, version, cd, env),
    ensures
        first == second,
{
    let vars = relevant(env, spec_env_prefix(cmd), env.len());
    let a = choose|order: Seq<usize>|
        is_sorted_order(order, var_names(vars)) && first.0.0 == xxh3_128_digest(
            stamp_bytes(cmd, config, version, cd, vars, order),
        );
    let b = choose|order: Seq<usize>|
        is_sorted_order(order, var_names(vars)) && second.0.0 == xxh3_128_digest(
            stamp_bytes(cmd, config, version, cd, vars, order),
        );
    lemma_sorted_order_unique(var_names(vars), a, b);
}

/// A variable whose name does not begin with the prefix is none of the
/// variables that count.
pub proof fn lemma_other_variable_is_left_out(
    env: Seq<(Vec<u8>, Vec<u8>)>,
    prefix: Seq<u8>,
    at: int,
    n: nat,
)
    requires
        0 <= at < env.len(),
        n <= env.len(),
        !begins_with(env[at].0@, prefix),
    ensures
        n <= at ==> relevant(env.remove(at), prefix, n) == relevant(env, prefix, n),
        n > at ==> relevant(env.remove(at), prefix, (n - 1) as nat) == relevant(env, prefix, n),
    decreases n,
{
    if n > 0 {
        lemma_other_variable_is_left_out(env, prefix, at, (n - 1) as nat);
        if n - 1 < at {
            assert(env.remove(at)[n - 1] == env[n - 1]);
        } else if n - 1 > at {
            assert(env.remove(at)[n - 2] == env[n - 1]);
        }
    }
}

/// Only the variables of the program count: a stamp of a tool in an
/// environment is its stamp in the environment without a variable whose
/// name does not begin with the prefix of the command.
pub proof fn lemma_stamp_leaves_out_other_variables(
    stamp: tool::Stamp,
    cmd: Seq<char>,
    config: Option<Xxhash>,
    version: Option<Xxhash>,
    cd: Option<Seq<char>>,
    env: Seq<(Vec<u8>, Vec<u8>)>,
    at: int,
)
    requires
        0 <= at < env.len(),
        !begins_with(env[at].0@, spec_env_prefix(cmd)),
    ensures
        is_tool_stamp(stamp, cmd, config, version, cd, env.remove(at)) == is_tool_stamp(
            stamp,
            cmd,
            config,
            version,
            cd,
            env,
        ),
{
    let prefix = spec_env_prefix(cmd);
    let fewer = env.remove(at);
    lemma_other_variable_is_left_out(env, prefix, at, env.len());
    assert(fewer.len() == (env.len() - 1) as nat);
    assert(relevant(fewer, prefix, fewer.len()) == relevant(env, prefix, env.len()));
}

/// The version counts only with care: without it, what is made of a tool
/// is the same whatever version was found, or none.
pub proof fn lemma_version_counts_only_with_care(
    tool: Tool,
    cmd: Seq<char>,
    global_ignore: Seq<Seq<char>>,
    probe: Probe,
    other: Probe,
    r: Result<tool::Tool, ConfigError>,
)
    requires
        other.configs == probe.configs,
        other.env == probe.env,
        made(tool, cmd, false, global_ignore, probe, r),
    ensures
        made(tool, cmd, false, global_ignore, other, r),
{
    if let Ok(t) = r {
        let digest = choose|digest: Option<Xxhash>|
            is_config_digest(probe.configs@, digest) && is_tool_stamp(
                t.stamp,
                cmd,
                digest,
                version_digest(false, probe.version),
                opt_view(tool.cd),
                probe.env@,
            );
        assert(is_config_digest(other.configs@, digest) && is_tool_stamp(
            t.stamp,
            cmd,
            digest,
            version_digest(false, other.version),
            opt_view(tool.cd),
            other.env@,
        ));
    }
}

/// The digest of configuration files is stable: the same files with the
/// same metadata, listed in the same order, give the same digest.
pub proof fn lemma_config_digest_is_stable(
    configs: Seq<(String, Option<Metadata>)>,
    first: Option<Xxhash>,
    second: Option<Xxhash>,
)
    requires
        is_config_digest(configs, first),
        is_config_digest(configs, second),
    ensures
        first == second,
{
    if configs.len() > 0 {
        let a = choose|order: Seq<usize>|
            is_sorted_order(order, config_paths(configs)) && config_bytes(
                configs,
                order,
                order.len(),
            ) is Some && first == Some(
                Xxhash(xxh3_128_digest(config_bytes(configs, order, order.len())->Some_0)),
            );
        let b = choose|order: Seq<usize>|
            is_sorted_order(order, config_paths(configs)) && config_bytes(
                configs,
                order,
                order.len(),
            ) is Some && second == Some(
                Xxhash(xxh3_128_digest(config_bytes(configs, order, order.len())->Some_0)),
            );
        lemma_sorted_order_unique(config_paths(configs), a, b);
    }
}

/// The encoded path of a configuration file.
pub open spec fn path_of(config: (String, Option<Metadata>)) -> Seq<u8> {
    vstd::utf8::encode_utf8(config.0@)
}

/// The paths of the files ascend, and no two are the same.
pub open spec fn paths_rise(configs: Seq<(String, Option<Metadata>)>) -> bool {
    forall|x: int, y: int|
        0 <= x < y < configs.len() ==> bytes_le(
            path_of(#[trigger] configs[x]),
            path_of(#[trigger] configs[y]),
        ) && path_of(configs[x]) != path_of(configs[y])
}

/// Two lists of the same files, both with rising paths, are the same list.
pub proof fn lemma_rising_paths_unique(
    a: Seq<(String, Option<Metadata>)>,
    b: Seq<(String, Option<Metadata>)>,
)
    requires
        paths_rise(a),
        paths_rise(b),
        forall|e: (String, Option<Metadata>)| a.contains(e) <==> b.contains(e),
    ensures
        a == b,
    decreases a.len(),
{
    if a.len() == 0 {
        if b.len() > 0 {
            assert(b.contains(b[0]));
            assert(a.contains(b[0]));
        }
        assert(a =~= b);
    } else {
        assert(a.contains(a[0]));
        assert(b.contains(a[0]));
        let j = choose|j: int| 0 <= j < b.len() && b[j] == a[0];
        assert(b.contains(b[0]));
        assert(a.contains(b[0]));
        let i = choose|i: int| 0 <= i < a.len() && a[i] == b[0];
        if i > 0 && j > 0 {
            lemma_bytes_le_antisymmetric(path_of(a[0]), path_of(b[0]));
        }
        assert(a[0] == b[0]);
        let ta = a.drop_first();
        let tb = b.drop_first();
        assert forall|e: (String, Option<Metadata>)| ta.contains(e) <==> tb.contains(e) by {
            if ta.contains(e) {
                let k = choose|k: int| 0 <= k < ta.len() && ta[k] == e;
                assert(a[k + 1] == e);
                assert(path_of(a[0]) != path_of(a[k + 1]));
                assert(a.contains(e));
                let l = choose|l: int| 0 <= l < b.len() && b[l] == e;
                assert(tb[l - 1] == e);
            }
            if tb.contains(e) {
                let k = choose|k: int| 0 <= k < tb.len() && tb[k] == e;
                assert(b[k + 1] == e);
                assert(path_of(b[0]) != path_of(b[k + 1]));
                assert(b.contains(e));
                let l = choose|l: int| 0 <= l < a.len() && a[l] == e;
                assert(ta[l - 1] == e);
            }
        }
        assert(paths_rise(ta)) by {
            assert forall|x: int, y: int| 0 <= x < y < ta.len() implies bytes_le(
                path_of(#[trigger] ta[x]),
                path_of(#[trigger] ta[y]),
            ) && path_of(ta[x]) != path_of(ta[y]) by {
                assert(ta[x] == a[x + 1] && ta[y] == a[y + 1]);
            }
        }
        assert(paths_rise(tb)) by {
            assert forall|x: int, y: int| 0 <= x < y < tb.len() implies bytes_le(
                path_of(#[trigger] tb[x]),
                path_of(#[trigger] tb[y]),
            ) && path_of(tb[x]) != path_of(tb[y]) by {
                assert(tb[x] == b[x + 1] && tb[y] == b[y + 1]);
            }
        }
        lemma_rising_paths_unique(ta, tb);
        assert(a =~= seq![a[0]] + ta);
        assert(b =~= seq![b[0]] + tb);
    }
}

/// Files with different paths, taken in the ascending order of their
/// paths, are the files that were listed, with rising paths.
pub proof fn lemma_picked_paths_rise(configs: Seq<(String, Option<Metadata>)>, order: Seq<usize>)
    requires
        config_paths(configs).no_duplicates(),
        is_sorted_order(order, config_paths(configs)),
    ensures
        paths_rise(picked(configs, order)),
        forall|e: (String, Option<Metadata>)|
            picked(configs, order).contains(e) <==> configs.contains(e),
{
    let keys = config_paths(configs);
    let taken = picked(configs, order);
    assert forall|x: int, y: int| 0 <= x < y < taken.len() implies bytes_le(
        path_of(#[trigger] taken[x]),
        path_of(#[trigger] taken[y]),
    ) && path_of(taken[x]) != path_of(taken[y]) by {
        assert(bytes_le(keys[order[x] as int], keys[order[y] as int]));
        assert(order[x] != order[y]);
    }
    assert forall|e: (String, Option<Metadata>)| taken.contains(e) <==> configs.contains(e) by {
        if taken.contains(e) {
            let x = choose|x: int| 0 <= x < taken.len() && taken[x] == e;
            assert(configs[order[x] as int] == e);
        }
        if configs.contains(e) {
            let p = choose|p: int| 0 <= p < configs.len() && configs[p] == e;
            lemma_order_lists_all(order, configs.len(), p);
            let x = choose|x: int| 0 <= x < order.len() && order[x] == p;
            assert(taken[x] == e);
        }
    }
}

/// The bytes that configuration files contribute depend on the files
/// taken, in the order in which they are taken, alone.
pub proof fn lemma_config_bytes_of_picked(
    configs: Seq<(String, Option<Metadata>)>,
    order: Seq<usize>,
    other: Seq<(String, Option<Metadata>)>,
    other_order: Seq<usize>,
    n: nat,
)
    requires
        picked(configs, order) == picked(other, other_order),
        n <= order.len(),
    ensures
        config_bytes(configs, order, n) == config_bytes(other, other_order, n),
    decreases n,
{
    if n > 0 {
        lemma_config_bytes_of_picked(configs, order, other, other_order, (n - 1) as nat);
        assert(picked(configs, order).len() == order.len());
        assert(picked(other, other_order).len() == other_order.len());
        assert(picked(configs, order)[n - 1] == configs[order[n - 1] as int]);
        assert(picked(other, other_order)[n - 1] == other[other_order[n - 1] as int]);
    }
}

/// The digest of configuration files does not depend on the order in
/// which they are listed: two lists of the same files, no path twice in
/// either, give the same digest.
pub proof fn lemma_config_digest_ignores_listing(
    configs: Seq<(String, Option<Metadata>)>,
    other: Seq<(String, Option<Metadata>)>,
    first: Option<Xxhash>,
    second: Option<Xxhash>,
)
    requires
        config_paths(configs).no_duplicates(),
        config_paths(other).no_duplicates(),
        forall|e: (String, Option<Metadata>)| configs.contains(e) <==> other.contains(e),
        is_config_digest(configs, first),
        is_config_digest(other, second),
    ensures
        first == second,
{
    if configs.len() == 0 {
        if other.len() > 0 {
            assert(other.contains(other[0]));
        }
    } else {
        assert(configs.contains(configs[0]));
        let a = choose|order: Seq<usize>|
            is_sorted_order(order, config_paths(configs)) && config_bytes(
                configs,
                order,
                order.len(),
            ) is Some && first == Some(
                Xxhash(xxh3_128_digest(config_bytes(configs, order, order.len())->Some_0)),
            );
        let b = choose|order: Seq<usize>|
            is_sorted_order(order, config_paths(other)) && config_bytes(
                other,
                order,
                order.len(),
            ) is Some && second == Some(
                Xxhash(xxh3_128_digest(config_bytes(other, order, order.len())->Some_0)),
            );
        lemma_picked_paths_rise(configs, a);
        lemma_picked_paths_rise(other, b);
        assert forall|e: (String, Option<Metadata>)|
            picked(configs, a).contains(e) <==> picked(other, b).contains(e) by {
            assert(picked(configs, a).contains(e) <==> configs.contains(e));
            assert(picked(other, b).contains(e) <==> other.contains(e));
        }
        lemma_rising_paths_unique(picked(configs, a), picked(other, b));
        assert(a.len() == picked(configs, a).len());
        assert(b.len() == picked(other, b).len());
        lemma_config_bytes_of_picked(configs, a, other, b, a.len());
    }
}

} // verus!
