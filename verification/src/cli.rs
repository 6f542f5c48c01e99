//! What the command line says, as plain values.

use vstd::prelude::*;

verus! {

/// When to ask tools for coloured output.
#[derive(Clone, Copy, Debug, PartialEq, Eq, Structural)]
pub enum Color {
    Always,
    Never,
    /// Where standard output is a terminal.
    Auto,
}

/// The options on logging.
#[derive(Clone, Copy, Debug)]
pub struct LogOptions {
    pub color: Color,
    pub log_timestamp: bool,
    /// How often `--quiet` was given.
    pub quiet: u8,
    /// How often `--verbose` was given.
    pub verbose: u8,
}

/// The options on warnings: the names given with `--allow`, `--warn` and
/// `--deny`.
#[derive(Debug)]
pub struct WarnOpts {
    pub allow: Vec<String>,
    pub warn: Vec<String>,
    pub deny: Vec<String>,
}

/// The options of `run`.
#[derive(Debug)]
pub struct Run {
    pub careful: bool,
    pub check: bool,
    pub dry_run: bool,
    pub on_failure: Option<String>,
    pub fix: bool,
    pub format: bool,
    /// Number of parallel jobs; never 0.
    pub jobs: Option<usize>,
    pub keep_going: bool,
    pub no_mtime: bool,
    pub ninja: bool,
    pub no_batch: bool,
    pub no_capture: bool,
    pub only_tool: Vec<String>,
    pub skip_tool: Vec<String>,
    pub only_files: Vec<String>,
    pub skip_files: Vec<String>,
    pub staged: bool,
    pub on_success: Option<String>,
    pub refs: Vec<String>,
    pub watch: bool,
    pub cache_size: Option<usize>,
    pub fresh: bool,
    pub no_cache: bool,
    pub no_refs: bool,
}

/// The options of `init`.
#[derive(Debug)]
pub struct Init {
    pub tool: Vec<String>,
    pub careful: bool,
    pub cores: Option<usize>,
    pub mtime: bool,
    pub refs: Vec<String>,
    pub allow: Vec<String>,
    pub warn: Vec<String>,
    pub deny: Vec<String>,
}

/// The options of `add`.
#[derive(Debug)]
pub struct Add {
    pub tool: String,
    pub name: Option<String>,
    pub formatter: Option<bool>,
    pub cmd: Option<String>,
    pub files: Option<String>,
    pub check: Option<String>,
    pub config: Option<String>,
}

/// What to do with the cache.
#[derive(Clone, Copy, Debug, PartialEq, Eq, Structural)]
pub enum CacheCmd {
    /// Delete it.
    Rm,
    /// Bring it down to a size in bytes, or else to the default size.
    Gc { size: Option<usize> },
    /// Show its figures.
    Stats,
}

/// The subcommand.
#[derive(Debug)]
pub enum Command {
    Run(Run),
    Clean,
    Init(Init),
    Add(Add),
    Warns { warn: Option<String> },
    Cache(CacheCmd),
}

/// The whole command line.
#[derive(Debug)]
pub struct Cli {
    /// The cache directory.
    pub cache: String,
    /// The configuration file.
    pub config: String,
    pub log: LogOptions,
    pub warn: WarnOpts,
    pub command: Command,
}

} // verus!
