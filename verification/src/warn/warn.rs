//! The warnings that can be raised about a run and its configuration.

use vstd::prelude::*;
use crate::text::str_eq;
use crate::warn::level::Level;

verus! {

/// One kind of warning.
#[derive(Clone, Copy, Debug, PartialEq, Eq, Structural, Hash)]
pub enum Warn {
    /// A warning was named that does not exist.
    UnknownWarning,
    /// A tool was named on the command line that the configuration lacks.
    UnknownTool,
    /// A known tool has a configuration file that is there but not listed.
    UnlistedConfig,
    /// Tool versions do not enter the cache keys.
    Careful,
    /// Modification times are used to skip files.
    Mtime,
    /// Git refs are used to skip files.
    Refs,
    /// A tool lists no file pattern.
    NoFiles,
    /// The cache was full and entries were dropped.
    CacheFull,
    /// One run filled more than a quarter of the cache.
    CacheUsage,
}

impl Warn {
    /// The level of the warning where neither options nor configuration set
    /// one.
    pub open spec fn spec_default_level(self) -> Level {
        match self {
            Warn::UnknownWarning => Level::Deny,
            Warn::UnknownTool => Level::Warn,
            Warn::UnlistedConfig => Level::Allow,
            Warn::Careful => Level::Allow,
            Warn::Mtime => Level::Allow,
            Warn::Refs => Level::Allow,
            Warn::NoFiles => Level::Deny,
            Warn::CacheFull => Level::Warn,
            Warn::CacheUsage => Level::Warn,
        }
    }

    /// See [`Warn::spec_default_level`].
    pub fn default_level(self) -> (level: Level)
        ensures
            level == self.spec_default_level(),
    {
        match self {
            Warn::UnknownWarning => Level::Deny,
            Warn::UnknownTool => Level::Warn,
            Warn::UnlistedConfig => Level::Allow,
            Warn::Careful => Level::Allow,
            Warn::Mtime => Level::Allow,
            Warn::Refs => Level::Allow,
            Warn::NoFiles => Level::Deny,
            Warn::CacheFull => Level::Warn,
            Warn::CacheUsage => Level::Warn,
        }
    }

    /// The name of the warning, as options and configuration files spell it.
    pub open spec fn name(self) -> Seq<char> {
        match self {
            Warn::UnknownWarning => "unknown-lint"@,
            Warn::UnknownTool => "unknown-tool"@,
            Warn::UnlistedConfig => "unlisted-config"@,
            Warn::Careful => "careful"@,
            Warn::Mtime => "mtime"@,
            Warn::Refs => "refs"@,
            Warn::NoFiles => "no-files"@,
            Warn::CacheFull => "cache-full"@,
            Warn::CacheUsage => "cache-usage"@,
        }
    }

    /// See [`Warn::name`].
    pub fn as_str(self) -> (s: &'static str)
        ensures
            s@ == self.name(),
    {
        match self {
            Warn::UnknownWarning => "unknown-lint",
            Warn::UnknownTool => "unknown-tool",
            Warn::UnlistedConfig => "unlisted-config",
            Warn::Careful => "careful",
            Warn::Mtime => "mtime",
            Warn::Refs => "refs",
            Warn::NoFiles => "no-files",
            Warn::CacheFull => "cache-full",
            Warn::CacheUsage => "cache-usage",
        }
    }

    /// A paragraph about the warning, in Markdown.
    pub open spec fn spec_doc(self) -> Seq<char> {
        match self {
            Warn::UnknownWarning => "# `unknown-lint`\n\nA warning was named with `--allow`, `--warn` or `--deny`, or in the configuration file, that does not exist.\n"@,
            Warn::UnknownTool => "# `unknown-tool`\n\nA tool was named with `--skip-tool` or `--only-tool` that the configuration file does not define.\n"@,
            Warn::UnlistedConfig => "# `unlisted-config`\n\nA configuration file of a known tool exists but is not listed under `configs`, so changing it does not invalidate the cache.\n"@,
            Warn::Careful => "# `careful`\n\n`careful` is set neither on the command line nor in the configuration file, so upgrading a tool does not invalidate the cache.\n"@,
            Warn::Mtime => "# `mtime`\n\nModification times are used to skip files. They are fast to check, but can be wrong.\n"@,
            Warn::Refs => "# `refs`\n\nGit refs are used to skip files that are unchanged against them, whatever the tools would say of them today.\n"@,
            Warn::NoFiles => "# `no-files`\n\nA tool has an empty `files` array, so it never runs.\n"@,
            Warn::CacheFull => "# `cache-full`\n\nThe cache is full and its oldest entries are being dropped. Consider a larger `cache_size`.\n"@,
            Warn::CacheUsage => "# `cache-usage`\n\nA single run added more than a quarter of the entries that the cache can hold. Consider a larger `cache_size`.\n"@,
        }
    }

    /// See [`Warn::spec_doc`].
    pub fn doc(self) -> (s: &'static str)
        ensures
            s@ == self.spec_doc(),
    {
        match self {
            Warn::UnknownWarning => "# `unknown-lint`\n\nA warning was named with `--allow`, `--warn` or `--deny`, or in the configuration file, that does not exist.\n",
            Warn::UnknownTool => "# `unknown-tool`\n\nA tool was named with `--skip-tool` or `--only-tool` that the configuration file does not define.\n",
            Warn::UnlistedConfig => "# `unlisted-config`\n\nA configuration file of a known tool exists but is not listed under `configs`, so changing it does not invalidate the cache.\n",
            Warn::Careful => "# `careful`\n\n`careful` is set neither on the command line nor in the configuration file, so upgrading a tool does not invalidate the cache.\n",
            Warn::Mtime => "# `mtime`\n\nModification times are used to skip files. They are fast to check, but can be wrong.\n",
            Warn::Refs => "# `refs`\n\nGit refs are used to skip files that are unchanged against them, whatever the tools would say of them today.\n",
            Warn::NoFiles => "# `no-files`\n\nA tool has an empty `files` array, so it never runs.\n",
            Warn::CacheFull => "# `cache-full`\n\nThe cache is full and its oldest entries are being dropped. Consider a larger `cache_size`.\n",
            Warn::CacheUsage => "# `cache-usage`\n\nA single run added more than a quarter of the entries that the cache can hold. Consider a larger `cache_size`.\n",
        }
    }

    /// One line about the warning.
    pub open spec fn spec_help(self) -> Seq<char> {
        match self {
            Warn::UnknownWarning => "Unknown warning name"@,
            Warn::UnknownTool => "Unknown tool name passed to `--skip-tool` or `--only-tool`"@,
            Warn::UnlistedConfig => "Tool config files that exist but are not in `lun.toml`"@,
            Warn::Careful => "`careful` is not set at CLI or config level"@,
            Warn::Mtime => "`mtime` is set on CLI or config file"@,
            Warn::Refs => "`refs` is used on CLI or config file"@,
            Warn::NoFiles => "Tool with an empty `files` array"@,
            Warn::CacheFull => "Cache is full and entries are being dropped"@,
            Warn::CacheUsage => "Single run added more than a quarter of the cache size"@,
        }
    }

    /// See [`Warn::spec_help`].
    pub fn help(self) -> (s: &'static str)
        ensures
            s@ == self.spec_help(),
    {
        match self {
            Warn::UnknownWarning => "Unknown warning name",
            Warn::UnknownTool => "Unknown tool name passed to `--skip-tool` or `--only-tool`",
            Warn::UnlistedConfig => "Tool config files that exist but are not in `lun.toml`",
            Warn::Careful => "`careful` is not set at CLI or config level",
            Warn::Mtime => "`mtime` is set on CLI or config file",
            Warn::Refs => "`refs` is used on CLI or config file",
            Warn::NoFiles => "Tool with an empty `files` array",
            Warn::CacheFull => "Cache is full and entries are being dropped",
            Warn::CacheUsage => "Single run added more than a quarter of the cache size",
        }
    }

    /// Every warning, in the order in which they are listed.
    pub open spec fn spec_all() -> Seq<Warn> {
        seq![
            Warn::UnknownWarning,
            Warn::UnknownTool,
            Warn::UnlistedConfig,
            Warn::Careful,
            Warn::Mtime,
            Warn::Refs,
            Warn::NoFiles,
            Warn::CacheFull,
            Warn::CacheUsage,
        ]
    }

    /// See [`Warn::spec_all`].
    pub fn all() -> (all: Vec<Warn>)
        ensures
            all@ == Self::spec_all(),
    {
        let all = vec![
            Warn::UnknownWarning,
            Warn::UnknownTool,
            Warn::UnlistedConfig,
            Warn::Careful,
            Warn::Mtime,
            Warn::Refs,
            Warn::NoFiles,
            Warn::CacheFull,
            Warn::CacheUsage,
        ];
        assert(all@ =~= Self::spec_all());
        all
    }

    /// The warning that a name spells, if it spells one.
    pub open spec fn spec_parse(name: Seq<char>) -> Option<Warn> {
        if name == "unknown-lint"@ {
            Some(Warn::UnknownWarning)
        } else if name == "unknown-tool"@ {
            Some(Warn::UnknownTool)
        } else if name == "unlisted-config"@ {
            Some(Warn::UnlistedConfig)
        } else if name == "careful"@ {
            Some(Warn::Careful)
        } else if name == "mtime"@ {
            Some(Warn::Mtime)
        } else if name == "refs"@ {
            Some(Warn::Refs)
        } else if name == "no-files"@ {
            Some(Warn::NoFiles)
        } else if name == "cache-full"@ {
            Some(Warn::CacheFull)
        } else if name == "cache-usage"@ {
            Some(Warn::CacheUsage)
        } else {
            None
        }
    }

    /// See [`Warn::spec_parse`].
    pub fn parse(name: &str) -> (w: Option<Warn>)
        ensures
            w == Self::spec_parse(name@),
    {
        if str_eq(name, "unknown-lint") {
            Some(Warn::UnknownWarning)
        } else if str_eq(name, "unknown-tool") {
            Some(Warn::UnknownTool)
        } else if str_eq(name, "unlisted-config") {
            Some(Warn::UnlistedConfig)
        } else if str_eq(name, "careful") {
            Some(Warn::Careful)
        } else if str_eq(name, "mtime") {
            Some(Warn::Mtime)
        } else if str_eq(name, "refs") {
            Some(Warn::Refs)
        } else if str_eq(name, "no-files") {
            Some(Warn::NoFiles)
        } else if str_eq(name, "cache-full") {
            Some(Warn::CacheFull)
        } else if str_eq(name, "cache-usage") {
            Some(Warn::CacheUsage)
        } else {
            None
        }
    }
}

/// The warning that a name spells; an error where it spells none.
impl std::str::FromStr for Warn {
    type Err = ();

    fn from_str(s: &str) -> (r: Result<Self, ()>)
        ensures
            r == match Warn::spec_parse(s@) {
                Some(w) => Ok::<Warn, ()>(w),
                None => Err::<Warn, ()>(()),
            },
    {
        match Warn::parse(s) {
            Some(w) => Ok(w),
            None => Err(()),
        }
    }
}

/// The name of every warning spells that warning.
pub proof fn lemma_name_parses(w: Warn)
    ensures
        Warn::spec_parse(w.name()) == Some(w),
{
    reveal_strlit("unknown-lint");
    reveal_strlit("unknown-tool");
    reveal_strlit("unlisted-config");
    reveal_strlit("careful");
    reveal_strlit("mtime");
    reveal_strlit("refs");
    reveal_strlit("no-files");
    reveal_strlit("cache-full");
    reveal_strlit("cache-usage");
    assert("unknown-lint"@.len() == 12);
    assert("unknown-tool"@.len() == 12);
    assert("unlisted-config"@.len() == 15);
    assert("careful"@.len() == 7);
    assert("mtime"@.len() == 5);
    assert("refs"@.len() == 4);
    assert("no-files"@.len() == 8);
    assert("cache-full"@.len() == 10);
    assert("cache-usage"@.len() == 11);
    assert("unknown-lint"@[8] == 'l');
    assert("unknown-tool"@[8] == 't');
}

} // verus!
