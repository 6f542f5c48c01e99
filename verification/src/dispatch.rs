//! From a command line and a configuration to the task to carry out.

use vstd::prelude::*;
use crate::cli;
use crate::config::Config;
use crate::run::{checks, lint, lint_verdict};
use crate::text::views;
use crate::warn::level::Level;
use crate::warn::warn::Warn;
use crate::warn::warns::{Denied, Warns};

verus! {

/// What is to be done.
#[derive(Debug)]
pub enum Task {
    /// Delete the cache.
    Clean,
    /// Run the tools, with these levels of warnings; `shown` holds the
    /// lines that the checks want shown first.
    Run { lints: Warns, shown: Vec<String> },
    /// Write a configuration file.
    Init,
    /// Add a tool to the configuration file.
    Add,
    /// List the warnings.
    Warns,
    /// Tend the cache.
    Cache(cli::CacheCmd),
}

/// Why nothing is done.
#[derive(Debug)]
pub enum GoError {
    /// A warning that is denied was raised.
    Denied(Denied),
    /// A run was asked for without a configuration file.
    NoConfig,
}

impl GoError {
    /// What went wrong, in one line.
    pub fn message(&self) -> (m: String)
        ensures
            m@ == match *self {
                GoError::Denied(d) => d.message@,
                GoError::NoConfig => "Config file not found"@,
            },
    {
        match self {
            GoError::Denied(d) => d.message.clone(),
            GoError::NoConfig => "Config file not found".to_owned(),
        }
    }
}

/// The configuration behind a reference that may be absent.
pub open spec fn deref_opt(config: Option<&Config>) -> Option<Config> {
    match config {
        Some(c) => Some(*c),
        None => None,
    }
}

/// Whether the warnings named on the command line are refused: one of them
/// does not exist while `unknown-lint` is denied.
pub open spec fn warns_refused(cli: cli::Cli, config: Option<Config>) -> bool {
    Warns::spec_from(cli.warn, config).level(Warn::UnknownWarning) == Level::Deny
        && Warns::cli_unknown(cli.warn).len() > 0
}

/// Decides what to do. The levels of the warnings are settled first, from
/// the configuration and then the command line. A run needs a
/// configuration, and is checked before it starts; `existing` holds the
/// configuration files of known tools that were found on disk. Every other
/// subcommand goes ahead.
pub fn go(cli: &cli::Cli, config: Option<&Config>, existing: &Vec<String>) -> (r: Result<
    Task,
    GoError,
>)
    ensures
        warns_refused(*cli, deref_opt(config)) ==> (r matches Err(GoError::Denied(d))
            && d.message@ == "found unknown warning names and --deny=unknown-lint"@),
        !warns_refused(*cli, deref_opt(config)) ==> match cli.command {
            cli::Command::Clean => r matches Ok(Task::Clean),
            cli::Command::Init(_) => r matches Ok(Task::Init),
            cli::Command::Add(_) => r matches Ok(Task::Add),
            cli::Command::Warns { .. } => r matches Ok(Task::Warns),
            cli::Command::Cache(c) => r matches Ok(Task::Cache(t)) && t == c,
            cli::Command::Run(run) => match config {
                None => r matches Err(GoError::NoConfig),
                Some(c) => exists|lints: Warns|
                    lints@ == Warns::spec_from(cli.warn, Some(*c)) && match r {
                        Ok(Task::Run { lints: l, shown }) => l == lints && lint_verdict(
                            checks(run, *c, lints, views(existing@)),
                            Ok(shown),
                        ),
                        Err(GoError::Denied(d)) => lint_verdict(
                            checks(run, *c, lints, views(existing@)),
                            Err(d),
                        ),
                        _ => false,
                    },
            },
        },
{
    let lints = match Warns::from_cli_and_config(&cli.warn, config) {
        Ok(l) => l,
        Err(d) => {
            return Err(GoError::Denied(d));
        },
    };
    match &cli.command {
        cli::Command::Clean => Ok(Task::Clean),
        cli::Command::Run(run) => {
            let config = match config {
                Some(c) => c,
                None => {
                    return Err(GoError::NoConfig);
                },
            };
            match lint(run, config, &lints, existing) {
                Ok(shown) => Ok(Task::Run { lints, shown }),
                Err(d) => Err(GoError::Denied(d)),
            }
        },
        cli::Command::Init(_) => Ok(Task::Init),
        cli::Command::Add(_) => Ok(Task::Add),
        cli::Command::Warns { .. } => Ok(Task::Warns),
        cli::Command::Cache(c) => Ok(Task::Cache(*c)),
    }
}

} // verus!
