//! A tool: the command to run, the files it applies to, and its fingerprint.

use vstd::prelude::*;
use globset::GlobSet;
use crate::config::Granularity;
use crate::file::Xxhash;

verus! {

/// Fingerprint of a tool: of its command, its configuration files, its
/// version where asked for, its working directory and its environment.
#[derive(Clone, Copy, Debug, PartialEq, Eq, Structural, Hash)]
pub struct Stamp(pub Xxhash);

/// A linter or formatter, ready to be planned.
pub struct Tool {
    pub name: Option<String>,
    /// The command line, placeholders already replaced.
    pub cmd: String,
    /// The files the tool applies to.
    pub files: GlobSet,
    /// The files it leaves alone, if any such pattern was given.
    pub ignore: Option<GlobSet>,
    pub granularity: Granularity,
    pub stamp: Stamp,
    /// The directory to run the command in.
    pub cd: Option<String>,
}

impl Tool {
    /// The name to show for the tool: its name, or else its command.
    pub fn display_name(&self) -> (name: &str)
        ensures
            name@ == match self.name {
                Some(n) => n@,
                None => self.cmd@,
            },
    {
        match &self.name {
            Some(n) => n.as_str(),
            None => self.cmd.as_str(),
        }
    }
}

} // verus!
