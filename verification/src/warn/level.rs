//! How seriously a warning is taken.

use vstd::prelude::*;

verus! {

/// The level of a warning.
#[derive(Clone, Copy, Debug, PartialEq, Eq, Structural)]
pub enum Level {
    /// Say nothing.
    Allow,
    /// Say it and go on.
    Warn,
    /// Say it and stop.
    Deny,
}

impl Level {
    /// The name of the level, as options and configuration files spell it.
    pub open spec fn name(self) -> Seq<char> {
        match self {
            Level::Allow => "allow"@,
            Level::Warn => "warn"@,
            Level::Deny => "deny"@,
        }
    }

    /// See [`Level::name`].
    pub fn as_str(self) -> (s: &'static str)
        ensures
            s@ == self.name(),
    {
        match self {
            Level::Allow => "allow",
            Level::Warn => "warn",
            Level::Deny => "deny",
        }
    }
}

} // verus!
