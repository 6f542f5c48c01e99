//! Names for several warnings at once.

use vstd::prelude::*;
use crate::text::str_eq;
use crate::warn::warn::Warn;

verus! {

/// A group of warnings.
#[derive(Clone, Copy, Debug, PartialEq, Eq, Structural, Hash)]
pub enum Group {
    /// The warnings about names and files that do not fit.
    All,
    /// Those, and the warnings about how the cache is keyed.
    Pedantic,
}

impl Group {
    /// The warnings of the group.
    pub open spec fn spec_warns(self) -> Seq<Warn> {
        match self {
            Group::All => seq![Warn::UnknownWarning, Warn::UnknownTool, Warn::UnlistedConfig],
            Group::Pedantic => seq![
                Warn::UnknownWarning,
                Warn::UnknownTool,
                Warn::UnlistedConfig,
                Warn::Careful,
                Warn::Mtime,
                Warn::Refs,
            ],
        }
    }

    /// See [`Group::spec_warns`].
    pub fn warns(self) -> (warns: Vec<Warn>)
        ensures
            warns@ == self.spec_warns(),
    {
        match self {
            Group::All => {
                let warns = vec![Warn::UnknownWarning, Warn::UnknownTool, Warn::UnlistedConfig];
                assert(warns@ =~= self.spec_warns());
                warns
            },
            Group::Pedantic => {
                let warns = vec![
                    Warn::UnknownWarning,
                    Warn::UnknownTool,
                    Warn::UnlistedConfig,
                    Warn::Careful,
                    Warn::Mtime,
                    Warn::Refs,
                ];
                assert(warns@ =~= self.spec_warns());
                warns
            },
        }
    }

    /// Every group.
    pub fn all() -> (all: Vec<Group>)
        ensures
            all@ == seq![Group::All, Group::Pedantic],
    {
        let all = vec![Group::All, Group::Pedantic];
        assert(all@ =~= seq![Group::All, Group::Pedantic]);
        all
    }

    /// The name of the group.
    pub open spec fn name(self) -> Seq<char> {
        match self {
            Group::All => "all"@,
            Group::Pedantic => "pedantic"@,
        }
    }

    /// See [`Group::name`].
    pub fn into_str(self) -> (s: &'static str)
        ensures
            s@ == self.name(),
    {
        match self {
            Group::All => "all",
            Group::Pedantic => "pedantic",
        }
    }

    /// The group that a name spells, if it spells one.
    pub open spec fn spec_parse(name: Seq<char>) -> Option<Group> {
        if name == "all"@ {
            Some(Group::All)
        } else if name == "pedantic"@ {
            Some(Group::Pedantic)
        } else {
            None
        }
    }

    /// See [`Group::spec_parse`].
    pub fn parse(name: &str) -> (g: Option<Group>)
        ensures
            g == Self::spec_parse(name@),
    {
        if str_eq(name, "all") {
            Some(Group::All)
        } else if str_eq(name, "pedantic") {
            Some(Group::Pedantic)
        } else {
            None
        }
    }
}

/// The group that a name spells; an error where it spells none.
impl std::str::FromStr for Group {
    type Err = ();

    fn from_str(s: &str) -> (r: Result<Self, ()>)
        ensures
            r == match Group::spec_parse(s@) {
                Some(g) => Ok::<Group, ()>(g),
                None => Err::<Group, ()>(()),
            },
    {
        match Group::parse(s) {
            Some(g) => Ok(g),
            None => Err(()),
        }
    }
}

} // verus!
