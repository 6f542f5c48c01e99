//! The levels that options and configuration have set for the warnings.

use vstd::prelude::*;
use crate::cli::WarnOpts;
use crate::config::Config;
use crate::text::views;
use crate::warn::group::Group;
use crate::warn::level::Level;
use crate::warn::warn::Warn;

verus! {

/// The warnings that were allowed, set to warn, and denied.
#[derive(Debug)]
pub struct Warns {
    pub allow: Vec<Warn>,
    pub warn: Vec<Warn>,
    pub deny: Vec<Warn>,
}

/// Three sets of warnings, one per level.
pub struct Levels {
    pub allow: Set<Warn>,
    pub warn: Set<Warn>,
    pub deny: Set<Warn>,
}

impl View for Warns {
    type V = Levels;

    open spec fn view(&self) -> Levels {
        Levels { allow: self.allow@.to_set(), warn: self.warn@.to_set(), deny: self.deny@.to_set() }
    }
}

/// Why the warnings could not be set up.
#[derive(Debug)]
pub struct Denied {
    /// What went wrong, in one line.
    pub message: String,
    /// The findings, one line each.
    pub errors: Vec<String>,
}

impl Levels {
    /// No warning is set to any level.
    pub open spec fn none() -> Levels {
        Levels { allow: Set::empty(), warn: Set::empty(), deny: Set::empty() }
    }

    /// The sets after `w` was put at `level`, and taken from the other two.
    pub open spec fn set(self, level: Level, w: Warn) -> Levels {
        match level {
            Level::Allow => Levels {
                allow: self.allow.insert(w),
                warn: self.warn.remove(w),
                deny: self.deny.remove(w),
            },
            Level::Warn => Levels {
                allow: self.allow.remove(w),
                warn: self.warn.insert(w),
                deny: self.deny.remove(w),
            },
            Level::Deny => Levels {
                allow: self.allow.remove(w),
                warn: self.warn.remove(w),
                deny: self.deny.insert(w),
            },
        }
    }

    /// The sets after the first `n` of `ws` were put at `level`, in order.
    pub open spec fn set_all(self, level: Level, ws: Seq<Warn>, n: nat) -> Levels
        decreases n,
    {
        if n == 0 {
            self
        } else {
            self.set_all(level, ws, (n - 1) as nat).set(level, ws[n - 1])
        }
    }

    /// The sets after what `name` spells was put at `level`: the warnings of
    /// a group, or one warning, or nothing where it spells neither.
    pub open spec fn set_name(self, level: Level, name: Seq<char>) -> Levels {
        match Group::spec_parse(name) {
            Some(g) => self.set_all(level, g.spec_warns(), g.spec_warns().len()),
            None => match Warn::spec_parse(name) {
                Some(w) => self.set(level, w),
                None => self,
            },
        }
    }

    /// The sets after the first `n` names were put at `level`, in order.
    pub open spec fn set_names(self, level: Level, names: Seq<Seq<char>>, n: nat) -> Levels
        decreases n,
    {
        if n == 0 {
            self
        } else {
            self.set_names(level, names, (n - 1) as nat).set_name(level, names[n - 1])
        }
    }

    /// The level of `w`: the one it was put at, else its default.
    pub open spec fn level(self, w: Warn) -> Level {
        if self.allow.contains(w) {
            Level::Allow
        } else if self.warn.contains(w) {
            Level::Warn
        } else if self.deny.contains(w) {
            Level::Deny
        } else {
            w.spec_default_level()
        }
    }

    /// The sets after the names of all three levels were put: those to
    /// allow, then those to warn, then those to deny.
    pub open spec fn process(
        self,
        allow: Seq<Seq<char>>,
        warn: Seq<Seq<char>>,
        deny: Seq<Seq<char>>,
    ) -> Levels {
        self.set_names(Level::Allow, allow, allow.len()).set_names(
            Level::Warn,
            warn,
            warn.len(),
        ).set_names(Level::Deny, deny, deny.len())
    }
}

/// Whether a name spells a group or a warning.
pub open spec fn is_known_name(name: Seq<char>) -> bool {
    Group::spec_parse(name) is Some || Warn::spec_parse(name) is Some
}

/// Those of the first `n` names that spell nothing, each with `level`.
pub open spec fn unknown_names(level: Level, names: Seq<Seq<char>>, n: nat) -> Seq<
    (Level, Seq<char>),
>
    decreases n,
{
    if n == 0 {
        Seq::empty()
    } else {
        let before = unknown_names(level, names, (n - 1) as nat);
        if is_known_name(names[n - 1]) {
            before
        } else {
            before.push((level, names[n - 1]))
        }
    }
}

/// The names that spell nothing among those of all three levels.
pub open spec fn all_unknown(
    allow: Seq<Seq<char>>,
    warn: Seq<Seq<char>>,
    deny: Seq<Seq<char>>,
) -> Seq<(Level, Seq<char>)> {
    unknown_names(Level::Allow, allow, allow.len()) + unknown_names(Level::Warn, warn, warn.len())
        + unknown_names(Level::Deny, deny, deny.len())
}

/// The levels and name views of some pairs.
pub open spec fn pair_views(v: Seq<(Level, String)>) -> Seq<(Level, Seq<char>)> {
    Seq::new(v.len(), |i: int| (v[i].0, v[i].1@))
}

fn holds(v: &Vec<Warn>, w: Warn) -> (found: bool)
    ensures
        found == v@.to_set().contains(w),
{
    let n: usize = v.len();
    let mut i: usize = 0;
    while i < n
        invariant
            n == v@.len(),
            i <= n,
            forall|j: int| 0 <= j < i ==> v@[j] != w,
        decreases n - i,
    {
        if v[i] == w {
            assert(v@.contains(w));
            return true;
        }
        i += 1;
    }
    assert(!v@.contains(w));
    false
}

fn insert(v: &mut Vec<Warn>, w: Warn)
    ensures
        final(v)@.to_set() == old(v)@.to_set().insert(w),
{
    if !holds(v, w) {
        v.push(w);
        assert(v@.to_set() =~= old(v)@.to_set().insert(w)) by {
            assert forall|x: Warn| v@.contains(x) <==> old(v)@.contains(x) || x == w by {
                if v@.contains(x) {
                    let i = choose|i: int| 0 <= i < v@.len() && v@[i] == x;
                    if i < old(v)@.len() {
                        assert(old(v)@[i] == x);
                    }
                }
                if old(v)@.contains(x) {
                    let i = choose|i: int| 0 <= i < old(v)@.len() && old(v)@[i] == x;
                    assert(v@[i] == x);
                }
                if x == w {
                    assert(v@[v@.len() - 1] == x);
                }
            }
        }
    } else {
        assert(v@.to_set() =~= old(v)@.to_set().insert(w));
    }
}

fn remove(v: &mut Vec<Warn>, w: Warn)
    ensures
        final(v)@.to_set() == old(v)@.to_set().remove(w),
{
    let mut kept: Vec<Warn> = Vec::new();
    let n: usize = v.len();
    let mut i: usize = 0;
    while i < n
        invariant
            n == v@.len(),
            i <= n,
            v@ == old(v)@,
            forall|x: Warn|
                kept@.contains(x) <==> x != w && exists|j: int| 0 <= j < i && v@[j] == x,
        decreases n - i,
    {
        let ghost before = kept@;
        let x: Warn = v[i];
        if x != w {
            kept.push(x);
        }
        proof {
            assert forall|y: Warn|
                kept@.contains(y) <==> y != w && exists|j: int| 0 <= j < i + 1 && v@[j] == y by {
                if kept@.contains(y) {
                    let k = choose|k: int| 0 <= k < kept@.len() && kept@[k] == y;
                    if k < before.len() {
                        assert(before[k] == y);
                        assert(before.contains(y));
                        let j = choose|j: int| 0 <= j < i && v@[j] == y;
                        assert(0 <= j < i + 1 && v@[j] == y);
                    } else {
                        assert(v@[i as int] == y);
                    }
                }
                if y != w && exists|j: int| 0 <= j < i + 1 && v@[j] == y {
                    let j = choose|j: int| 0 <= j < i + 1 && v@[j] == y;
                    if j < i {
                        assert(before.contains(y));
                        let k = choose|k: int| 0 <= k < before.len() && before[k] == y;
                        assert(kept@[k] == y);
                    } else {
                        assert(kept@[kept@.len() - 1] == y);
                    }
                }
            }
        }
        i += 1;
    }
    proof {
        assert(kept@.to_set() =~= old(v)@.to_set().remove(w)) by {
            assert forall|x: Warn| kept@.contains(x) <==> old(v)@.contains(x) && x != w by {
                if old(v)@.contains(x) && x != w {
                    let j = choose|j: int| 0 <= j < old(v)@.len() && old(v)@[j] == x;
                    assert(0 <= j < n && v@[j] == x);
                }
            }
        }
    }
    *v = kept;
}

impl Warns {
    /// No warning is set to any level.
    pub fn new() -> (warns: Self)
        ensures
            warns@ == Levels::none(),
    {
        let warns = Warns { allow: Vec::new(), warn: Vec::new(), deny: Vec::new() };
        assert(warns@.allow =~= Set::<Warn>::empty());
        assert(warns@.warn =~= Set::<Warn>::empty());
        assert(warns@.deny =~= Set::<Warn>::empty());
        warns
    }

    /// Allows the warning.
    pub fn allow(&mut self, warn: Warn)
        ensures
            final(self)@ == old(self)@.set(Level::Allow, warn),
    {
        insert(&mut self.allow, warn);
        remove(&mut self.warn, warn);
        remove(&mut self.deny, warn);
    }

    /// Sets the warning to warn.
    pub fn warn(&mut self, warn: Warn)
        ensures
            final(self)@ == old(self)@.set(Level::Warn, warn),
    {
        insert(&mut self.warn, warn);
        remove(&mut self.allow, warn);
        remove(&mut self.deny, warn);
    }

    /// Denies the warning.
    pub fn deny(&mut self, warn: Warn)
        ensures
            final(self)@ == old(self)@.set(Level::Deny, warn),
    {
        insert(&mut self.deny, warn);
        remove(&mut self.allow, warn);
        remove(&mut self.warn, warn);
    }

    /// The level of the warning: the one it was set to, else its default.
    pub fn level(&self, warn: Warn) -> (level: Level)
        ensures
            level == self@.level(warn),
    {
        if holds(&self.allow, warn) {
            Level::Allow
        } else if holds(&self.warn, warn) {
            Level::Warn
        } else if holds(&self.deny, warn) {
            Level::Deny
        } else {
            warn.default_level()
        }
    }

    fn set(&mut self, level: Level, warn: Warn)
        ensures
            final(self)@ == old(self)@.set(level, warn),
    {
        match level {
            Level::Allow => self.allow(warn),
            Level::Warn => self.warn(warn),
            Level::Deny => self.deny(warn),
        }
    }

    fn set_names(&mut self, level: Level, names: &Vec<String>, unknown: &mut Vec<(Level, String)>)
        ensures
            final(self)@ == old(self)@.set_names(level, views(names@), names@.len()),
            pair_views(final(unknown)@) == pair_views(old(unknown)@) + unknown_names(
                level,
                views(names@),
                names@.len(),
            ),
    {
        let n: usize = names.len();
        let mut i: usize = 0;
        assert(pair_views(unknown@) =~= pair_views(old(unknown)@) + unknown_names(
            level,
            views(names@),
            0,
        ));
        while i < n
            invariant
                n == names@.len(),
                i <= n,
                self@ == old(self)@.set_names(level, views(names@), i as nat),
                pair_views(unknown@) == pair_views(old(unknown)@) + unknown_names(
                    level,
                    views(names@),
                    i as nat,
                ),
            decreases n - i,
        {
            let name = names[i].as_str();
            assert(views(names@)[i as int] == name@);
            let ghost before = pair_views(unknown@);
            match Group::parse(name) {
                Some(group) => {
                    let ws = group.warns();
                    let m: usize = ws.len();
                    let mut j: usize = 0;
                    let ghost start = self@;
                    while j < m
                        invariant
                            m == ws@.len(),
                            j <= m,
                            self@ == start.set_all(level, ws@, j as nat),
                        decreases m - j,
                    {
                        self.set(level, ws[j]);
                        j += 1;
                    }
                },
                None => match Warn::parse(name) {
                    Some(w) => {
                        self.set(level, w);
                    },
                    None => {
                        unknown.push((level, names[i].clone()));
                        assert(pair_views(unknown@) =~= before.push((level, name@)));
                    },
                },
            }
            assert(pair_views(unknown@) =~= pair_views(old(unknown)@) + unknown_names(
                level,
                views(names@),
                (i + 1) as nat,
            ));
            i += 1;
        }
    }

    /// Sets the levels that the names ask for: first those to allow, then
    /// those to warn, then those to deny, each list in its order. A name
    /// may spell a group or a warning. Returns the names that spell
    /// neither, each with the level it was given at.
    pub fn process_warnings(&mut self, allow: &Vec<String>, warn: &Vec<String>, deny: &Vec<String>) -> (unknown:
        Vec<(Level, String)>)
        ensures
            final(self)@ == old(self)@.process(views(allow@), views(warn@), views(deny@)),
            pair_views(unknown@) == all_unknown(views(allow@), views(warn@), views(deny@)),
    {
        let mut unknown: Vec<(Level, String)> = Vec::new();
        assert(pair_views(unknown@) =~= Seq::empty());
        self.set_names(Level::Allow, allow, &mut unknown);
        self.set_names(Level::Warn, warn, &mut unknown);
        self.set_names(Level::Deny, deny, &mut unknown);
        assert(pair_views(unknown@) =~= all_unknown(views(allow@), views(warn@), views(deny@)));
        unknown
    }

    /// The levels after the configuration, if there is one, and then the
    /// command line had their say.
    pub open spec fn spec_from(cli_opts: WarnOpts, config: Option<Config>) -> Levels {
        let start = match config {
            Some(c) => Levels::none().process(
                views(c.warns.allow@),
                views(c.warns.warn@),
                views(c.warns.deny@),
            ),
            None => Levels::none(),
        };
        start.process(views(cli_opts.allow@), views(cli_opts.warn@), views(cli_opts.deny@))
    }

    /// The names on the command line that spell nothing.
    pub open spec fn cli_unknown(cli_opts: WarnOpts) -> Seq<(Level, Seq<char>)> {
        all_unknown(views(cli_opts.allow@), views(cli_opts.warn@), views(cli_opts.deny@))
    }

    /// What settling the levels gives: refused, with a line for each name
    /// on the command line that spells nothing, where there is such a name
    /// while `unknown-lint` is denied; else the levels that the
    /// configuration and then the command line ask for.
    pub open spec fn settles(
        cli_opts: WarnOpts,
        config: Option<Config>,
        r: Result<Self, Denied>,
    ) -> bool {
        let levels = Self::spec_from(cli_opts, config);
        let unknown = Self::cli_unknown(cli_opts);
        if levels.level(Warn::UnknownWarning) == Level::Deny && unknown.len() > 0 {
            r matches Err(d) && d.message@
                == "found unknown warning names and --deny=unknown-lint"@ && d.errors@.len()
                == unknown.len() && forall|i: int|
                0 <= i < d.errors@.len() ==> (#[trigger] d.errors@[i])@
                    == spec_unknown_warning_line(unknown[i].1, unknown[i].0)
        } else {
            r matches Ok(w) && w@ == levels
        }
    }

    /// The levels that the configuration and then the command line ask
    /// for. Refused where the command line names a warning that does not
    /// exist while `unknown-lint` is denied.
    pub fn from_cli_and_config(cli_opts: &WarnOpts, config: Option<&Config>) -> (r: Result<
        Self,
        Denied,
    >)
        ensures
            Self::settles(
                *cli_opts,
                match config {
                    Some(c) => Some(*c),
                    None => None,
                },
                r,
            ),
    {
        let mut warns = Warns::new();
        if let Some(config) = config {
            let _config_unknown = warns.process_warnings(
                &config.warns.allow,
                &config.warns.warn,
                &config.warns.deny,
            );
        }
        let cli_unknown = warns.process_warnings(&cli_opts.allow, &cli_opts.warn, &cli_opts.deny);
        match warns.level(Warn::UnknownWarning) {
            Level::Deny => {
                if cli_unknown.len() > 0 {
                    let mut errors: Vec<String> = Vec::new();
                    let n: usize = cli_unknown.len();
                    let mut i: usize = 0;
                    while i < n
                        invariant
                            n == cli_unknown@.len(),
                            i <= n,
                            errors@.len() == i,
                            forall|k: int|
                                0 <= k < i ==> (#[trigger] errors@[k])@
                                    == spec_unknown_warning_line(
                                    pair_views(cli_unknown@)[k].1,
                                    pair_views(cli_unknown@)[k].0,
                                ),
                        decreases n - i,
                    {
                        errors.push(unknown_warning_line(&cli_unknown[i].1, cli_unknown[i].0));
                        i += 1;
                    }
                    return Err(
                        Denied {
                            message: "found unknown warning names and --deny=unknown-lint".to_owned(),
                            errors,
                        },
                    );
                }
            },
            _ => {},
        }
        Ok(warns)
    }
}

/// The levels that the command line alone asks for, as
/// [`Warns::from_cli_and_config`] settles them without a configuration.
impl TryFrom<&WarnOpts> for Warns {
    type Error = Denied;

    fn try_from(opts: &WarnOpts) -> (r: Result<Self, Denied>)
        ensures
            Warns::settles(*opts, None, r),
    {
        Self::from_cli_and_config(opts, None)
    }
}

/// The conversion is stated by the clause of `try_from` itself: the levels
/// are lists, and a value of them cannot be written down here.
impl vstd::std_specs::convert::TryFromSpecImpl<&WarnOpts> for Warns {
    open spec fn obeys_try_from_spec() -> bool {
        false
    }

    open spec fn try_from_spec(opts: &WarnOpts) -> Result<Self, Denied> {
        arbitrary()
    }
}

/// The line that reports a name that spells no warning.
pub open spec fn spec_unknown_warning_line(name: Seq<char>, level: Level) -> Seq<char> {
    "unknown warning `"@ + name + "` specified in `--"@ + level.name() + "`"@
}

/// See [`spec_unknown_warning_line`].
pub fn unknown_warning_line(name: &String, level: Level) -> (line: String)
    ensures
        line@ == spec_unknown_warning_line(name@, level),
{
    let mut line: String = "unknown warning `".to_owned();
    line.append(name.as_str());
    line.append("` specified in `--");
    line.append(level.as_str());
    line.append("`");
    line
}

} // verus!
