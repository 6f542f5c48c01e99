//! The tools that are known by name, with the settings that usually fit.

use vstd::prelude::*;
use crate::config::{Formatter, Granularity, Linter, Tool};
use crate::text::{str_eq, views};

verus! {

/// What is known of a tool: its settings, and the command of its other
/// mode (`fix` for a linter, `check` for a formatter) where it has one.
pub struct Known {
    pub name: Option<Seq<char>>,
    pub cmd: Seq<char>,
    pub files: Seq<Seq<char>>,
    pub granularity: Granularity,
    pub configs: Seq<Seq<char>>,
    pub alt: Option<Seq<char>>,
}

/// The known linters.
pub open spec fn linter_catalog() -> Seq<Known> {
    seq![
        Known {
            name: Some("cargo clippy"@),
            cmd: "cargo clippy --color={{color}} --all-targets -- --deny warnings"@,
            files: seq!["*.rs"@],
            granularity: Granularity::Batch,
            configs: seq!["Cargo.toml"@],
            alt: Some("cargo clippy --color={{color}} --allow-dirty --fix"@),
        },
        Known {
            name: None,
            cmd: "hlint --"@,
            files: seq!["*.hs"@],
            granularity: Granularity::Individual,
            configs: seq![".hlint.yml"@, ".hlint.yaml"@],
            alt: None,
        },
        Known {
            name: Some("mdlynx"@),
            cmd: "mdlynx --"@,
            files: seq!["*.md"@],
            granularity: Granularity::Individual,
            configs: Seq::empty(),
            alt: None,
        },
        Known {
            name: Some("mypy"@),
            cmd: "mypy --strict --"@,
            files: seq!["*.py"@],
            granularity: Granularity::Individual,
            configs: seq!["pyproject.toml"@, "mypy.ini"@, ".mypy.ini"@],
            alt: None,
        },
        Known {
            name: Some("ruff check"@),
            cmd: "ruff check --"@,
            files: seq!["*.py"@],
            granularity: Granularity::Individual,
            configs: seq!["pyproject.toml"@, "ruff.toml"@, ".ruff.toml"@],
            alt: Some("ruff check --fix --"@),
        },
        Known {
            name: Some("shellcheck"@),
            cmd: "shellcheck --color={{color}} --"@,
            files: seq!["*.sh"@],
            granularity: Granularity::Individual,
            configs: seq![".shellcheckrc"@],
            alt: None,
        },
        Known {
            name: Some("ty"@),
            cmd: "ty check --"@,
            files: seq!["*.py"@],
            granularity: Granularity::Batch,
            configs: seq!["pyproject.toml"@, "ty.toml"@],
            alt: None,
        },
        Known {
            name: Some("ttlint"@),
            cmd: "ttlint --"@,
            files: seq!["*"@],
            granularity: Granularity::Individual,
            configs: Seq::empty(),
            alt: Some("ttlint --fix --"@),
        },
        Known {
            name: Some("typos"@),
            cmd: "typos --"@,
            files: seq!["*.md"@],
            granularity: Granularity::Individual,
            configs: seq!["typos.toml"@, "_typos.toml"@, ".typos.toml"@],
            alt: Some("typos --write-changes --"@),
        },
        Known {
            name: Some("zizmor"@),
            cmd: "zizmor --"@,
            files: seq![".github/**/*.yml"@],
            granularity: Granularity::Individual,
            configs: seq!["zizmor.yml"@, "zizmor.yaml"@],
            alt: Some("zizmor --fix=safe --"@),
        },
    ]
}

/// The known formatters.
pub open spec fn formatter_catalog() -> Seq<Known> {
    seq![
        Known {
            name: Some("cargo fmt"@),
            cmd: "cargo fmt -- --color={{color}} --"@,
            files: seq!["*.rs"@],
            granularity: Granularity::Batch,
            configs: seq!["Cargo.toml"@, "rustfmt.toml"@, ".rustfmt.toml"@],
            alt: Some("cargo fmt --check -- --color={{color}} --"@),
        },
        Known {
            name: Some("ruff format"@),
            cmd: "ruff format --"@,
            files: seq!["*.py"@],
            granularity: Granularity::Individual,
            configs: seq!["ruff.toml"@, ".ruff.toml"@],
            alt: Some("ruff format --check --"@),
        },
        Known {
            name: Some("taplo"@),
            cmd: "taplo format --"@,
            files: seq!["*.toml"@],
            granularity: Granularity::Individual,
            configs: Seq::empty(),
            alt: Some("taplo format --check --"@),
        },
    ]
}

/// The view of a string that may be absent.
pub open spec fn opt_view(s: Option<String>) -> Option<Seq<char>> {
    match s {
        Some(x) => Some(x@),
        None => None,
    }
}

/// The tool has the settings that are known, no ignore patterns and no
/// working directory.
pub open spec fn tool_is(tool: Tool, known: Known) -> bool {
    &&& opt_view(tool.name) == known.name
    &&& tool.cmd@ == known.cmd
    &&& views(tool.files@) == known.files
    &&& tool.ignore@.len() == 0
    &&& tool.granularity == known.granularity
    &&& views(tool.configs@) == known.configs
    &&& tool.cd is None
}

/// The linter is the known one.
pub open spec fn linter_is(linter: Linter, known: Known) -> bool {
    tool_is(linter.tool, known) && opt_view(linter.fix) == known.alt
}

/// The formatter is the known one.
pub open spec fn formatter_is(formatter: Formatter, known: Known) -> bool {
    tool_is(formatter.tool, known) && opt_view(formatter.check) == known.alt
}

/// The place of the first tool of that name among the first `n` of a
/// catalog.
pub open spec fn first_named(catalog: Seq<Known>, name: Seq<char>, n: nat) -> Option<int>
    decreases n,
{
    if n == 0 {
        None
    } else {
        match first_named(catalog, name, (n - 1) as nat) {
            Some(i) => Some(i),
            None => if catalog[n - 1].name == Some(name) {
                Some(n - 1)
            } else {
                None
            },
        }
    }
}

/// The known linter of that name.
pub open spec fn spec_known_linter(name: Seq<char>) -> Option<Known> {
    match first_named(linter_catalog(), name, linter_catalog().len()) {
        Some(i) => Some(linter_catalog()[i]),
        None => None,
    }
}

/// The known formatter of that name.
pub open spec fn spec_known_formatter(name: Seq<char>) -> Option<Known> {
    match first_named(formatter_catalog(), name, formatter_catalog().len()) {
        Some(i) => Some(formatter_catalog()[i]),
        None => None,
    }
}

fn owned(s: Option<&str>) -> (o: Option<String>)
    ensures
        opt_view(o) == match s {
            Some(x) => Some(x@),
            None => None,
        },
{
    match s {
        Some(x) => Some(x.to_owned()),
        None => None,
    }
}

fn owned_all(v: Vec<&str>) -> (o: Vec<String>)
    ensures
        views(o@) == Seq::new(v@.len(), |i: int| v@[i]@),
{
    let mut o: Vec<String> = Vec::new();
    let n: usize = v.len();
    let mut i: usize = 0;
    while i < n
        invariant
            n == v@.len(),
            i <= n,
            o@.len() == i,
            forall|j: int| 0 <= j < i ==> o@[j]@ == v@[j]@,
        decreases n - i,
    {
        o.push(v[i].to_owned());
        i += 1;
    }
    assert(views(o@) =~= Seq::new(v@.len(), |i: int| v@[i]@));
    o
}

fn tool(name: Option<&str>, cmd: &str, files: Vec<&str>, granularity: Granularity, configs: Vec<
    &str,
>) -> (t: Tool)
    ensures
        opt_view(t.name) == match name {
            Some(x) => Some(x@),
            None => None,
        },
        t.cmd@ == cmd@,
        views(t.files@) == Seq::new(files@.len(), |i: int| files@[i]@),
        t.ignore@.len() == 0,
        t.granularity == granularity,
        views(t.configs@) == Seq::new(configs@.len(), |i: int| configs@[i]@),
        t.cd is None,
{
    Tool {
        name: owned(name),
        cmd: cmd.to_owned(),
        files: owned_all(files),
        ignore: Vec::new(),
        granularity,
        configs: owned_all(configs),
        cd: None,
    }
}

fn linter(
    name: Option<&str>,
    cmd: &str,
    files: Vec<&str>,
    granularity: Granularity,
    configs: Vec<&str>,
    fix: Option<&str>,
) -> (l: Linter)
    ensures
        linter_is(
            l,
            Known {
                name: match name {
                    Some(x) => Some(x@),
                    None => None,
                },
                cmd: cmd@,
                files: Seq::new(files@.len(), |i: int| files@[i]@),
                granularity,
                configs: Seq::new(configs@.len(), |i: int| configs@[i]@),
                alt: match fix {
                    Some(x) => Some(x@),
                    None => None,
                },
            },
        ),
{
    Linter { tool: tool(name, cmd, files, granularity, configs), fix: owned(fix) }
}

fn formatter(
    name: Option<&str>,
    cmd: &str,
    files: Vec<&str>,
    granularity: Granularity,
    configs: Vec<&str>,
    check: Option<&str>,
) -> (f: Formatter)
    ensures
        formatter_is(
            f,
            Known {
                name: match name {
                    Some(x) => Some(x@),
                    None => None,
                },
                cmd: cmd@,
                files: Seq::new(files@.len(), |i: int| files@[i]@),
                granularity,
                configs: Seq::new(configs@.len(), |i: int| configs@[i]@),
                alt: match check {
                    Some(x) => Some(x@),
                    None => None,
                },
            },
        ),
{
    Formatter { tool: tool(name, cmd, files, granularity, configs), check: owned(check) }
}

/// The known linters, in the order of [`linter_catalog`].
pub fn known_linters() -> (out: Vec<Linter>)
    ensures
        out@.len() == linter_catalog().len(),
        forall|i: int| 0 <= i < out@.len() ==> linter_is(#[trigger] out@[i], linter_catalog()[i]),
{
    let mut out: Vec<Linter> = Vec::new();
    out.push(linter(Some("cargo clippy"), "cargo clippy --color={{color}} --all-targets -- --deny warnings", vec!["*.rs"], Granularity::Batch, vec!["Cargo.toml"], Some("cargo clippy --color={{color}} --allow-dirty --fix")));
    assert(out@.len() == 1);
    out.push(linter(None, "hlint --", vec!["*.hs"], Granularity::Individual, vec![".hlint.yml", ".hlint.yaml"], None));
    assert(out@.len() == 2);
    out.push(linter(Some("mdlynx"), "mdlynx --", vec!["*.md"], Granularity::Individual, Vec::new(), None));
    assert(out@.len() == 3);
    out.push(linter(Some("mypy"), "mypy --strict --", vec!["*.py"], Granularity::Individual, vec!["pyproject.toml", "mypy.ini", ".mypy.ini"], None));
    assert(out@.len() == 4);
    out.push(linter(Some("ruff check"), "ruff check --", vec!["*.py"], Granularity::Individual, vec!["pyproject.toml", "ruff.toml", ".ruff.toml"], Some("ruff check --fix --")));
    assert(out@.len() == 5);
    out.push(linter(Some("shellcheck"), "shellcheck --color={{color}} --", vec!["*.sh"], Granularity::Individual, vec![".shellcheckrc"], None));
    assert(out@.len() == 6);
    out.push(linter(Some("ty"), "ty check --", vec!["*.py"], Granularity::Batch, vec!["pyproject.toml", "ty.toml"], None));
    assert(out@.len() == 7);
    out.push(linter(Some("ttlint"), "ttlint --", vec!["*"], Granularity::Individual, Vec::new(), Some("ttlint --fix --")));
    assert(out@.len() == 8);
    out.push(linter(Some("typos"), "typos --", vec!["*.md"], Granularity::Individual, vec!["typos.toml", "_typos.toml", ".typos.toml"], Some("typos --write-changes --")));
    assert(out@.len() == 9);
    out.push(linter(Some("zizmor"), "zizmor --", vec![".github/**/*.yml"], Granularity::Individual, vec!["zizmor.yml", "zizmor.yaml"], Some("zizmor --fix=safe --")));
    assert(out@.len() == 10);
    proof {
        assert forall|i: int| 0 <= i < out@.len() implies linter_is(
            #[trigger] out@[i],
            linter_catalog()[i],
        ) by {
            let l = out@[i];
            let k = linter_catalog()[i];
            assert(views(l.tool.files@) =~= k.files);
            assert(views(l.tool.configs@) =~= k.configs);
        }
    }
    out
}

/// The known formatters, in the order of [`formatter_catalog`].
pub fn known_formatters() -> (out: Vec<Formatter>)
    ensures
        out@.len() == formatter_catalog().len(),
        forall|i: int|
            0 <= i < out@.len() ==> formatter_is(#[trigger] out@[i], formatter_catalog()[i]),
{
    let mut out: Vec<Formatter> = Vec::new();
    out.push(formatter(Some("cargo fmt"), "cargo fmt -- --color={{color}} --", vec!["*.rs"], Granularity::Batch, vec!["Cargo.toml", "rustfmt.toml", ".rustfmt.toml"], Some("cargo fmt --check -- --color={{color}} --")));
    assert(out@.len() == 1);
    out.push(formatter(Some("ruff format"), "ruff format --", vec!["*.py"], Granularity::Individual, vec!["ruff.toml", ".ruff.toml"], Some("ruff format --check --")));
    assert(out@.len() == 2);
    out.push(formatter(Some("taplo"), "taplo format --", vec!["*.toml"], Granularity::Individual, Vec::new(), Some("taplo format --check --")));
    assert(out@.len() == 3);
    proof {
        assert forall|i: int| 0 <= i < out@.len() implies formatter_is(
            #[trigger] out@[i],
            formatter_catalog()[i],
        ) by {
            let f = out@[i];
            let k = formatter_catalog()[i];
            assert(views(f.tool.files@) =~= k.files);
            assert(views(f.tool.configs@) =~= k.configs);
        }
    }
    out
}

/// Whether the tool has that name.
fn is_named(tool: &Tool, name: &str) -> (named: bool)
    ensures
        named == (opt_view(tool.name) == Some(name@)),
{
    match &tool.name {
        Some(n) => str_eq(n.as_str(), name),
        None => false,
    }
}

/// The first known linter of that name.
pub fn known_linter_by_name(name: &str) -> (found: Option<Linter>)
    ensures
        match found {
            Some(l) => spec_known_linter(name@) is Some && linter_is(
                l,
                spec_known_linter(name@)->Some_0,
            ),
            None => spec_known_linter(name@) is None,
        },
{
    let all = known_linters();
    let ghost catalog = linter_catalog();
    let ghost want = name@;
    let ghost items = all@;
    for l in it: all
        invariant
            it.seq() == items,
            items.len() == catalog.len(),
            want == name@,
            catalog == linter_catalog(),
            forall|i: int| 0 <= i < items.len() ==> linter_is(#[trigger] items[i], catalog[i]),
            first_named(catalog, want, it.index() as nat) is None,
    {
        if is_named(&l.tool, name) {
            proof {
                let i = it.index() as int;
                assert(linter_is(items[i], catalog[i]));
                lemma_first_named_found(catalog, want, i, catalog.len());
            }
            return Some(l);
        }
        proof {
            let i = it.index() as int;
            assert(linter_is(items[i], catalog[i]));
        }
    }
    None
}

/// The first known formatter of that name.
pub fn known_formatter_by_name(name: &str) -> (found: Option<Formatter>)
    ensures
        match found {
            Some(f) => spec_known_formatter(name@) is Some && formatter_is(
                f,
                spec_known_formatter(name@)->Some_0,
            ),
            None => spec_known_formatter(name@) is None,
        },
{
    let all = known_formatters();
    let ghost catalog = formatter_catalog();
    let ghost want = name@;
    let ghost items = all@;
    for f in it: all
        invariant
            it.seq() == items,
            items.len() == catalog.len(),
            want == name@,
            catalog == formatter_catalog(),
            forall|i: int| 0 <= i < items.len() ==> formatter_is(#[trigger] items[i], catalog[i]),
            first_named(catalog, want, it.index() as nat) is None,
    {
        if is_named(&f.tool, name) {
            proof {
                let i = it.index() as int;
                assert(formatter_is(items[i], catalog[i]));
                lemma_first_named_found(catalog, want, i, catalog.len());
            }
            return Some(f);
        }
        proof {
            let i = it.index() as int;
            assert(formatter_is(items[i], catalog[i]));
        }
    }
    None
}

/// Once the first tool of a name is found, looking further finds the same.
pub proof fn lemma_first_named_found(catalog: Seq<Known>, name: Seq<char>, i: int, n: nat)
    requires
        0 <= i < n <= catalog.len(),
        first_named(catalog, name, i as nat) is None,
        catalog[i].name == Some(name),
    ensures
        first_named(catalog, name, n) == Some(i),
    decreases n,
{
    if n > i + 1 {
        lemma_first_named_found(catalog, name, i, (n - 1) as nat);
    }
}

/// Those of the first `n` tools of a catalog that have a name.
pub open spec fn named(catalog: Seq<Known>, n: nat) -> Seq<Known>
    decreases n,
{
    if n == 0 {
        Seq::empty()
    } else {
        let before = named(catalog, (n - 1) as nat);
        if catalog[n - 1].name is Some {
            before.push(catalog[n - 1])
        } else {
            before
        }
    }
}

/// The known tools that have a name: the linters, then the formatters.
pub open spec fn named_catalog() -> Seq<Known> {
    named(linter_catalog(), linter_catalog().len()) + named(
        formatter_catalog(),
        formatter_catalog().len(),
    )
}

/// `out` holds the tools of `catalog`, one for one, each with its name.
pub open spec fn by_name_is(out: Seq<(String, Tool)>, catalog: Seq<Known>) -> bool {
    &&& out.len() == catalog.len()
    &&& forall|i: int|
        0 <= i < out.len() ==> Some((#[trigger] out[i]).0@) == catalog[i].name && tool_is(
            out[i].1,
            catalog[i],
        )
}

/// The known tools that have a name, each with its name: the linters, then
/// the formatters.
pub fn known_tools_by_name() -> (out: Vec<(String, Tool)>)
    ensures
        by_name_is(out@, named_catalog()),
{
    let mut out: Vec<(String, Tool)> = Vec::new();
    let linters = known_linters();
    let ghost lcat = linter_catalog();
    let ghost litems = linters@;
    for l in it: linters
        invariant
            it.seq() == litems,
            litems.len() == lcat.len(),
            lcat == linter_catalog(),
            forall|i: int| 0 <= i < litems.len() ==> linter_is(#[trigger] litems[i], lcat[i]),
            by_name_is(out@, named(lcat, it.index() as nat)),
    {
        let Linter { tool, fix } = l;
        let name = match &tool.name {
            Some(n) => Some(n.clone()),
            None => None,
        };
        proof {
            let i = it.index() as int;
            assert(linter_is(litems[i], lcat[i]));
        }
        if let Some(n) = name {
            out.push((n, tool));
        }
    }
    let formatters = known_formatters();
    let ghost fcat = formatter_catalog();
    let ghost fitems = formatters@;
    let ghost first = named(lcat, lcat.len());
    assert(first + named(fcat, 0) =~= first);
    for f in it: formatters
        invariant
            it.seq() == fitems,
            fitems.len() == fcat.len(),
            fcat == formatter_catalog(),
            first == named(linter_catalog(), linter_catalog().len()),
            forall|i: int| 0 <= i < fitems.len() ==> formatter_is(#[trigger] fitems[i], fcat[i]),
            by_name_is(out@, first + named(fcat, it.index() as nat)),
    {
        let Formatter { tool, check } = f;
        let name = match &tool.name {
            Some(n) => Some(n.clone()),
            None => None,
        };
        proof {
            let i = it.index() as int;
            assert(formatter_is(fitems[i], fcat[i]));
            if fcat[i].name is Some {
                assert(first + named(fcat, (i + 1) as nat) =~= (first + named(fcat, i as nat)).push(
                    fcat[i],
                ));
            }
        }
        if let Some(n) = name {
            out.push((n, tool));
        }
    }
    out
}

/// The names of the known tools, in the order of the catalogs.
pub open spec fn catalog_names() -> Seq<Seq<char>> {
    seq![
        "cargo clippy"@,
        "mdlynx"@,
        "mypy"@,
        "ruff check"@,
        "shellcheck"@,
        "ty"@,
        "ttlint"@,
        "typos"@,
        "zizmor"@,
        "cargo fmt"@,
        "ruff format"@,
        "taplo"@,
    ]
}

/// The known tools that have a name have the names of [`catalog_names`],
/// and no two of them have one name: looking a tool up by its name finds
/// the one tool of that name.
pub proof fn lemma_names_differ()
    ensures
        named_catalog().len() == catalog_names().len(),
        forall|i: int|
            0 <= i < named_catalog().len() ==> (#[trigger] named_catalog()[i]).name == Some(
                catalog_names()[i],
            ),
        catalog_names().no_duplicates(),
{
    reveal_strlit("cargo clippy");
    reveal_strlit("mdlynx");
    reveal_strlit("mypy");
    reveal_strlit("ruff check");
    reveal_strlit("shellcheck");
    reveal_strlit("ty");
    reveal_strlit("ttlint");
    reveal_strlit("typos");
    reveal_strlit("zizmor");
    reveal_strlit("cargo fmt");
    reveal_strlit("ruff format");
    reveal_strlit("taplo");
    reveal_with_fuel(named, 11);
    let l = linter_catalog();
    let f = formatter_catalog();
    assert(named(l, 10) =~= seq![l[0], l[2], l[3], l[4], l[5], l[6], l[7], l[8], l[9]]);
    assert(named(f, 3) =~= seq![f[0], f[1], f[2]]);
    let c = catalog_names();
    assert forall|i: int, j: int| 0 <= i < j < c.len() implies c[i] != c[j] by {
        assert(c[i].len() != c[j].len() || c[i][0] != c[j][0] || c[i][1] != c[j][1]);
    }
}

} // verus!
