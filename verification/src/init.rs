//! A first configuration: the known tools that were asked for, or else those
//! whose configuration files are found.

use vstd::prelude::*;
use crate::cli::Init;
use crate::config::{is_known, Config, Formatter, Linter, WarnCfg};
use crate::known::{
    formatter_catalog, formatter_is, known_formatter_by_name, known_formatters,
    known_linter_by_name, known_linters, linter_catalog, linter_is,
    spec_known_formatter, spec_known_linter, Known,
};
use crate::text::{clone_strings, contains_str, views};

verus! {

/// Why no configuration is made.
#[derive(Debug)]
pub enum InitError {
    /// A tool was asked for that is not known.
    UnknownTool { name: String },
}

/// Those of the first `n` paths that are among `existing`.
pub open spec fn kept_configs(configs: Seq<Seq<char>>, existing: Seq<Seq<char>>, n: nat) -> Seq<
    Seq<char>,
>
    decreases n,
{
    if n == 0 {
        Seq::empty()
    } else {
        let before = kept_configs(configs, existing, (n - 1) as nat);
        if existing.contains(configs[n - 1]) {
            before.push(configs[n - 1])
        } else {
            before
        }
    }
}

/// What is known of a tool, with only those of its configuration files that
/// exist.
pub open spec fn found_on_disk(known: Known, existing: Seq<Seq<char>>) -> Known {
    Known { configs: kept_configs(known.configs, existing, known.configs.len()), ..known }
}

fn retain_existing(configs: &mut Vec<String>, existing: &Vec<String>)
    ensures
        views(final(configs)@) == kept_configs(
            views(old(configs)@),
            views(existing@),
            old(configs)@.len(),
        ),
{
    let mut kept: Vec<String> = Vec::new();
    let n: usize = configs.len();
    let mut i: usize = 0;
    assert(views(kept@) =~= kept_configs(views(configs@), views(existing@), 0));
    while i < n
        invariant
            n == configs@.len(),
            configs@ == old(configs)@,
            i <= n,
            views(kept@) == kept_configs(views(configs@), views(existing@), i as nat),
        decreases n - i,
    {
        let ghost before = views(kept@);
        assert(views(configs@)[i as int] == configs@[i as int]@);
        if contains_str(existing, configs[i].as_str()) {
            kept.push(configs[i].clone());
            assert(views(kept@) =~= before.push(configs@[i as int]@));
        }
        i += 1;
    }
    *configs = kept;
}

/// The linters among the first `n` names: what is known of each, with the
/// configuration files that exist.
pub open spec fn asked_linters(names: Seq<Seq<char>>, existing: Seq<Seq<char>>, n: nat) -> Seq<
    Known,
>
    decreases n,
{
    if n == 0 {
        Seq::empty()
    } else {
        let before = asked_linters(names, existing, (n - 1) as nat);
        match spec_known_linter(names[n - 1]) {
            Some(k) => before.push(found_on_disk(k, existing)),
            None => before,
        }
    }
}

/// The formatters among the first `n` names: what is known of each name
/// that is no linter's, with the configuration files that exist.
pub open spec fn asked_formatters(names: Seq<Seq<char>>, existing: Seq<Seq<char>>, n: nat) -> Seq<
    Known,
>
    decreases n,
{
    if n == 0 {
        Seq::empty()
    } else {
        let before = asked_formatters(names, existing, (n - 1) as nat);
        if spec_known_linter(names[n - 1]) is Some {
            before
        } else {
            match spec_known_formatter(names[n - 1]) {
                Some(k) => before.push(found_on_disk(k, existing)),
                None => before,
            }
        }
    }
}

/// The linters are those known, one for one.
pub open spec fn linters_are(linters: Seq<Linter>, known: Seq<Known>) -> bool {
    &&& linters.len() == known.len()
    &&& forall|i: int| 0 <= i < linters.len() ==> linter_is(#[trigger] linters[i], known[i])
}

/// The formatters are those known, one for one.
pub open spec fn formatters_are(formatters: Seq<Formatter>, known: Seq<Known>) -> bool {
    &&& formatters.len() == known.len()
    &&& forall|i: int|
        0 <= i < formatters.len() ==> formatter_is(#[trigger] formatters[i], known[i])
}

/// The place of the first of the first `n` names that is not known.
pub open spec fn first_unknown(names: Seq<Seq<char>>, n: nat) -> Option<int>
    decreases n,
{
    if n == 0 {
        None
    } else {
        match first_unknown(names, (n - 1) as nat) {
            Some(k) => Some(k),
            None => if is_known(names[n - 1]) {
                None
            } else {
                Some(n - 1)
            },
        }
    }
}

/// The first name that is not known stays the first.
pub proof fn lemma_first_unknown_stays(names: Seq<Seq<char>>, k: nat, n: nat)
    requires
        k <= n,
        first_unknown(names, k) is Some,
    ensures
        first_unknown(names, n) == first_unknown(names, k),
    decreases n,
{
    if n > k {
        lemma_first_unknown_stays(names, k, (n - 1) as nat);
    }
}

/// The error of asking for these names: it names the first that is not
/// known.
pub open spec fn names_unknown(e: InitError, names: Seq<Seq<char>>) -> bool {
    e matches InitError::UnknownTool { name } && (first_unknown(names, names.len()) matches Some(k)
        && name@ == names[k])
}

/// The known tools of these names, linters and formatters apart, each with
/// only those of its configuration files that are among `existing`. Fails
/// at the first name that is not known.
pub fn get_known_tools(names: &Vec<String>, existing: &Vec<String>) -> (r: Result<
    (Vec<Linter>, Vec<Formatter>),
    InitError,
>)
    ensures
        r is Ok <==> forall|i: int| 0 <= i < names@.len() ==> is_known(#[trigger] views(names@)[i]),
        r matches Ok((linters, formatters)) ==> linters_are(
            linters@,
            asked_linters(views(names@), views(existing@), names@.len()),
        ) && formatters_are(
            formatters@,
            asked_formatters(views(names@), views(existing@), names@.len()),
        ),
        r matches Err(e) ==> names_unknown(e, views(names@)),
{
    let mut linters: Vec<Linter> = Vec::new();
    let mut formatters: Vec<Formatter> = Vec::new();
    let ghost ns = views(names@);
    let ghost ex = views(existing@);
    let n: usize = names.len();
    let mut i: usize = 0;
    while i < n
        invariant
            n == names@.len(),
            ns == views(names@),
            ex == views(existing@),
            i <= n,
            forall|j: int| 0 <= j < i ==> is_known(#[trigger] ns[j]),
            first_unknown(ns, i as nat) is None,
            linters_are(linters@, asked_linters(ns, ex, i as nat)),
            formatters_are(formatters@, asked_formatters(ns, ex, i as nat)),
        decreases n - i,
    {
        let name = names[i].as_str();
        assert(ns[i as int] == name@);
        match known_linter_by_name(name) {
            Some(mut linter) => {
                retain_existing(&mut linter.tool.configs, existing);
                linters.push(linter);
            },
            None => match known_formatter_by_name(name) {
                Some(mut formatter) => {
                    retain_existing(&mut formatter.tool.configs, existing);
                    formatters.push(formatter);
                },
                None => {
                    proof {
                        lemma_first_unknown_stays(ns, (i + 1) as nat, n as nat);
                    }
                    return Err(InitError::UnknownTool { name: names[i].clone() });
                },
            },
        }
        i += 1;
    }
    Ok((linters, formatters))
}

/// Those of the first `n` tools of a catalog of which a configuration file
/// exists, each with the files that exist.
pub open spec fn detected(catalog: Seq<Known>, existing: Seq<Seq<char>>, n: nat) -> Seq<Known>
    decreases n,
{
    if n == 0 {
        Seq::empty()
    } else {
        let before = detected(catalog, existing, (n - 1) as nat);
        let k = found_on_disk(catalog[n - 1], existing);
        if k.configs.len() > 0 {
            before.push(k)
        } else {
            before
        }
    }
}

/// The tools of a first configuration: those of the names given, or, where
/// no name is given, every known tool of which a configuration file is
/// among `existing`.
pub fn collect_tools(names: &Vec<String>, existing: &Vec<String>) -> (r: Result<
    (Vec<Linter>, Vec<Formatter>),
    InitError,
>)
    ensures
        names@.len() == 0 ==> (r matches Ok((linters, formatters)) && linters_are(
            linters@,
            detected(linter_catalog(), views(existing@), linter_catalog().len()),
        ) && formatters_are(
            formatters@,
            detected(formatter_catalog(), views(existing@), formatter_catalog().len()),
        )),
        names@.len() > 0 ==> (r is Ok <==> forall|i: int|
            0 <= i < names@.len() ==> is_known(#[trigger] views(names@)[i])),
        names@.len() > 0 ==> (r matches Ok((linters, formatters)) ==> linters_are(
            linters@,
            asked_linters(views(names@), views(existing@), names@.len()),
        ) && formatters_are(
            formatters@,
            asked_formatters(views(names@), views(existing@), names@.len()),
        )),
        r matches Err(e) ==> names_unknown(e, views(names@)),
{
    if names.len() > 0 {
        return get_known_tools(names, existing);
    }
    let ghost ex = views(existing@);
    let mut detected_linters: Vec<Linter> = Vec::new();
    let all = known_linters();
    let ghost lcat = linter_catalog();
    let ghost litems = all@;
    for l in it: all
        invariant
            it.seq() == litems,
            litems.len() == lcat.len(),
            lcat == linter_catalog(),
            ex == views(existing@),
            forall|i: int| 0 <= i < litems.len() ==> linter_is(#[trigger] litems[i], lcat[i]),
            linters_are(detected_linters@, detected(lcat, ex, it.index() as nat)),
    {
        let mut linter = l;
        assert(linter_is(litems[it.index() as int], lcat[it.index() as int]));
        retain_existing(&mut linter.tool.configs, existing);
        if linter.tool.configs.len() > 0 {
            detected_linters.push(linter);
        }
    }
    let mut detected_formatters: Vec<Formatter> = Vec::new();
    let all = known_formatters();
    let ghost fcat = formatter_catalog();
    let ghost fitems = all@;
    for f in it: all
        invariant
            it.seq() == fitems,
            fitems.len() == fcat.len(),
            fcat == formatter_catalog(),
            ex == views(existing@),
            forall|i: int| 0 <= i < fitems.len() ==> formatter_is(#[trigger] fitems[i], fcat[i]),
            formatters_are(detected_formatters@, detected(fcat, ex, it.index() as nat)),
    {
        let mut formatter = f;
        assert(formatter_is(fitems[it.index() as int], fcat[it.index() as int]));
        retain_existing(&mut formatter.tool.configs, existing);
        if formatter.tool.configs.len() > 0 {
            detected_formatters.push(formatter);
        }
    }
    Ok((detected_linters, detected_formatters))
}

/// The first `n` names without those that occurred before.
pub open spec fn deduped(names: Seq<Seq<char>>, n: nat) -> Seq<Seq<char>>
    decreases n,
{
    if n == 0 {
        Seq::empty()
    } else {
        let before = deduped(names, (n - 1) as nat);
        if before.contains(names[n - 1]) {
            before
        } else {
            before.push(names[n - 1])
        }
    }
}

fn dedup(names: &Vec<String>) -> (out: Vec<String>)
    ensures
        views(out@) == deduped(views(names@), names@.len()),
{
    let mut out: Vec<String> = Vec::new();
    let n: usize = names.len();
    let mut i: usize = 0;
    assert(views(out@) =~= deduped(views(names@), 0));
    while i < n
        invariant
            n == names@.len(),
            i <= n,
            views(out@) == deduped(views(names@), i as nat),
        decreases n - i,
    {
        let ghost before = views(out@);
        assert(views(names@)[i as int] == names@[i as int]@);
        if !contains_str(&out, names[i].as_str()) {
            out.push(names[i].clone());
            assert(views(out@) =~= before.push(names@[i as int]@));
        }
        i += 1;
    }
    out
}

/// The first configuration that the options of `init` ask for: the tools of
/// the names given, each name once, or else the tools found; the rest as
/// the options say.
pub fn gen_config(init: &Init, existing: &Vec<String>) -> (r: Result<Config, InitError>)
    ensures
        r is Ok <==> forall|i: int|
            0 <= i < deduped(views(init.tool@), init.tool@.len()).len() ==> is_known(
                #[trigger] deduped(views(init.tool@), init.tool@.len())[i],
            ),
        r matches Ok(config) ==> config.refs@ == init.refs@ && config.careful == init.careful
            && config.cores == init.cores && config.mtime == init.mtime && config.ninja is None
            && config.warns.allow@ == init.allow@ && config.warns.warn@ == init.warn@
            && config.warns.deny@ == init.deny@ && config.tool@.len() == 0
            && config.ignore@.len() == 0 && config.cache_size is None,
        r matches Ok(config) ==> ({
            let names = deduped(views(init.tool@), init.tool@.len());
            if names.len() == 0 {
                linters_are(
                    config.linter@,
                    detected(linter_catalog(), views(existing@), linter_catalog().len()),
                ) && formatters_are(
                    config.formatter@,
                    detected(formatter_catalog(), views(existing@), formatter_catalog().len()),
                )
            } else {
                linters_are(config.linter@, asked_linters(names, views(existing@), names.len()))
                    && formatters_are(
                    config.formatter@,
                    asked_formatters(names, views(existing@), names.len()),
                )
            }
        }),
        r matches Err(e) ==> names_unknown(e, deduped(views(init.tool@), init.tool@.len())),
{
    let tool_names = dedup(&init.tool);
    let (linter, formatter) = match collect_tools(&tool_names, existing) {
        Ok(tools) => tools,
        Err(e) => {
            return Err(e);
        },
    };
    Ok(
        Config {
            linter,
            formatter,
            cache_size: None,
            careful: init.careful,
            cores: init.cores,
            ignore: Vec::new(),
            mtime: init.mtime,
            ninja: None,
            refs: clone_strings(&init.refs),
            tool: Vec::new(),
            warns: WarnCfg {
                allow: clone_strings(&init.allow),
                warn: clone_strings(&init.warn),
                deny: clone_strings(&init.deny),
            },
        },
    )
}

} // verus!
