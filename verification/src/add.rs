//! Adding a known tool to a configuration.

use vstd::prelude::*;
use crate::cli::Add;
use crate::config::{Formatter, Linter, Tool};
use crate::known::{
    known_formatter_by_name, known_linter_by_name, opt_view, spec_known_formatter,
    spec_known_linter, Known,
};
use crate::text::views;

verus! {

/// The tool to add.
#[derive(Debug)]
pub enum Added {
    Linter(Linter),
    Formatter(Formatter),
}

/// Why no tool is added.
#[derive(Debug)]
pub enum AddError {
    /// No linter of that name is known.
    UnknownLinter { name: String },
    /// No formatter of that name is known.
    UnknownFormatter { name: String },
}

/// Whether the tool to add is a formatter: as the options say, or, where
/// they are silent, whether a formatter of that name is known.
pub open spec fn adds_formatter(options: Add) -> bool {
    match options.formatter {
        Some(f) => f,
        None => spec_known_formatter(options.tool@) is Some,
    }
}

/// The tool is the known one with the options laid over it: the name, the
/// command, the one file pattern and the one configuration file replace
/// what is known, where the options give them.
pub open spec fn tool_added(tool: Tool, known: Known, options: Add) -> bool {
    &&& opt_view(tool.name) == match options.name {
        Some(n) => Some(n@),
        None => known.name,
    }
    &&& tool.cmd@ == match options.cmd {
        Some(c) => c@,
        None => known.cmd,
    }
    &&& views(tool.files@) == match options.files {
        Some(f) => seq![f@],
        None => known.files,
    }
    &&& tool.ignore@.len() == 0
    &&& tool.granularity == known.granularity
    &&& views(tool.configs@) == match options.config {
        Some(c) => seq![c@],
        None => known.configs,
    }
    &&& tool.cd is None
}

fn lay_over(tool: &mut Tool, options: &Add, Ghost(known): Ghost<Known>)
    requires
        crate::known::tool_is(*old(tool), known),
    ensures
        tool_added(*final(tool), known, *options),
{
    if let Some(name) = &options.name {
        tool.name = Some(name.clone());
    }
    if let Some(cmd) = &options.cmd {
        tool.cmd = cmd.clone();
    }
    if let Some(files) = &options.files {
        let mut one: Vec<String> = Vec::new();
        one.push(files.clone());
        assert(views(one@) =~= seq![files@]);
        tool.files = one;
    }
    if let Some(config_path) = &options.config {
        let mut one: Vec<String> = Vec::new();
        one.push(config_path.clone());
        assert(views(one@) =~= seq![config_path@]);
        tool.configs = one;
    }
}

/// The tool that the options of `add` ask for: the known formatter or
/// linter of that name, with the options laid over it. A `check` command
/// in the options replaces that of a formatter.
pub fn gen_tool(options: &Add) -> (r: Result<Added, AddError>)
    ensures
        adds_formatter(*options) ==> match spec_known_formatter(options.tool@) {
            Some(known) => r matches Ok(Added::Formatter(f)) && tool_added(
                f.tool,
                known,
                *options,
            ) && opt_view(f.check) == match options.check {
                Some(c) => Some(c@),
                None => known.alt,
            },
            None => r matches Err(AddError::UnknownFormatter { name }) && name@ == options.tool@,
        },
        !adds_formatter(*options) ==> match spec_known_linter(options.tool@) {
            Some(known) => r matches Ok(Added::Linter(l)) && tool_added(l.tool, known, *options)
                && opt_view(l.fix) == known.alt,
            None => r matches Err(AddError::UnknownLinter { name }) && name@ == options.tool@,
        },
{
    let is_formatter: bool = match options.formatter {
        Some(formatter) => formatter,
        None => known_formatter_by_name(options.tool.as_str()).is_some(),
    };
    if is_formatter {
        let mut formatter = match known_formatter_by_name(options.tool.as_str()) {
            Some(f) => f,
            None => {
                return Err(AddError::UnknownFormatter { name: options.tool.clone() });
            },
        };
        lay_over(&mut formatter.tool, options, Ghost(spec_known_formatter(options.tool@)->Some_0));
        if let Some(check) = &options.check {
            formatter.check = Some(check.clone());
        }
        Ok(Added::Formatter(formatter))
    } else {
        let mut linter = match known_linter_by_name(options.tool.as_str()) {
            Some(l) => l,
            None => {
                return Err(AddError::UnknownLinter { name: options.tool.clone() });
            },
        };
        lay_over(&mut linter.tool, options, Ghost(spec_known_linter(options.tool@)->Some_0));
        Ok(Added::Linter(linter))
    }
}

} // verus!
