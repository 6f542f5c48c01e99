//! A command: one tool and the files it is to run on.

use vstd::prelude::*;
use std::sync::Arc;
use crate::file::File;
use crate::known::opt_view;
use crate::path::{path_stripped, strip_prefix};
use crate::text::{clone_opt, split_whitespace, views, words};
use crate::tool::Tool;

verus! {

/// One invocation of a tool on some files, planned or ready to run.
pub struct Command {
    pub tool: Arc<Tool>,
    pub files: Vec<File>,
}

/// The files of several commands, one command after the other.
pub open spec fn all_files(cmds: Seq<Command>) -> Seq<File>
    decreases cmds.len(),
{
    if cmds.len() == 0 {
        Seq::empty()
    } else {
        all_files(cmds.drop_last()) + cmds.last().files@
    }
}

/// The sum of the sizes of some files.
pub open spec fn total_size(files: Seq<File>) -> nat
    decreases files.len(),
{
    if files.len() == 0 {
        0
    } else {
        total_size(files.drop_last()) + files.last().size as nat
    }
}

/// The size of the largest of some files; 0 where there is none.
pub open spec fn max_size(files: Seq<File>) -> nat
    decreases files.len(),
{
    if files.len() == 0 {
        0
    } else {
        let rest = max_size(files.drop_last());
        if files.last().size as nat > rest {
            files.last().size as nat
        } else {
            rest
        }
    }
}

/// No file is larger than the largest.
pub proof fn lemma_max_size_bounds(files: Seq<File>, i: int)
    requires
        0 <= i < files.len(),
    ensures
        files[i].size <= max_size(files),
    decreases files.len(),
{
    if i < files.len() - 1 {
        lemma_max_size_bounds(files.drop_last(), i);
    }
}

/// Taking one file out lowers the total by its size.
pub proof fn lemma_total_size_remove(files: Seq<File>, i: int)
    requires
        0 <= i < files.len(),
    ensures
        total_size(files) == total_size(files.remove(i)) + files[i].size,
    decreases files.len(),
{
    if i == files.len() - 1 {
        assert(files.remove(i) =~= files.drop_last());
    } else {
        lemma_total_size_remove(files.drop_last(), i);
        assert(files.remove(i).drop_last() =~= files.drop_last().remove(i));
        assert(files.remove(i).last() == files.last());
    }
}

/// The total size of some files does not depend on their order.
pub proof fn lemma_total_size_permutation(a: Seq<File>, b: Seq<File>)
    requires
        a.to_multiset() == b.to_multiset(),
    ensures
        total_size(a) == total_size(b),
    decreases a.len(),
{
    broadcast use vstd::seq_lib::group_to_multiset_ensures;

    vstd::seq_lib::to_multiset_len(a);
    vstd::seq_lib::to_multiset_len(b);
    if a.len() > 0 {
        let x = a.last();
        assert(a.contains(x));
        vstd::seq_lib::to_multiset_contains(a, x);
        vstd::seq_lib::to_multiset_contains(b, x);
        let j = choose|j: int| 0 <= j < b.len() && b[j] == x;
        vstd::seq_lib::to_multiset_remove(b, j);
        vstd::seq_lib::to_multiset_remove(a, a.len() - 1);
        assert(a.remove(a.len() - 1) =~= a.drop_last());
        lemma_total_size_permutation(a.drop_last(), b.remove(j));
        lemma_total_size_remove(b, j);
    }
}

/// A process to start: the program, its arguments, and the directory to
/// start it in, if it is not the current one.
#[derive(Debug)]
pub struct Invocation {
    pub program: String,
    pub args: Vec<String>,
    pub cd: Option<String>,
}

/// The argument that names a file to a tool: the path as seen from the
/// tool's working directory, where it lies in it, else the path as it is.
pub open spec fn file_arg(cd: Option<Seq<char>>, path: Seq<char>) -> Seq<char> {
    match cd {
        Some(dir) => match path_stripped(path, dir) {
            Some(rest) => rest,
            None => path,
        },
        None => path,
    }
}

/// The arguments that name the first `n` files.
pub open spec fn file_args(cd: Option<Seq<char>>, files: Seq<File>, n: nat) -> Seq<Seq<char>>
    decreases n,
{
    if n == 0 {
        Seq::empty()
    } else {
        file_args(cd, files, (n - 1) as nat).push(file_arg(cd, files[n - 1].path@))
    }
}

impl Command {
    /// Whether the command names a program: whether its command line has a
    /// word.
    pub open spec fn runnable(&self) -> bool {
        words(self.tool.cmd@).len() > 0
    }

    /// The arguments of the process: the words of the command line after
    /// the first, then the files, in their order.
    pub open spec fn spec_args(&self) -> Seq<Seq<char>> {
        let w = words(self.tool.cmd@);
        w.subrange(1, w.len() as int) + file_args(
            opt_view(self.tool.cd),
            self.files@,
            self.files@.len(),
        )
    }

    /// The process to start for this command.
    pub fn to_command(&self) -> (inv: Invocation)
        requires
            self.runnable(),
        ensures
            inv.program@ == words(self.tool.cmd@)[0],
            views(inv.args@) == self.spec_args(),
            inv.cd == self.tool.cd,
    {
        let mut parts = split_whitespace(self.tool.cmd.as_str());
        let ghost w = words(self.tool.cmd@);
        let program: String = parts.remove(0);
        assert(views(parts@) =~= w.subrange(1, w.len() as int));
        let mut args = parts;
        let ghost own = views(args@);
        let n: usize = self.files.len();
        let mut i: usize = 0;
        assert(views(args@) =~= own + file_args(opt_view(self.tool.cd), self.files@, 0));
        while i < n
            invariant
                n == self.files@.len(),
                i <= n,
                views(args@) == own + file_args(opt_view(self.tool.cd), self.files@, i as nat),
            decreases n - i,
        {
            let f = &self.files[i];
            let arg: String = match &self.tool.cd {
                Some(dir) => match strip_prefix(f.path.as_str(), dir.as_str()) {
                    Some(rest) => rest,
                    None => f.path.clone(),
                },
                None => f.path.clone(),
            };
            let ghost before = views(args@);
            args.push(arg);
            assert(views(args@) =~= before.push(file_arg(opt_view(self.tool.cd), f.path@)));
            i += 1;
        }
        Invocation { program, args, cd: clone_opt(&self.tool.cd) }
    }

    /// The process to start for this command, if its command line names a
    /// program.
    pub fn try_to_command(&self) -> (inv: Option<Invocation>)
        ensures
            inv is Some == self.runnable(),
            inv matches Some(i) ==> i.program@ == words(self.tool.cmd@)[0] && views(i.args@)
                == self.spec_args() && i.cd == self.tool.cd,
    {
        let parts = split_whitespace(self.tool.cmd.as_str());
        if parts.len() == 0 {
            None
        } else {
            Some(self.to_command())
        }
    }
}

} // verus!
