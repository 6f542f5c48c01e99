//! What the ninja backend needs of the library: names for its targets and
//! text that ninja reads as it was meant.

use vstd::prelude::*;
use vstd::string::StrSliceExecFns;
use crate::cmd::{Command, Invocation};
use crate::file::{feed, File};
use crate::hash::{xxh3_128, xxh3_128_digest};
use crate::known::opt_view;
use crate::path::{file_name, join, path_file_name, path_joined};
use crate::text::{
    begins, contains_str, find, first_at, has_at, join as join_with, joined_with, lines,
    replace_all, replaced, split_whitespace, str_eq, stripped, text_lines, to_chars, trim_bounds,
    trimmed, views, words,
};

verus! {

/// `s` with the characters escaped that ninja reads in a way of its own:
/// the dollar, the colon, the bar and the line feed each get a dollar put
/// before them, in this order.
pub open spec fn escaped(s: Seq<char>) -> Seq<char> {
    replaced(
        replaced(replaced(replaced(s, "$"@, "$$"@), ":"@, "$:"@), "|"@, "$|"@),
        "\n"@,
        "$\n"@,
    )
}

/// See [`escaped`].
pub fn escape_ninja_string(s: &str) -> (e: String)
    ensures
        e@ == escaped(s@),
{
    proof {
        reveal_strlit("$");
        reveal_strlit(":");
        reveal_strlit("|");
        reveal_strlit("\n");
    }
    let a = replace_all(s, "$", "$$");
    let b = replace_all(a.as_str(), ":", "$:");
    let c = replace_all(b.as_str(), "|", "$|");
    replace_all(c.as_str(), "\n", "$\n")
}

/// The bytes of the first `n` strings, each followed by a zero byte.
pub open spec fn terminated(parts: Seq<Seq<char>>, n: nat) -> Seq<u8>
    decreases n,
{
    if n == 0 {
        Seq::empty()
    } else {
        terminated(parts, (n - 1) as nat) + vstd::utf8::encode_utf8(parts[n - 1]).push(0)
    }
}

/// The paths of some files.
pub open spec fn paths(files: Seq<File>) -> Seq<Seq<char>> {
    Seq::new(files.len(), |i: int| files[i].path@)
}

/// The bytes that the hash of a command is the digest of: the program, its
/// arguments and the paths of its files, each followed by a zero byte.
pub open spec fn cmd_bytes(cmd: Command) -> Seq<u8> {
    let w = crate::text::words(cmd.tool.cmd@);
    vstd::utf8::encode_utf8(w[0]).push(0) + terminated(cmd.spec_args(), cmd.spec_args().len())
        + terminated(paths(cmd.files@), cmd.files@.len())
}

/// The hash by which a command is known to ninja.
pub fn cmd_hash(cmd: &Command) -> (h: u128)
    requires
        cmd.runnable(),
    ensures
        h == xxh3_128_digest(cmd_bytes(*cmd)),
{
    let inv = cmd.to_command();
    let mut hasher: Vec<u8> = Vec::new();
    feed(&mut hasher, inv.program.as_str().as_bytes());
    hasher.push(0);
    let ghost head = hasher@;
    let n: usize = inv.args.len();
    let mut i: usize = 0;
    assert(hasher@ =~= head + terminated(views(inv.args@), 0));
    while i < n
        invariant
            n == inv.args@.len(),
            i <= n,
            hasher@ == head + terminated(views(inv.args@), i as nat),
        decreases n - i,
    {
        feed(&mut hasher, inv.args[i].as_str().as_bytes());
        hasher.push(0);
        assert(views(inv.args@)[i as int] == inv.args@[i as int]@);
        assert(hasher@ =~= head + terminated(views(inv.args@), (i + 1) as nat));
        i += 1;
    }
    let ghost mid = hasher@;
    let m: usize = cmd.files.len();
    let mut j: usize = 0;
    assert(hasher@ =~= mid + terminated(paths(cmd.files@), 0));
    while j < m
        invariant
            m == cmd.files@.len(),
            j <= m,
            hasher@ == mid + terminated(paths(cmd.files@), j as nat),
        decreases m - j,
    {
        feed(&mut hasher, cmd.files[j].path.as_str().as_bytes());
        hasher.push(0);
        assert(hasher@ =~= mid + terminated(paths(cmd.files@), (j + 1) as nat));
        j += 1;
    }
    assert(hasher@ =~= cmd_bytes(*cmd));
    xxh3_128(hasher.as_slice())
}

/// The character of a hexadecimal digit, in lower case.
pub open spec fn hex_char(d: nat) -> char
    recommends
        d < 16,
{
    if d < 10 {
        crate::text::digit_char(d)
    } else if d == 10 {
        'a'
    } else if d == 11 {
        'b'
    } else if d == 12 {
        'c'
    } else if d == 13 {
        'd'
    } else if d == 14 {
        'e'
    } else {
        'f'
    }
}

/// The last `n` hexadecimal digits of a number, zeros where it has fewer.
pub open spec fn spec_hex(h: nat, n: nat) -> Seq<char>
    decreases n,
{
    if n == 0 {
        Seq::empty()
    } else {
        spec_hex(h / 16, (n - 1) as nat).push(hex_char(h % 16))
    }
}

fn hex_digit(d: u128) -> (s: &'static str)
    requires
        d < 16,
    ensures
        s@ == seq![hex_char(d as nat)],
{
    proof {
        reveal_strlit("0");
        reveal_strlit("1");
        reveal_strlit("2");
        reveal_strlit("3");
        reveal_strlit("4");
        reveal_strlit("5");
        reveal_strlit("6");
        reveal_strlit("7");
        reveal_strlit("8");
        reveal_strlit("9");
        reveal_strlit("a");
        reveal_strlit("b");
        reveal_strlit("c");
        reveal_strlit("d");
        reveal_strlit("e");
        reveal_strlit("f");
    }
    let s: &'static str = if d == 0 {
        "0"
    } else if d == 1 {
        "1"
    } else if d == 2 {
        "2"
    } else if d == 3 {
        "3"
    } else if d == 4 {
        "4"
    } else if d == 5 {
        "5"
    } else if d == 6 {
        "6"
    } else if d == 7 {
        "7"
    } else if d == 8 {
        "8"
    } else if d == 9 {
        "9"
    } else if d == 10 {
        "a"
    } else if d == 11 {
        "b"
    } else if d == 12 {
        "c"
    } else if d == 13 {
        "d"
    } else if d == 14 {
        "e"
    } else {
        "f"
    };
    assert(s@ =~= seq![hex_char(d as nat)]);
    s
}

fn hex(h: u128, n: usize) -> (s: String)
    ensures
        s@ == spec_hex(h as nat, n as nat),
    decreases n,
{
    if n == 0 {
        String::new()
    } else {
        let mut s: String = hex(h / 16, n - 1);
        s.append(hex_digit(h % 16));
        assert(s@ =~= spec_hex(h as nat, n as nat));
        s
    }
}

/// The name of the target that stands for a command: `$builddir/` and the
/// 32 hexadecimal digits of its hash.
pub fn tgt_name(cmd: &Command) -> (name: String)
    requires
        cmd.runnable(),
    ensures
        name@ == "$builddir/"@ + spec_hex(xxh3_128_digest(cmd_bytes(*cmd)) as nat, 32),
{
    let hash = cmd_hash(cmd);
    let mut name: String = "$builddir/".to_owned();
    let digits = hex(hash, 32);
    name.append(digits.as_str());
    name
}

/// The strings with a space between each two.
pub open spec fn spaced(parts: Seq<Seq<char>>, n: nat) -> Seq<char>
    decreases n,
{
    if n == 0 {
        Seq::empty()
    } else if n == 1 {
        parts[0]
    } else {
        spaced(parts, (n - 1) as nat) + " "@ + parts[n - 1]
    }
}

/// How a process is described: the program, a space, and the arguments
/// with a space between each two.
pub fn describe(inv: &Invocation) -> (d: String)
    ensures
        d@ == inv.program@ + " "@ + spaced(views(inv.args@), inv.args@.len()),
{
    let mut d: String = inv.program.clone();
    d.append(" ");
    let ghost head = d@;
    let n: usize = inv.args.len();
    let mut i: usize = 0;
    assert(d@ =~= head + spaced(views(inv.args@), 0));
    while i < n
        invariant
            n == inv.args@.len(),
            i <= n,
            d@ == head + spaced(views(inv.args@), i as nat),
        decreases n - i,
    {
        if i > 0 {
            d.append(" ");
        }
        d.append(inv.args[i].as_str());
        assert(views(inv.args@)[i as int] == inv.args@[i as int]@);
        assert(d@ =~= head + spaced(views(inv.args@), (i + 1) as nat));
        i += 1;
    }
    d
}

/// The target that a line of ninja's error output reports as failed, if
/// it reports one under the build directory: the line reads `FAILED: ` and
/// the target, which begins with the build directory, or else with the name
/// of the build directory, in which case it is put under the build
/// directory.
pub open spec fn failed_target(line: Seq<char>, builddir: Seq<char>) -> Option<Seq<char>> {
    match stripped(line, "FAILED: "@) {
        None => None,
        Some(rest) => {
            let target = trimmed(rest);
            if begins(target, builddir) {
                Some(target)
            } else {
                match path_file_name(builddir) {
                    Some(name) if begins(target, name) => {
                        let after = target.subrange(name.len() as int, target.len() as int);
                        let relative = if begins(after, "/"@) {
                            after.subrange(1, after.len() as int)
                        } else {
                            target
                        };
                        Some(path_joined(builddir, relative))
                    },
                    _ => None,
                }
            }
        },
    }
}

fn slice_chars(v: &Vec<char>, from: usize, to: usize) -> (out: Vec<char>)
    requires
        from <= to <= v@.len(),
    ensures
        out@ == v@.subrange(from as int, to as int),
{
    let mut out: Vec<char> = Vec::new();
    let mut i: usize = from;
    while i < to
        invariant
            from <= i <= to <= v@.len(),
            out@ == v@.subrange(from as int, i as int),
        decreases to - i,
    {
        out.push(v[i]);
        assert(out@ =~= v@.subrange(from as int, i + 1));
        i += 1;
    }
    out
}

/// See [`failed_target`].
pub fn extract_target_from_failed_line(line: &str, builddir: &str) -> (target: Option<String>)
    ensures
        opt_view(target) == failed_target(line@, builddir@),
{
    proof {
        reveal_strlit("FAILED: ");
        reveal_strlit("/");
    }
    let cs = to_chars(line);
    let prefix = to_chars("FAILED: ");
    if !has_at(&cs, 0, &prefix) {
        return None;
    }
    let rest = slice_chars(&cs, 8, cs.len());
    let (a, b) = trim_bounds(&rest);
    let target = slice_chars(&rest, a, b);
    assert(target@ == trimmed(stripped(line@, "FAILED: "@)->Some_0));
    assert(target@ =~= line@.subrange(8 + a, 8 + b));
    let text: &str = line.substring_char(8 + a, 8 + b);
    let dir = to_chars(builddir);
    if has_at(&target, 0, &dir) {
        return Some(text.to_owned());
    }
    match file_name(builddir) {
        Some(name) => {
            let nc = to_chars(name.as_str());
            if has_at(&target, 0, &nc) {
                let k: usize = nc.len();
                let slash = to_chars("/");
                let ghost after = target@.subrange(k as int, target@.len() as int);
                let cut: bool = has_at(&target, k, &slash);
                proof {
                    if k + 1 <= target@.len() {
                        assert(after.subrange(0, 1) =~= target@.subrange(k as int, k + 1));
                    }
                    assert(cut == begins(after, "/"@));
                }
                let relative: &str = if cut {
                    assert(after.subrange(1, after.len() as int) =~= text@.subrange(
                        k + 1,
                        text@.len() as int,
                    ));
                    text.substring_char(k + 1, b - a)
                } else {
                    text
                };
                Some(join(builddir, relative))
            } else {
                None
            }
        },
        None => None,
    }
}

/// A description with a single space between each two of its words.
pub open spec fn spec_normalized(s: Seq<char>) -> Seq<char> {
    joined_with(words(s), " "@, words(s).len())
}

/// See [`spec_normalized`].
pub fn normalized(s: &str) -> (n: String)
    ensures
        n@ == spec_normalized(s@),
{
    let parts = split_whitespace(s);
    join_with(&parts, " ")
}

/// Whether what ninja printed of a command describes the command: the two
/// are the same once normalized, or one begins with the other.
pub open spec fn describes(part: Seq<char>, description: Seq<char>) -> bool {
    let p = spec_normalized(part);
    let d = spec_normalized(description);
    p == d || begins(p, d) || begins(d, p)
}

/// See [`describes`].
pub fn same_description(part: &str, description: &str) -> (same: bool)
    ensures
        same == describes(part@, description@),
{
    let p = normalized(part);
    let d = normalized(description);
    if str_eq(p.as_str(), d.as_str()) {
        return true;
    }
    let pc = to_chars(p.as_str());
    let dc = to_chars(d.as_str());
    has_at(&pc, 0, &dc) || has_at(&dc, 0, &pc)
}

/// What a line of ninja's output says is being run, if it says so: the
/// line begins with `[`, and what follows its first `Running `.
pub open spec fn running(line: Seq<char>) -> Option<Seq<char>> {
    if begins(line, "["@) {
        match first_at(line, "Running "@, 0) {
            Some(p) => Some(line.subrange(p + 8, line.len() as int)),
            None => None,
        }
    } else {
        None
    }
}

/// What ninja knows of a command: its description and its target.
pub struct Target {
    pub description: String,
    pub name: String,
}

/// The place of the first of the first `n` commands that `part` describes.
pub open spec fn described(targets: Seq<Target>, part: Seq<char>, n: nat) -> Option<int>
    decreases n,
{
    if n == 0 {
        None
    } else {
        match described(targets, part, (n - 1) as nat) {
            Some(i) => Some(i),
            None => if describes(part, targets[n - 1].description@) {
                Some(n - 1)
            } else {
                None
            },
        }
    }
}

/// `names` with `name` added, unless it is there.
pub open spec fn with(names: Seq<Seq<char>>, name: Seq<char>) -> Seq<Seq<char>> {
    if names.contains(name) {
        names
    } else {
        names.push(name)
    }
}

/// The targets that the first `n` lines of ninja's output say were run,
/// each once, in the order in which they were first run.
pub open spec fn ran(lines: Seq<Seq<char>>, targets: Seq<Target>, n: nat) -> Seq<Seq<char>>
    decreases n,
{
    if n == 0 {
        Seq::empty()
    } else {
        let before = ran(lines, targets, (n - 1) as nat);
        match running(lines[n - 1]) {
            Some(part) => match described(targets, part, targets.len()) {
                Some(i) => with(before, targets[i].name@),
                None => before,
            },
            None => before,
        }
    }
}

/// `names` without the targets that the first `n` lines of ninja's error
/// output report as failed.
pub open spec fn not_failed(
    names: Seq<Seq<char>>,
    lines: Seq<Seq<char>>,
    builddir: Seq<char>,
    n: nat,
) -> Seq<Seq<char>>
    decreases n,
{
    if n == 0 {
        names
    } else {
        let before = not_failed(names, lines, builddir, (n - 1) as nat);
        match failed_target(lines[n - 1], builddir) {
            Some(t) => crate::exec::without(before, t, before.len()),
            None => before,
        }
    }
}

/// The description of a command that names a program.
pub open spec fn description_of(cmd: Command) -> Seq<char> {
    words(cmd.tool.cmd@)[0] + " "@ + spaced(cmd.spec_args(), cmd.spec_args().len())
}

/// The name of the target of a command that names a program.
pub open spec fn target_name(cmd: Command) -> Seq<char> {
    "$builddir/"@ + spec_hex(xxh3_128_digest(cmd_bytes(cmd)) as nat, 32)
}

/// Those of the first `n` commands that name a program.
pub open spec fn runnable_of(batches: Seq<Command>, n: nat) -> Seq<Command>
    decreases n,
{
    if n == 0 {
        Seq::empty()
    } else {
        let before = runnable_of(batches, (n - 1) as nat);
        if batches[n - 1].runnable() {
            before.push(batches[n - 1])
        } else {
            before
        }
    }
}

/// `out` holds what ninja knows of the commands, one for one.
pub open spec fn targets_are(out: Seq<Target>, cmds: Seq<Command>) -> bool {
    &&& out.len() == cmds.len()
    &&& forall|k: int|
        0 <= k < out.len() ==> (#[trigger] out[k]).description@ == description_of(cmds[k])
            && out[k].name@ == target_name(cmds[k])
}

/// What ninja knows of the commands that name a program, in their order.
pub fn targets(batches: &Vec<Command>) -> (out: Vec<Target>)
    ensures
        targets_are(out@, runnable_of(batches@, batches@.len())),
{
    let mut out: Vec<Target> = Vec::new();
    let n: usize = batches.len();
    let mut i: usize = 0;
    while i < n
        invariant
            n == batches@.len(),
            i <= n,
            targets_are(out@, runnable_of(batches@, i as nat)),
        decreases n - i,
    {
        match batches[i].try_to_command() {
            Some(inv) => {
                out.push(Target { description: describe(&inv), name: tgt_name(&batches[i]) });
            },
            None => {},
        }
        i += 1;
    }
    out
}

fn find_described(targets: &Vec<Target>, part: &str) -> (place: Option<usize>)
    ensures
        match place {
            Some(i) => described(targets@, part@, targets@.len()) == Some(i as int) && i
                < targets@.len(),
            None => described(targets@, part@, targets@.len()) is None,
        },
{
    let n: usize = targets.len();
    let mut i: usize = 0;
    while i < n
        invariant
            n == targets@.len(),
            i <= n,
            described(targets@, part@, i as nat) is None,
        decreases n - i,
    {
        if same_description(part, targets[i].description.as_str()) {
            proof {
                lemma_described(targets@, part@, i as int, n as nat);
            }
            return Some(i);
        }
        i += 1;
    }
    None
}

proof fn lemma_described(targets: Seq<Target>, part: Seq<char>, i: int, n: nat)
    requires
        0 <= i < n <= targets.len(),
        described(targets, part, i as nat) is None,
        describes(part, targets[i].description@),
    ensures
        described(targets, part, n) == Some(i),
    decreases n,
{
    if n > i + 1 {
        lemma_described(targets, part, i, (n - 1) as nat);
    }
}

/// The targets that ninja ran and did not report as failed, read from what
/// it printed: a line of its output that begins with `[` names, after
/// `Running `, the command that is run; a line of its error output that
/// begins with `FAILED: ` names a target that failed.
pub fn parse_ninja_output(stdout: &str, stderr: &str, known: &Vec<Target>, builddir: &str) -> (executed:
    Vec<String>)
    ensures
        views(executed@) == not_failed(
            ran(text_lines(stdout@), known@, text_lines(stdout@).len()),
            text_lines(stderr@),
            builddir@,
            text_lines(stderr@).len(),
        ),
{
    proof {
        reveal_strlit("[");
        reveal_strlit("Running ");
    }
    let mut executed: Vec<String> = Vec::new();
    let out_lines = lines(stdout);
    let ghost ol = text_lines(stdout@);
    let open = to_chars("[");
    let marker = to_chars("Running ");
    let n: usize = out_lines.len();
    let mut i: usize = 0;
    assert(views(executed@) =~= ran(ol, known@, 0));
    while i < n
        invariant
            n == out_lines@.len(),
            ol == views(out_lines@),
            open@ == "["@,
            marker@ == "Running "@,
            marker@.len() == 8,
            i <= n,
            views(executed@) == ran(ol, known@, i as nat),
        decreases n - i,
    {
        let line = out_lines[i].as_str();
        assert(ol[i as int] == line@);
        let cs = to_chars(line);
        if has_at(&cs, 0, &open) {
            if let Some(p) = find(&cs, &marker) {
                let len: usize = cs.len();
                assert(p + 8 <= len);
                let part: &str = line.substring_char(p + 8, len);
                if let Some(k) = find_described(known, part) {
                    let name = &known[k].name;
                    let ghost before = views(executed@);
                    if !contains_str(&executed, name.as_str()) {
                        executed.push(name.clone());
                        assert(views(executed@) =~= before.push(name@));
                    }
                }
            }
        }
        i += 1;
    }
    let err_lines = lines(stderr);
    let ghost el = text_lines(stderr@);
    let ghost all = views(executed@);
    let m: usize = err_lines.len();
    let mut j: usize = 0;
    while j < m
        invariant
            m == err_lines@.len(),
            el == views(err_lines@),
            j <= m,
            views(executed@) == not_failed(all, el, builddir@, j as nat),
        decreases m - j,
    {
        let line = err_lines[j].as_str();
        assert(el[j as int] == line@);
        if let Some(target) = extract_target_from_failed_line(line, builddir) {
            let mut kept: Vec<String> = Vec::new();
            let ghost before = views(executed@);
            let e: usize = executed.len();
            let mut k: usize = 0;
            assert(views(kept@) =~= crate::exec::without(before, target@, 0));
            while k < e
                invariant
                    e == executed@.len(),
                    before == views(executed@),
                    k <= e,
                    views(kept@) == crate::exec::without(before, target@, k as nat),
                decreases e - k,
            {
                let ghost sofar = views(kept@);
                assert(before[k as int] == executed@[k as int]@);
                if !str_eq(executed[k].as_str(), target.as_str()) {
                    kept.push(executed[k].clone());
                    assert(views(kept@) =~= sofar.push(executed@[k as int]@));
                }
                k += 1;
            }
            executed = kept;
        }
        j += 1;
    }
    executed
}

/// Whether an argument has to be quoted for ninja: whether it holds a
/// space, a dollar or a colon.
pub open spec fn needs_quotes(arg: Seq<char>) -> bool {
    arg.contains(' ') || arg.contains('$') || arg.contains(':')
}

/// An argument as it stands in a command of the build file: escaped, and in
/// double quotes, with the double quotes in it escaped, where it has to be
/// quoted.
pub open spec fn quoted(arg: Seq<char>) -> Seq<char> {
    if needs_quotes(arg) {
        "\""@ + replaced(escaped(arg), "\""@, "\\\""@) + "\""@
    } else {
        escaped(arg)
    }
}

/// The first `n` arguments as they stand in a command of the build file.
pub open spec fn quoted_all(args: Seq<Seq<char>>, n: nat) -> Seq<Seq<char>>
    decreases n,
{
    if n == 0 {
        Seq::empty()
    } else {
        quoted_all(args, (n - 1) as nat).push(quoted(args[n - 1]))
    }
}

/// The command of a batch as it stands in the build file: the program and
/// the arguments, each escaped and quoted where need be, with a space
/// between each two, and the whole escaped once more.
pub open spec fn build_command(cmd: Command) -> Seq<char> {
    let parts = seq![escaped(words(cmd.tool.cmd@)[0])] + quoted_all(
        cmd.spec_args(),
        cmd.spec_args().len(),
    );
    escaped(joined_with(parts, " "@, parts.len()))
}

/// What the build file says of one batch.
pub open spec fn build_statement(cmd: Command) -> Seq<char> {
    "build "@ + target_name(cmd) + ": run\n  cmd = "@ + build_command(cmd) + "\n  desc = "@
        + escaped(description_of(cmd)) + "\n\n"@
}

/// What the build file says of the first `n` batches: a build statement for
/// each that names a program.
pub open spec fn build_statements(batches: Seq<Command>, n: nat) -> Seq<char>
    decreases n,
{
    if n == 0 {
        Seq::empty()
    } else if batches[n - 1].runnable() {
        build_statements(batches, (n - 1) as nat) + build_statement(batches[n - 1])
    } else {
        build_statements(batches, (n - 1) as nat)
    }
}

/// The build file for ninja: the build directory, the one rule, which runs
/// a command and touches its target, and a build statement for each batch
/// that names a program.
pub open spec fn build_file(builddir: Seq<char>, batches: Seq<Command>) -> Seq<char> {
    "builddir="@ + builddir
        + "\n\nrule run\n  command = $cmd && touch $out\n  description = Running $desc\n\n"@
        + build_statements(batches, batches.len())
}

fn holds(arg: &Vec<char>, c: char) -> (found: bool)
    ensures
        found == arg@.contains(c),
{
    let n: usize = arg.len();
    let mut i: usize = 0;
    while i < n
        invariant
            n == arg@.len(),
            i <= n,
            forall|j: int| 0 <= j < i ==> arg@[j] != c,
        decreases n - i,
    {
        if arg[i] == c {
            return true;
        }
        i += 1;
    }
    false
}

fn quote(arg: &str) -> (q: String)
    ensures
        q@ == quoted(arg@),
{
    proof {
        reveal_strlit("\"");
    }
    let cs = to_chars(arg);
    if holds(&cs, ' ') || holds(&cs, '$') || holds(&cs, ':') {
        let inner = replace_all(escape_ninja_string(arg).as_str(), "\"", "\\\"");
        let mut q: String = "\"".to_owned();
        q.append(inner.as_str());
        q.append("\"");
        q
    } else {
        escape_ninja_string(arg)
    }
}

fn command_line(cmd: &Command, inv: &Invocation) -> (line: String)
    requires
        cmd.runnable(),
        inv.program@ == words(cmd.tool.cmd@)[0],
        views(inv.args@) == cmd.spec_args(),
    ensures
        line@ == build_command(*cmd),
{
    let mut parts: Vec<String> = Vec::new();
    parts.push(escape_ninja_string(inv.program.as_str()));
    let ghost first = views(parts@);
    assert(first =~= seq![escaped(words(cmd.tool.cmd@)[0])]);
    let m: usize = inv.args.len();
    let mut j: usize = 0;
    assert(views(parts@) =~= first + quoted_all(views(inv.args@), 0));
    while j < m
        invariant
            m == inv.args@.len(),
            j <= m,
            views(parts@) == first + quoted_all(views(inv.args@), j as nat),
        decreases m - j,
    {
        let ghost before = views(parts@);
        parts.push(quote(inv.args[j].as_str()));
        assert(views(inv.args@)[j as int] == inv.args@[j as int]@);
        assert(views(parts@) =~= before.push(quoted(inv.args@[j as int]@)));
        j += 1;
    }
    let cmd_str = join_with(&parts, " ");
    escape_ninja_string(cmd_str.as_str())
}

fn statement(cmd: &Command, inv: &Invocation) -> (text: String)
    requires
        cmd.runnable(),
        inv.program@ == words(cmd.tool.cmd@)[0],
        views(inv.args@) == cmd.spec_args(),
    ensures
        text@ == build_statement(*cmd),
{
    let mut text: String = "build ".to_owned();
    text.append(tgt_name(cmd).as_str());
    text.append(": run\n  cmd = ");
    text.append(command_line(cmd, inv).as_str());
    text.append("\n  desc = ");
    text.append(escape_ninja_string(describe(inv).as_str()).as_str());
    text.append("\n\n");
    text
}

/// See [`build_file`].
pub fn generate_ninja_file(builddir: &str, batches: &Vec<Command>) -> (content: String)
    ensures
        content@ == build_file(builddir@, batches@),
{
    let mut content: String = "builddir=".to_owned();
    content.append(builddir);
    content.append("\n\nrule run\n  command = $cmd && touch $out\n  description = Running $desc\n\n");
    let ghost head = content@;
    let n: usize = batches.len();
    let mut i: usize = 0;
    assert(content@ =~= head + build_statements(batches@, 0));
    while i < n
        invariant
            n == batches@.len(),
            i <= n,
            content@ == head + build_statements(batches@, i as nat),
        decreases n - i,
    {
        let cmd = &batches[i];
        let ghost sofar = content@;
        if let Some(inv) = cmd.try_to_command() {
            let text = statement(cmd, &inv);
            content.append(text.as_str());
            assert(content@ =~= head + (build_statements(batches@, i as nat) + build_statement(
                *cmd,
            )));
        }
        i += 1;
    }
    content
}

/// Adding a name unless it is there keeps each name once.
pub proof fn lemma_with_keeps_once(names: Seq<Seq<char>>, name: Seq<char>)
    requires
        names.no_duplicates(),
    ensures
        with(names, name).no_duplicates(),
{
    if !names.contains(name) {
        let now = names.push(name);
        assert forall|x: int, y: int| 0 <= x < y < now.len() implies now[x] != now[y] by {
            if y == names.len() {
                assert(names.contains(now[x]));
            }
        }
    }
}

/// The targets that were run are listed once each, and so are those of
/// them that did not fail.
pub proof fn lemma_executed_once(
    stdout: Seq<Seq<char>>,
    stderr: Seq<Seq<char>>,
    targets: Seq<Target>,
    builddir: Seq<char>,
    n: nat,
    k: nat,
)
    ensures
        ran(stdout, targets, n).no_duplicates(),
        not_failed(ran(stdout, targets, n), stderr, builddir, k).no_duplicates(),
    decreases n + k,
{
    if k > 0 {
        lemma_executed_once(stdout, stderr, targets, builddir, n, (k - 1) as nat);
        let before = not_failed(ran(stdout, targets, n), stderr, builddir, (k - 1) as nat);
        if let Some(t) = failed_target(stderr[k - 1], builddir) {
            crate::exec::lemma_without_keeps_once(before, t, before.len());
        }
    } else if n > 0 {
        lemma_executed_once(stdout, stderr, targets, builddir, (n - 1) as nat, 0);
        let before = ran(stdout, targets, (n - 1) as nat);
        if let Some(part) = running(stdout[n - 1]) {
            if let Some(i) = described(targets, part, targets.len()) {
                lemma_with_keeps_once(before, targets[i].name@);
            }
        }
    }
}

} // verus!
