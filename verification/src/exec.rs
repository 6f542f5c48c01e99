//! The bookkeeping of the executor.
//!
//! Running processes on a pool of threads is the caller's part. Decided
//! here: whether a batch may still start, which hashes a batch that
//! succeeded has earned, what is recorded once all batches are through, and
//! what the progress line shows.

use vstd::prelude::*;
use crate::cache::{content_key, key_hash, mtime_key, CacheWriter, Key, KeyHash};
use crate::cmd::Command;
use crate::file::File;
use crate::known::opt_view;
use crate::plan::record;
use crate::text::{decimal, spec_decimal, str_eq, views};
use crate::tool::Tool;
use vstd::string::StrSliceExecFns;

verus! {

/// How progress is shown.
#[derive(Clone, Copy, Debug, PartialEq, Eq, Structural)]
pub enum ProgressFormat {
    /// Not at all.
    No,
    /// On one line, rewritten in place.
    Yes,
    /// One line per update.
    Newline,
}

/// How a batch ended.
#[derive(Clone, Copy, Debug, PartialEq, Eq, Structural)]
pub enum Outcome {
    /// It was not started, because an earlier batch had failed.
    NotRun,
    /// Its process ended with a status other than success.
    Failed,
    /// Its process ended with success.
    Succeeded,
}

/// The number of worker threads: one per batch, but no more than cores.
pub fn num_threads(cores: usize, n_batches: usize) -> (n: usize)
    ensures
        n == if cores <= n_batches {
            cores
        } else {
            n_batches
        },
{
    if cores <= n_batches {
        cores
    } else {
        n_batches
    }
}

/// Whether a batch may start: always when told to keep going, else only
/// while no batch has failed.
pub fn should_start(keep_going: bool, any_failed: bool) -> (start: bool)
    ensures
        start == (keep_going || !any_failed),
{
    keep_going || !any_failed
}

/// Whether a batch counts as done without being run: its command has a
/// single argument, and that argument is a path that is there no more.
pub fn vanished(n_args: usize, first_arg_exists: bool) -> (skip: bool)
    ensures
        skip == (n_args == 1 && !first_arg_exists),
{
    n_args == 1 && !first_arg_exists
}

/// The hashes that the first `n` files of a batch earn under `tool`: for
/// each file its content key, then, where modification times are enabled,
/// its modification-time key.
pub open spec fn earned(tool: Tool, files: Seq<File>, mtime_enabled: bool, n: nat) -> Seq<u128>
    decreases n,
{
    if n == 0 {
        Seq::empty()
    } else {
        let f = files[n - 1];
        let before = earned(tool, files, mtime_enabled, (n - 1) as nat);
        let with_content = before.push(key_hash(content_key(f, tool)));
        if mtime_enabled {
            with_content.push(key_hash(mtime_key(f, tool)))
        } else {
            with_content
        }
    }
}

/// The hashes that a batch earns when it succeeds.
pub open spec fn batch_hashes(cmd: Command, mtime_enabled: bool) -> Seq<u128> {
    earned(*cmd.tool, cmd.files@, mtime_enabled, cmd.files@.len())
}

/// The values behind some key hashes.
pub open spec fn hash_values(hashes: Seq<KeyHash>) -> Seq<u128> {
    Seq::new(hashes.len(), |i: int| hashes[i].0.0)
}

/// The hashes to record for a batch that succeeded.
pub fn done(cmd: &Command, mtime_enabled: bool) -> (hashes: Vec<KeyHash>)
    ensures
        hash_values(hashes@) == batch_hashes(*cmd, mtime_enabled),
{
    let mut hashes: Vec<KeyHash> = Vec::new();
    let n: usize = cmd.files.len();
    let mut i: usize = 0;
    assert(hash_values(hashes@) =~= earned(*cmd.tool, cmd.files@, mtime_enabled, 0));
    while i < n
        invariant
            n == cmd.files@.len(),
            i <= n,
            hash_values(hashes@) == earned(*cmd.tool, cmd.files@, mtime_enabled, i as nat),
        decreases n - i,
    {
        let file = &cmd.files[i];
        let ghost before = hash_values(hashes@);
        let content_key = Key::from_content(file, &cmd.tool);
        hashes.push(KeyHash::from(&content_key));
        assert(hash_values(hashes@) =~= before.push(key_hash(content_key)));
        if mtime_enabled {
            let ghost mid = hash_values(hashes@);
            let mtime_key = Key::from_mtime(file, &cmd.tool);
            hashes.push(KeyHash::from(&mtime_key));
            assert(hash_values(hashes@) =~= mid.push(key_hash(mtime_key)));
        }
        i += 1;
    }
    hashes
}

/// The records after each of the first `n` hashes was recorded.
pub open spec fn record_all(m: Map<u128, u16>, keeps: bool, hashes: Seq<u128>, n: nat) -> Map<
    u128,
    u16,
>
    decreases n,
{
    if n == 0 {
        m
    } else {
        record(record_all(m, keeps, hashes, (n - 1) as nat), keeps, hashes[n - 1])
    }
}

/// How the `i`-th batch ended; a batch for which nothing is said was not run.
pub open spec fn outcome_at(outcomes: Seq<Outcome>, i: int) -> Outcome {
    if 0 <= i < outcomes.len() {
        outcomes[i]
    } else {
        Outcome::NotRun
    }
}

/// The records after the first `n` batches were accounted for: the hashes of
/// each batch that succeeded are recorded, and nothing of any other batch.
pub open spec fn records_after(
    m: Map<u128, u16>,
    keeps: bool,
    batches: Seq<Command>,
    outcomes: Seq<Outcome>,
    mtime_enabled: bool,
    n: nat,
) -> Map<u128, u16>
    decreases n,
{
    if n == 0 {
        m
    } else {
        let before = records_after(m, keeps, batches, outcomes, mtime_enabled, (n - 1) as nat);
        if outcome_at(outcomes, n - 1) == Outcome::Succeeded {
            let hashes = batch_hashes(batches[n - 1], mtime_enabled);
            record_all(before, keeps, hashes, hashes.len())
        } else {
            before
        }
    }
}

/// Whether each of the first `n` batches succeeded.
pub open spec fn all_succeeded(outcomes: Seq<Outcome>, n: nat) -> bool {
    forall|i: int| 0 <= i < n ==> outcome_at(outcomes, i) == Outcome::Succeeded
}

/// Records each hash in turn.
pub fn record_hashes<W: CacheWriter>(cache_writer: &mut W, hashes: &Vec<KeyHash>)
    ensures
        final(cache_writer).keeps() == old(cache_writer).keeps(),
        final(cache_writer).capacity() == old(cache_writer).capacity(),
        final(cache_writer).records() == record_all(
            old(cache_writer).records(),
            old(cache_writer).keeps(),
            hash_values(hashes@),
            hashes@.len(),
        ),
{
    let n: usize = hashes.len();
    let mut i: usize = 0;
    while i < n
        invariant
            n == hashes@.len(),
            i <= n,
            cache_writer.keeps() == old(cache_writer).keeps(),
            cache_writer.capacity() == old(cache_writer).capacity(),
            cache_writer.records() == record_all(
                old(cache_writer).records(),
                old(cache_writer).keeps(),
                hash_values(hashes@),
                i as nat,
            ),
        decreases n - i,
    {
        cache_writer.done_hash(hashes[i]);
        i += 1;
    }
}

/// Accounts for the batches once all are through: records the hashes of
/// every batch that succeeded, and of no other, and says whether all
/// succeeded. `outcomes` tells for each batch in turn how it ended.
pub fn exec<W: CacheWriter>(
    cache_writer: &mut W,
    batches: &Vec<Command>,
    outcomes: &Vec<Outcome>,
    mtime_enabled: bool,
) -> (ok: bool)
    ensures
        final(cache_writer).keeps() == old(cache_writer).keeps(),
        final(cache_writer).capacity() == old(cache_writer).capacity(),
        ok == all_succeeded(outcomes@, batches@.len()),
        final(cache_writer).records() == records_after(
            old(cache_writer).records(),
            old(cache_writer).keeps(),
            batches@,
            outcomes@,
            mtime_enabled,
            batches@.len(),
        ),
{
    let mut ok: bool = true;
    let n: usize = batches.len();
    let mut i: usize = 0;
    while i < n
        invariant
            n == batches@.len(),
            i <= n,
            cache_writer.keeps() == old(cache_writer).keeps(),
            cache_writer.capacity() == old(cache_writer).capacity(),
            ok == all_succeeded(outcomes@, i as nat),
            cache_writer.records() == records_after(
                old(cache_writer).records(),
                old(cache_writer).keeps(),
                batches@,
                outcomes@,
                mtime_enabled,
                i as nat,
            ),
        decreases n - i,
    {
        let outcome: Outcome = if i < outcomes.len() {
            outcomes[i]
        } else {
            Outcome::NotRun
        };
        match outcome {
            Outcome::Succeeded => {
                let hashes = done(&batches[i], mtime_enabled);
                record_hashes(cache_writer, &hashes);
                assert(hashes@.len() == batch_hashes(batches@[i as int], mtime_enabled).len());
            },
            _ => {
                ok = false;
                assert(outcome_at(outcomes@, i as int) != Outcome::Succeeded);
            },
        }
        i += 1;
    }
    ok
}

/// Recording hashes forgets none, and adds none but those recorded.
pub proof fn lemma_record_all(m: Map<u128, u16>, keeps: bool, hashes: Seq<u128>, n: nat)
    requires
        n <= hashes.len(),
    ensures
        m.dom().subset_of(record_all(m, keeps, hashes, n).dom()),
        forall|h: u128|
            record_all(m, keeps, hashes, n).contains_key(h) && !m.contains_key(h) ==> keeps
                && exists|j: int| 0 <= j < n && hashes[j] == h,
        keeps ==> forall|j: int|
            0 <= j < n ==> record_all(m, keeps, hashes, n).contains_key(#[trigger] hashes[j]),
    decreases n,
{
    if n > 0 {
        lemma_record_all(m, keeps, hashes, (n - 1) as nat);
        let before = record_all(m, keeps, hashes, (n - 1) as nat);
        let after = record_all(m, keeps, hashes, n);
        assert forall|h: u128| after.contains_key(h) && !m.contains_key(h) implies keeps
            && exists|j: int| 0 <= j < n && hashes[j] == h by {
            if before.contains_key(h) {
                let j = choose|j: int| 0 <= j < n - 1 && hashes[j] == h;
                assert(0 <= j < n && hashes[j] == h);
            } else {
                assert(hashes[n - 1] == h);
            }
        }
    }
}

/// Accounting for the batches forgets no hash, and every hash that is new
/// afterwards was earned by a batch that succeeded: a batch that failed or
/// was not run adds nothing.
pub proof fn lemma_only_success_is_recorded(
    m: Map<u128, u16>,
    keeps: bool,
    batches: Seq<Command>,
    outcomes: Seq<Outcome>,
    mtime_enabled: bool,
    n: nat,
)
    requires
        n <= batches.len(),
    ensures
        m.dom().subset_of(
            records_after(m, keeps, batches, outcomes, mtime_enabled, n).dom(),
        ),
        forall|h: u128|
            records_after(m, keeps, batches, outcomes, mtime_enabled, n).contains_key(h)
                && !m.contains_key(h) ==> exists|i: int|
                0 <= i < n && outcome_at(outcomes, i) == Outcome::Succeeded && (
                #[trigger] batch_hashes(batches[i], mtime_enabled)).contains(h),
    decreases n,
{
    if n > 0 {
        let k = (n - 1) as nat;
        lemma_only_success_is_recorded(m, keeps, batches, outcomes, mtime_enabled, k);
        let before = records_after(m, keeps, batches, outcomes, mtime_enabled, k);
        let after = records_after(m, keeps, batches, outcomes, mtime_enabled, n);
        let hashes = batch_hashes(batches[k as int], mtime_enabled);
        if outcome_at(outcomes, k as int) == Outcome::Succeeded {
            lemma_record_all(before, keeps, hashes, hashes.len());
        }
        assert forall|h: u128| after.contains_key(h) && !m.contains_key(h) implies exists|i: int|
            0 <= i < n && outcome_at(outcomes, i) == Outcome::Succeeded && (
            #[trigger] batch_hashes(batches[i], mtime_enabled)).contains(h) by {
            if before.contains_key(h) {
                let i = choose|i: int|
                    0 <= i < k && outcome_at(outcomes, i) == Outcome::Succeeded && (
                    #[trigger] batch_hashes(batches[i], mtime_enabled)).contains(h);
                assert(0 <= i < n);
            } else {
                let j = choose|j: int| 0 <= j < hashes.len() && hashes[j] == h;
                assert(hashes.contains(h));
                assert(batch_hashes(batches[k as int], mtime_enabled).contains(h));
            }
        }
    }
}

/// Where no batch succeeded, accounting for the batches leaves the records
/// as they were.
pub proof fn lemma_failure_records_nothing(
    m: Map<u128, u16>,
    keeps: bool,
    batches: Seq<Command>,
    outcomes: Seq<Outcome>,
    mtime_enabled: bool,
    n: nat,
)
    requires
        forall|i: int| 0 <= i < n ==> outcome_at(outcomes, i) != Outcome::Succeeded,
    ensures
        records_after(m, keeps, batches, outcomes, mtime_enabled, n) == m,
    decreases n,
{
    if n > 0 {
        lemma_failure_records_nothing(m, keeps, batches, outcomes, mtime_enabled, (n - 1) as nat);
    }
}

/// A batch is recorded as a whole: in a cache that keeps its records, every
/// hash that a batch earned by succeeding is there once the batches are
/// accounted for.
pub proof fn lemma_success_is_recorded(
    m: Map<u128, u16>,
    batches: Seq<Command>,
    outcomes: Seq<Outcome>,
    mtime_enabled: bool,
    n: nat,
    i: int,
    h: u128,
)
    requires
        n <= batches.len(),
        0 <= i < n,
        outcome_at(outcomes, i) == Outcome::Succeeded,
        batch_hashes(batches[i], mtime_enabled).contains(h),
    ensures
        records_after(m, true, batches, outcomes, mtime_enabled, n).contains_key(h),
    decreases n,
{
    let k = (n - 1) as nat;
    let before = records_after(m, true, batches, outcomes, mtime_enabled, k);
    let hashes = batch_hashes(batches[k as int], mtime_enabled);
    if outcome_at(outcomes, k as int) == Outcome::Succeeded {
        lemma_record_all(before, true, hashes, hashes.len());
    }
    if i < k {
        lemma_success_is_recorded(m, batches, outcomes, mtime_enabled, k, i, h);
    } else {
        let j = choose|j: int| 0 <= j < hashes.len() && hashes[j] == h;
        assert(record_all(before, true, hashes, hashes.len()).contains_key(hashes[j]));
    }
}

/// What a worker tells the reporter.
#[derive(Debug)]
pub enum ReporterEvent {
    /// A command was started.
    Start { cmd: String },
    /// A command ended.
    Done { cmd: String },
}

/// What the progress line is to show: the number of the command that is
/// being waited for, the number of commands, and a command that is running,
/// empty where none is.
#[derive(Debug)]
pub struct Report {
    pub position: usize,
    pub total: usize,
    pub cmd: String,
}

/// What the reporter knows: the commands that are running, each once, how
/// many have ended, and the command that the progress line shows.
#[derive(Debug)]
pub struct Reporter {
    pub running: Vec<String>,
    pub completed: usize,
    pub current_cmd: Option<String>,
    pub total: usize,
}

/// The state of a reporter, as plain values.
pub struct ReporterState {
    pub running: Seq<Seq<char>>,
    pub completed: nat,
    pub current: Option<Seq<char>>,
    pub total: nat,
}

/// A report, as plain values.
pub struct ReportView {
    pub position: nat,
    pub total: nat,
    pub cmd: Seq<char>,
}

/// The number one higher, as far as the machine counts.
pub open spec fn next(n: nat) -> nat {
    if n < usize::MAX {
        n + 1
    } else {
        n
    }
}

/// Those of the first `n` commands that are not `cmd`.
pub open spec fn without(running: Seq<Seq<char>>, cmd: Seq<char>, n: nat) -> Seq<Seq<char>>
    decreases n,
{
    if n == 0 {
        Seq::empty()
    } else {
        let before = without(running, cmd, (n - 1) as nat);
        if running[n - 1] == cmd {
            before
        } else {
            before.push(running[n - 1])
        }
    }
}

impl ReporterState {
    /// The state after a command was started, and what to show: the first
    /// command to start while none is shown is shown from then on.
    pub open spec fn start(self, cmd: Seq<char>) -> (ReporterState, Option<ReportView>) {
        let running = if self.running.contains(cmd) {
            self.running
        } else {
            self.running.push(cmd)
        };
        match self.current {
            Some(_) => (ReporterState { running, ..self }, None),
            None => (
                ReporterState { running, current: Some(cmd), ..self },
                Some(ReportView { position: next(self.completed), total: self.total, cmd }),
            ),
        }
    }

    /// The state after a command ended, and what to show: where the
    /// command that ended was the one shown, another that is running takes
    /// its place; where none is running, the count alone is shown, until all
    /// commands have ended.
    pub open spec fn done(self, cmd: Seq<char>) -> (ReporterState, Option<ReportView>) {
        let running = without(self.running, cmd, self.running.len());
        let completed = next(self.completed);
        let current = if self.current == Some(cmd) {
            if running.len() > 0 {
                Some(running[0])
            } else {
                None
            }
        } else {
            self.current
        };
        let state = ReporterState { running, completed, current, total: self.total };
        match current {
            Some(c) => (
                state,
                Some(ReportView { position: next(completed), total: self.total, cmd: c }),
            ),
            None => if completed < self.total {
                (
                    state,
                    Some(
                        ReportView {
                            position: next(completed),
                            total: self.total,
                            cmd: Seq::empty(),
                        },
                    ),
                )
            } else {
                (state, None)
            },
        }
    }
}

impl View for Reporter {
    type V = ReporterState;

    open spec fn view(&self) -> ReporterState {
        ReporterState {
            running: views(self.running@),
            completed: self.completed as nat,
            current: opt_view(self.current_cmd),
            total: self.total as nat,
        }
    }
}

impl View for Report {
    type V = ReportView;

    open spec fn view(&self) -> ReportView {
        ReportView { position: self.position as nat, total: self.total as nat, cmd: self.cmd@ }
    }
}

/// The view of a report that may be absent.
pub open spec fn report_view(r: Option<Report>) -> Option<ReportView> {
    match r {
        Some(x) => Some(x@),
        None => None,
    }
}

fn bump(n: usize) -> (m: usize)
    ensures
        m == next(n as nat),
{
    if n < usize::MAX {
        n + 1
    } else {
        n
    }
}

impl Reporter {
    /// A reporter for `n_batches` commands, none of which has started.
    pub fn new(n_batches: usize) -> (r: Self)
        ensures
            r@ == (ReporterState {
                running: Seq::empty(),
                completed: 0,
                current: None,
                total: n_batches as nat,
            }),
    {
        let r = Reporter { running: Vec::new(), completed: 0, current_cmd: None, total: n_batches };
        assert(r@.running =~= Seq::<Seq<char>>::empty());
        r
    }

    /// Takes note of an event, and says what the progress line is to show
    /// now, if it changes.
    pub fn on_event(&mut self, event: ReporterEvent) -> (report: Option<Report>)
        ensures
            (final(self)@, report_view(report)) == match event {
                ReporterEvent::Start { cmd } => old(self)@.start(cmd@),
                ReporterEvent::Done { cmd } => old(self)@.done(cmd@),
            },
    {
        match event {
            ReporterEvent::Start { cmd } => {
                if !crate::text::contains_str(&self.running, cmd.as_str()) {
                    let ghost before = views(self.running@);
                    self.running.push(cmd.clone());
                    assert(views(self.running@) =~= before.push(cmd@));
                }
                if self.current_cmd.is_none() {
                    let report = Report {
                        position: bump(self.completed),
                        total: self.total,
                        cmd: cmd.clone(),
                    };
                    self.current_cmd = Some(cmd);
                    Some(report)
                } else {
                    None
                }
            },
            ReporterEvent::Done { cmd } => {
                let mut kept: Vec<String> = Vec::new();
                let n: usize = self.running.len();
                let mut i: usize = 0;
                assert(views(kept@) =~= without(views(self.running@), cmd@, 0));
                while i < n
                    invariant
                        n == self.running@.len(),
                        i <= n,
                        *self == *old(self),
                        views(kept@) == without(views(self.running@), cmd@, i as nat),
                    decreases n - i,
                {
                    let ghost before = views(kept@);
                    assert(views(self.running@)[i as int] == self.running@[i as int]@);
                    if !str_eq(self.running[i].as_str(), cmd.as_str()) {
                        kept.push(self.running[i].clone());
                        assert(views(kept@) =~= before.push(self.running@[i as int]@));
                    }
                    i += 1;
                }
                self.running = kept;
                self.completed = bump(self.completed);
                let shown: bool = match &self.current_cmd {
                    Some(c) => str_eq(c.as_str(), cmd.as_str()),
                    None => false,
                };
                if shown {
                    self.current_cmd = if self.running.len() > 0 {
                        assert(views(self.running@)[0] == self.running@[0]@);
                        Some(self.running[0].clone())
                    } else {
                        None
                    };
                }
                match &self.current_cmd {
                    Some(current) => Some(
                        Report {
                            position: bump(self.completed),
                            total: self.total,
                            cmd: current.clone(),
                        },
                    ),
                    None => if self.completed < self.total {
                        Some(
                            Report {
                                position: bump(self.completed),
                                total: self.total,
                                cmd: String::new(),
                            },
                        )
                    } else {
                        None
                    },
                }
            },
        }
    }
}

/// The first 60 characters of a command, or all of it where it has fewer.
pub open spec fn shortened(cmd: Seq<char>) -> Seq<char> {
    if cmd.len() <= 60 {
        cmd
    } else {
        cmd.subrange(0, 60)
    }
}

/// The progress line: the line is cleared, then `[completed/total]` is
/// written, then the shortened command where there is one, then a line
/// break where each update gets a line of its own.
pub open spec fn progress_line(
    format: ProgressFormat,
    completed: usize,
    total: usize,
    cmd: Seq<char>,
) -> Seq<char> {
    "\x1b[2K\r["@ + spec_decimal(completed as nat) + "/"@ + spec_decimal(total as nat) + "]"@ + (if cmd.len()
        == 0 {
        Seq::<char>::empty()
    } else {
        " "@ + shortened(cmd)
    }) + (if format == ProgressFormat::Newline {
        "\n"@
    } else {
        Seq::<char>::empty()
    })
}

/// What to write to show progress; nothing where progress is not shown.
pub fn report(format: ProgressFormat, completed: usize, total: usize, cmd: &str) -> (line: Option<
    String,
>)
    ensures
        match format {
            ProgressFormat::No => line is None,
            _ => line matches Some(l) && l@ == progress_line(format, completed, total, cmd@),
        },
{
    if format == ProgressFormat::No {
        return None;
    }
    let mut line: String = "\x1b[2K\r[".to_owned();
    let done = decimal(completed as u128);
    line.append(done.as_str());
    line.append("/");
    let all = decimal(total as u128);
    line.append(all.as_str());
    line.append("]");
    let len: usize = cmd.unicode_len();
    if len > 0 {
        line.append(" ");
        let shorter: &str = if len <= 60 {
            cmd
        } else {
            cmd.substring_char(0, 60)
        };
        line.append(shorter);
    }
    if format == ProgressFormat::Newline {
        line.append("\n");
    }
    assert(line@ =~= progress_line(format, completed, total, cmd@));
    Some(line)
}

/// What is left without a command are commands of the list, in their
/// order, and none of them twice where none was.
pub proof fn lemma_without_keeps_once(running: Seq<Seq<char>>, cmd: Seq<char>, n: nat)
    requires
        n <= running.len(),
        running.no_duplicates(),
    ensures
        without(running, cmd, n).no_duplicates(),
        !without(running, cmd, n).contains(cmd),
        forall|c: Seq<char>|
            without(running, cmd, n).contains(c) ==> running.subrange(0, n as int).contains(c),
    decreases n,
{
    let now = without(running, cmd, n);
    if n > 0 {
        let before = without(running, cmd, (n - 1) as nat);
        let earlier = running.subrange(0, n - 1);
        lemma_without_keeps_once(running, cmd, (n - 1) as nat);
        assert forall|c: Seq<char>| now.contains(c) implies running.subrange(0, n as int).contains(
            c,
        ) by {
            let at = choose|at: int| 0 <= at < now.len() && now[at] == c;
            if at < before.len() {
                assert(before[at] == c);
                assert(before.contains(c));
                let k = choose|k: int| 0 <= k < earlier.len() && earlier[k] == c;
                assert(running.subrange(0, n as int)[k] == c);
            } else {
                assert(running.subrange(0, n as int)[n - 1] == c);
            }
        }
        if running[n - 1] != cmd {
            assert forall|x: int, y: int| 0 <= x < y < now.len() implies now[x] != now[y] by {
                if y == before.len() {
                    assert(before.contains(before[x]));
                    let k = choose|k: int| 0 <= k < earlier.len() && earlier[k] == before[x];
                    assert(running[k] == before[x]);
                }
            }
            assert forall|x: int| 0 <= x < now.len() implies now[x] != cmd by {
                if x < before.len() {
                    assert(before.contains(before[x]));
                }
            }
        }
    }
}

/// The reporter holds each running command once: what is so before an
/// event is so after it, and a command that ended runs no more.
pub proof fn lemma_running_once(state: ReporterState, cmd: Seq<char>)
    requires
        state.running.no_duplicates(),
    ensures
        state.start(cmd).0.running.no_duplicates(),
        state.start(cmd).0.running.contains(cmd),
        state.done(cmd).0.running.no_duplicates(),
        !state.done(cmd).0.running.contains(cmd),
{
    lemma_without_keeps_once(state.running, cmd, state.running.len());
    if !state.running.contains(cmd) {
        let now = state.running.push(cmd);
        assert(now[state.running.len() as int] == cmd);
        assert forall|x: int, y: int| 0 <= x < y < now.len() implies now[x] != now[y] by {
            if y == state.running.len() {
                assert(state.running.contains(now[x]));
            }
        }
    }
}

} // verus!
