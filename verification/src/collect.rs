//! The run of an experiment: which commands measure which benchmarks, in
//! which order they run, and what is reported of those that fail.
//!
//! Starting a command is the caller's part. This module builds each command,
//! queues the commands of all projects, and keeps the list of failures.

use vstd::prelude::*;
use crate::command::{rendered, CommandLine, CommandLineView};
use crate::ident::{normalize_identifier, normalized};
use crate::paths::{join_path, joined_path};
use crate::project::BenchFile;
use crate::schedule::shuffle;
use crate::text::{append, decimal, decimal_string, join, joined, string_of, to_chars, views};

verus! {

/// One benchmarked function of one project.
#[derive(Debug, Clone)]
pub struct Benchmark {
    /// The project.
    pub project: String,
    /// The bench target that holds the benchmark.
    pub benchmark: String,
    /// The directory of the target's source file.
    pub path: String,
    /// The benchmark's identifier within its target.
    pub id: String,
    /// The features the target needs.
    pub features: Vec<String>,
}

/// The selection filter for the benchmark `id`: a pattern that matches `id`
/// from its first character to its last, and so no benchmark whose name only
/// begins with or contains `id`.
pub open spec fn anchored(id: Seq<char>) -> Seq<char> {
    seq!['^'] + id + seq!['$']
}

/// The label of a queued run: project, bench target and benchmark.
pub open spec fn run_label_of(project: Seq<char>, group: Seq<char>, id: Seq<char>) -> Seq<char> {
    project + seq!['/'] + group + seq!['/'] + id
}

/// The arguments of the command that measures one benchmark.
pub open spec fn bench_args(
    executable: Seq<char>,
    benchmark_id: Seq<char>,
    measurement_time: u64,
    warmup_time: u64,
    sample_size: u64,
) -> Seq<Seq<char>> {
    seq![
        "proc"@,
        "--exec"@,
        "BENCH"@,
        "--"@,
        executable,
        "--bench"@,
        "--measurement-time"@,
        decimal(measurement_time as nat),
        "--warm-up-time"@,
        decimal(warmup_time as nat),
        "--sample-size"@,
        decimal(sample_size as nat),
        anchored(benchmark_id),
    ]
}

/// The command that measures one benchmark.
pub open spec fn bench_command(
    executable: Seq<char>,
    benchmark_id: Seq<char>,
    workdir: Seq<char>,
    measurement_time: u64,
    warmup_time: u64,
    sample_size: u64,
) -> CommandLineView {
    CommandLineView {
        program: "cset"@,
        args: bench_args(executable, benchmark_id, measurement_time, warmup_time, sample_size),
        current_dir: Some(workdir),
        envs: Seq::empty(),
    }
}

impl Benchmark {
    /// A benchmark from its parts.
    pub fn new(
        project: String,
        benchmark: String,
        path: String,
        id: String,
        features: Vec<String>,
    ) -> (b: Benchmark)
        ensures
            b.project == project,
            b.benchmark == benchmark,
            b.path == path,
            b.id == id,
            b.features == features,
    {
        Benchmark { project, benchmark, path, id, features }
    }

    /// The directory of the benchmark's results, relative to the data
    /// directory: the identifiers of project, bench target and benchmark,
    /// each a directory below the one before.
    pub fn to_path_buf(&self) -> (path: String)
        ensures
            path@ == joined_path(
                joined_path(normalized(self.project@), normalized(self.benchmark@)),
                normalized(self.id@),
            ),
    {
        let project = normalize_identifier(self.project.as_str());
        let benchmark = normalize_identifier(self.benchmark.as_str());
        let id = normalize_identifier(self.id.as_str());
        let group = join_path(project.as_str(), benchmark.as_str());
        join_path(group.as_str(), id.as_str())
    }

    /// The benchmark as text: the path of its results.
    pub fn to_string(&self) -> (text: String)
        ensures
            text@ == joined_path(
                joined_path(normalized(self.project@), normalized(self.benchmark@)),
                normalized(self.id@),
            ),
    {
        self.to_path_buf()
    }
}

/// The selection filter that makes a benchmark binary run the benchmark `id`
/// and no other.
pub fn benchmark_filter(id: &str) -> (filter: String)
    ensures
        filter@ == anchored(id@),
{
    let mut out: Vec<char> = Vec::new();
    out.push('^');
    let id = to_chars(id);
    append(&mut out, &id);
    out.push('$');
    assert(out@ =~= anchored(id@));
    string_of(&out)
}

/// The label under which a run of the benchmark `id` is queued.
pub fn run_label(project: &str, group: &str, id: &str) -> (label: String)
    ensures
        label@ == run_label_of(project@, group@, id@),
{
    let mut out = to_chars(project);
    out.push('/');
    let group = to_chars(group);
    append(&mut out, &group);
    out.push('/');
    let id = to_chars(id);
    append(&mut out, &id);
    assert(out@ =~= run_label_of(project@, group@, id@));
    string_of(&out)
}

/// The command that measures the benchmark `benchmark_id` of `executable`:
/// the benchmark binary, started in `workdir` on the processor set aside for
/// measuring, with the times in seconds, the number of samples, and the
/// filter that selects this benchmark alone.
pub fn criterion_bench_command(
    executable: &str,
    benchmark_id: &str,
    workdir: &str,
    measurement_time: u64,
    warmup_time: u64,
    sample_size: u64,
) -> (c: CommandLine)
    ensures
        c@ == bench_command(
            executable@,
            benchmark_id@,
            workdir@,
            measurement_time,
            warmup_time,
            sample_size,
        ),
{
    let mut c = CommandLine::new("cset");
    c.arg("proc");
    c.arg("--exec");
    c.arg("BENCH");
    c.arg("--");
    c.current_dir(workdir);
    c.arg(executable);
    c.arg("--bench");
    c.arg("--measurement-time");
    c.arg(decimal_string(measurement_time).as_str());
    c.arg("--warm-up-time");
    c.arg(decimal_string(warmup_time).as_str());
    c.arg("--sample-size");
    c.arg(decimal_string(sample_size).as_str());
    c.arg(benchmark_filter(benchmark_id).as_str());
    assert(c@.args =~= bench_args(
        executable@,
        benchmark_id@,
        measurement_time,
        warmup_time,
        sample_size,
    ));
    c
}

/// One queued run: the command that measures a benchmark, and the label of
/// the benchmark.
#[derive(Debug, Clone)]
pub struct QueuedRun {
    pub command: CommandLine,
    pub label: String,
}

/// The mathematical value of a [`QueuedRun`].
pub struct QueuedRunView {
    pub command: CommandLineView,
    pub label: Seq<char>,
}

impl View for QueuedRun {
    type V = QueuedRunView;

    open spec fn view(&self) -> QueuedRunView {
        QueuedRunView { command: self.command@, label: self.label@ }
    }
}

/// The views of a sequence of queued runs.
pub open spec fn run_views(v: Seq<QueuedRun>) -> Seq<QueuedRunView> {
    Seq::new(v.len(), |i: int| v[i]@)
}

/// The runs of one bench target: one for each of its benchmarks, in the order
/// of the target's list.
pub open spec fn group_runs(
    executable: Seq<char>,
    workdir: Seq<char>,
    project: Seq<char>,
    group: Seq<char>,
    benches: Seq<Seq<char>>,
    measurement_time: u64,
    warmup_time: u64,
    sample_size: u64,
) -> Seq<QueuedRunView> {
    Seq::new(
        benches.len(),
        |i: int|
            QueuedRunView {
                command: bench_command(
                    executable,
                    benches[i],
                    workdir,
                    measurement_time,
                    warmup_time,
                    sample_size,
                ),
                label: run_label_of(project, group, benches[i]),
            },
    )
}

/// What heads the report of the runs that failed.
pub open spec fn report_heading() -> Seq<char> {
    "The following benchmarks failed:"@
}

/// The report of the runs that failed: the heading, then each failed command
/// on a line of its own. No report where none failed.
pub open spec fn report_of(failures: Seq<Seq<char>>) -> Option<Seq<char>> {
    if failures.len() == 0 {
        None
    } else {
        Some(report_heading() + seq!['\n'] + joined(failures, seq!['\n']))
    }
}

/// Queues the runs of the bench target `group` of `project`, built as
/// `executable`, behind the runs already in `queue`.
pub fn queue_group(
    queue: &mut Vec<QueuedRun>,
    executable: &str,
    workdir: &str,
    project: &str,
    group: &BenchFile,
    measurement_time: u64,
    warmup_time: u64,
    sample_size: u64,
)
    ensures
        run_views(final(queue)@) == run_views(old(queue)@) + group_runs(
            executable@,
            workdir@,
            project@,
            group.name@,
            views(group.benches@),
            measurement_time,
            warmup_time,
            sample_size,
        ),
{
    let ghost all = group_runs(
        executable@,
        workdir@,
        project@,
        group.name@,
        views(group.benches@),
        measurement_time,
        warmup_time,
        sample_size,
    );
    let mut k: usize = 0;
    while k < group.benches.len()
        invariant
            k <= group.benches.len(),
            all == group_runs(
                executable@,
                workdir@,
                project@,
                group.name@,
                views(group.benches@),
                measurement_time,
                warmup_time,
                sample_size,
            ),
            run_views(queue@) == run_views(old(queue)@) + all.take(k as int),
        decreases group.benches.len() - k,
    {
        let ghost before = run_views(queue@);
        let id = group.benches[k].as_str();
        let run = QueuedRun {
            command: criterion_bench_command(
                executable,
                id,
                workdir,
                measurement_time,
                warmup_time,
                sample_size,
            ),
            label: run_label(project, group.name.as_str(), id),
        };
        assert(run@ == all[k as int]);
        queue.push(run);
        assert(run_views(queue@) =~= before.push(all[k as int]));
        assert(all.take(k + 1) =~= all.take(k as int).push(all[k as int]));
        k += 1;
    }
    assert(all.take(all.len() as int) =~= all);
}

/// The runs of an experiment that wait for their turn, and the commands that
/// failed so far.
pub struct RunQueue {
    /// The runs still to make; the last one is the next.
    pub pending: Vec<QueuedRun>,
    /// The text of each command that failed, in the order of the failures.
    pub failures: Vec<String>,
}

impl RunQueue {
    /// The queue of `runs` in a random order, with no failure recorded. The
    /// order is drawn here and stays as it is while the runs are taken.
    pub fn new(runs: Vec<QueuedRun>) -> (queue: RunQueue)
        ensures
            queue.pending@.to_multiset() == runs@.to_multiset(),
            queue.pending@.len() == runs@.len(),
            queue.failures@.len() == 0,
    {
        let mut pending = runs;
        shuffle(&mut pending);
        RunQueue { pending, failures: Vec::new() }
    }

    /// Takes the next run off the queue; `None` when none is left. A run that
    /// was taken is never handed out again.
    pub fn next(&mut self) -> (run: Option<QueuedRun>)
        ensures
            final(self).failures == old(self).failures,
            old(self).pending@.len() == 0 ==> run is None && final(self).pending@ == old(
                self,
            ).pending@,
            old(self).pending@.len() > 0 ==> run == Some(old(self).pending@.last())
                && final(self).pending@ == old(self).pending@.drop_last(),
    {
        self.pending.pop()
    }

    /// Records how the run of `command` ended: a command that failed is kept,
    /// as text, for the report; one that succeeded leaves no trace. The runs
    /// that wait are not touched either way.
    pub fn record(&mut self, command: &CommandLine, success: bool)
        ensures
            final(self).pending == old(self).pending,
            success ==> views(final(self).failures@) == views(old(self).failures@),
            !success ==> views(final(self).failures@) == views(old(self).failures@).push(
                rendered(command@),
            ),
    {
        if !success {
            let ghost before = views(self.failures@);
            self.failures.push(command.render());
            assert(views(self.failures@) =~= before.push(rendered(command@)));
        }
    }

    /// The report of the failures recorded so far, if there is any.
    pub fn report(&self) -> (report: Option<String>)
        ensures
            (match report {
                Some(text) => Some(text@),
                None => None,
            }) == report_of(views(self.failures@)),
    {
        if self.failures.len() == 0 {
            return None;
        }
        proof {
            reveal_strlit("\n");
        }
        assert("\n"@ =~= seq!['\n']);
        let mut out = to_chars("The following benchmarks failed:");
        out.push('\n');
        let list = to_chars(join(&self.failures, "\n").as_str());
        append(&mut out, &list);
        assert(out@ =~= report_heading() + seq!['\n'] + joined(views(self.failures@), seq!['\n']));
        Some(string_of(&out))
    }
}

/// The command that removes what earlier builds left in the project in
/// `workdir`.
pub fn cargo_clean_command(workdir: &str) -> (c: CommandLine)
    ensures
        c@ == (CommandLineView {
            program: "cargo"@,
            args: seq!["clean"@],
            current_dir: Some(workdir@),
            envs: Seq::empty(),
        }),
{
    let mut c = CommandLine::new("cargo");
    c.arg("clean");
    c.current_dir(workdir);
    assert(c@.args =~= seq!["clean"@]);
    c
}

/// Where the harness leaves the results of the project in `workdir`.
pub open spec fn results_dir(workdir: Seq<char>) -> Seq<char> {
    joined_path(joined_path(workdir, "target"@), "criterion"@)
}

/// Where the results of `project` are kept after the run that is stamped
/// `timestamp`.
pub open spec fn data_dir(current_dir: Seq<char>, timestamp: Seq<char>, project: Seq<char>) -> Seq<
    char,
> {
    joined_path(joined_path(joined_path(current_dir, "data"@), timestamp), project)
}

/// The two commands that put the results of a project away: the first makes
/// the directory for them, the second moves them there.
pub fn move_data_commands(
    workdir: &str,
    current_dir: &str,
    timestamp: &str,
    project: &str,
) -> (commands: (CommandLine, CommandLine))
    ensures
        commands.0@ == (CommandLineView {
            program: "mkdir"@,
            args: seq!["-p"@, data_dir(current_dir@, timestamp@, project@)],
            current_dir: None,
            envs: Seq::empty(),
        }),
        commands.1@ == (CommandLineView {
            program: "mv"@,
            args: seq![results_dir(workdir@), data_dir(current_dir@, timestamp@, project@)],
            current_dir: None,
            envs: Seq::empty(),
        }),
{
    let target = join_path(workdir, "target");
    let from = join_path(target.as_str(), "criterion");
    let data = join_path(current_dir, "data");
    let stamped = join_path(data.as_str(), timestamp);
    let to = join_path(stamped.as_str(), project);
    let mut make = CommandLine::new("mkdir");
    make.arg("-p");
    make.arg(to.as_str());
    assert(make@.args =~= seq!["-p"@, data_dir(current_dir@, timestamp@, project@)]);
    let mut mv = CommandLine::new("mv");
    mv.arg(from.as_str());
    mv.arg(to.as_str());
    assert(mv@.args =~= seq![results_dir(workdir@), data_dir(current_dir@, timestamp@, project@)]);
    (make, mv)
}

/// The runs that come off a queue, in the order in which they come: the
/// runs that wait, last first.
pub open spec fn hand_out_order(pending: Seq<QueuedRun>) -> Seq<QueuedRun> {
    pending.reverse()
}

/// A queue hands out each run once: taking a run leaves the runs that
/// waited in front of it, so the runs that come off a queue are the runs
/// that waited, each once, and after as many takings as runs waited none is
/// left.
pub proof fn lemma_queue_hands_out_each_run_once(pending: Seq<QueuedRun>)
    ensures
        hand_out_order(pending).len() == pending.len(),
        hand_out_order(pending).to_multiset() == pending.to_multiset(),
        pending.len() > 0 ==> hand_out_order(pending) == seq![pending.last()] + hand_out_order(
            pending.drop_last(),
        ),
    decreases pending.len(),
{
    if pending.len() > 0 {
        let rest = pending.drop_last();
        lemma_queue_hands_out_each_run_once(rest);
        assert(hand_out_order(pending) =~= seq![pending.last()] + hand_out_order(rest));
        assert(pending =~= rest.push(pending.last()));
        vstd::seq_lib::lemma_multiset_commutative(seq![pending.last()], hand_out_order(rest));
        vstd::seq_lib::lemma_multiset_commutative(rest, seq![pending.last()]);
        assert(rest + seq![pending.last()] =~= pending);
    } else {
        assert(hand_out_order(pending) =~= pending);
    }
}

} // verus!
