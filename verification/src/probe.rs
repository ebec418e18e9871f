//! Probes on the iteration loop of the benchmark harness.
//!
//! A probe is installed by the tracing tool on a symbol of the benchmark
//! binary. This module says which command installs or deletes a probe and
//! decides, from how each command ended, what to try next and whether the
//! batch of probes stands. Running the tool is the caller's part.

use vstd::prelude::*;
use crate::command::{CommandLine, CommandLineView};
use crate::text::{append, string_of, to_chars};

verus! {

/// How a probe reads the harness's iteration counter. Harness versions
/// differ in which of the two the tracing tool accepts.
#[derive(Debug, Clone, Copy, PartialEq, Eq, Structural)]
pub enum Accessor {
    /// `self->iters`
    Arrow,
    /// `self.iters`
    Dot,
}

/// The text by which a probe reads the iteration counter.
pub open spec fn counter_text(accessor: Accessor) -> Seq<char> {
    match accessor {
        Accessor::Arrow => "self->iters"@,
        Accessor::Dot => "self.iters"@,
    }
}

/// The definition of a probe named `label` on the symbol `function`.
pub open spec fn definition_of(label: Seq<char>, function: Seq<char>, accessor: Accessor) -> Seq<
    char,
> {
    label + seq!['='] + function + seq![' '] + counter_text(accessor)
}

/// The pattern that matches every probe of the bench target `name`.
pub open spec fn group_pattern_of(name: Seq<char>) -> Seq<char> {
    "probe_"@ + name + ":*"@
}

/// The definition of a probe named `label` on the symbol `function`.
pub fn probe_definition(label: &str, function: &str, accessor: Accessor) -> (definition: String)
    ensures
        definition@ == definition_of(label@, function@, accessor),
{
    let mut out = to_chars(label);
    out.push('=');
    let function = to_chars(function);
    append(&mut out, &function);
    out.push(' ');
    let counter = match accessor {
        Accessor::Arrow => to_chars("self->iters"),
        Accessor::Dot => to_chars("self.iters"),
    };
    append(&mut out, &counter);
    assert(out@ =~= definition_of(label@, function@, accessor));
    string_of(&out)
}

/// The command that installs the probe `label` on the symbol `function` of
/// `executable`, in place of any probe of that name.
pub fn probe_add_command(
    executable: &str,
    label: &str,
    function: &str,
    accessor: Accessor,
) -> (c: CommandLine)
    ensures
        c@ == (CommandLineView {
            program: "perf"@,
            args: seq![
                "probe"@,
                "-f"@,
                "-x"@,
                executable@,
                "--add"@,
                definition_of(label@, function@, accessor),
            ],
            current_dir: None,
            envs: Seq::empty(),
        }),
{
    let mut c = CommandLine::new("perf");
    c.arg("probe");
    c.arg("-f");
    c.arg("-x");
    c.arg(executable);
    c.arg("--add");
    c.arg(probe_definition(label, function, accessor).as_str());
    assert(c@.args =~= seq![
        "probe"@,
        "-f"@,
        "-x"@,
        executable@,
        "--add"@,
        definition_of(label@, function@, accessor),
    ]);
    c
}

/// The command that deletes the probes that `pattern` matches.
pub fn probe_delete_command(pattern: &str) -> (c: CommandLine)
    ensures
        c@ == (CommandLineView {
            program: "perf"@,
            args: seq!["probe"@, "-d"@, pattern@],
            current_dir: None,
            envs: Seq::empty(),
        }),
{
    let mut c = CommandLine::new("perf");
    c.arg("probe");
    c.arg("-d");
    c.arg(pattern);
    assert(c@.args =~= seq!["probe"@, "-d"@, pattern@]);
    c
}

/// The pattern that matches every probe of the bench target `name`, so that
/// one deletion removes them together.
pub fn probe_group_pattern(name: &str) -> (pattern: String)
    ensures
        pattern@ == group_pattern_of(name@),
{
    let mut out = to_chars("probe_");
    let name = to_chars(name);
    append(&mut out, &name);
    let tail = to_chars(":*");
    append(&mut out, &tail);
    assert(out@ =~= group_pattern_of(name@));
    string_of(&out)
}

/// The installation of the probes of one batch of symbols, one symbol after
/// the other.
///
/// Each symbol is tried with the arrow accessor first and, if that fails,
/// with the dot accessor. A symbol that fails both ways fails the batch, and
/// no further symbol is tried.
#[derive(Debug, Clone, Copy, PartialEq, Eq, Structural)]
pub struct ProbeBatch {
    /// The number of symbols in the batch.
    pub total: usize,
    /// The number of symbols whose probe is installed; also the index of the
    /// symbol to try next.
    pub installed: usize,
    /// The first attempt on the current symbol failed.
    pub retry: bool,
    /// A symbol failed both attempts.
    pub failed: bool,
}

/// What to do next for a batch.
#[derive(Debug, Clone, Copy, PartialEq, Eq, Structural)]
pub enum ProbeStep {
    /// Install the probe on the symbol with this index, with this accessor,
    /// and record how the command ended.
    Install { symbol: usize, accessor: Accessor },
    /// Nothing is left to do: the batch is installed, or it failed.
    Done { success: bool },
}

impl ProbeBatch {
    /// The batch is in a state that the installation can reach.
    pub open spec fn wf(self) -> bool {
        self.installed <= self.total
    }

    /// No attempt is left to make.
    pub open spec fn finished(self) -> bool {
        self.failed || self.installed >= self.total
    }

    /// What to do next.
    pub open spec fn step_of(self) -> ProbeStep {
        if self.failed {
            ProbeStep::Done { success: false }
        } else if self.installed >= self.total {
            ProbeStep::Done { success: true }
        } else {
            ProbeStep::Install {
                symbol: self.installed,
                accessor: if self.retry {
                    Accessor::Dot
                } else {
                    Accessor::Arrow
                },
            }
        }
    }

    /// The batch after the attempt that `step_of` asked for ended with
    /// `succeeded`. A finished batch stays as it is.
    pub open spec fn recorded(self, succeeded: bool) -> ProbeBatch {
        if self.finished() {
            self
        } else if succeeded {
            ProbeBatch { installed: (self.installed + 1) as usize, retry: false, ..self }
        } else if self.retry {
            ProbeBatch { failed: true, retry: false, ..self }
        } else {
            ProbeBatch { retry: true, ..self }
        }
    }

    /// The batch after the attempts ended as `outcomes` say, in order.
    pub open spec fn after(self, outcomes: Seq<bool>) -> ProbeBatch
        decreases outcomes.len(),
    {
        if outcomes.len() == 0 {
            self
        } else {
            self.after(outcomes.drop_last()).recorded(outcomes.last())
        }
    }

    /// A batch of `total` symbols, none tried yet.
    pub fn new(total: usize) -> (batch: ProbeBatch)
        ensures
            batch == (ProbeBatch { total, installed: 0, retry: false, failed: false }),
            batch.wf(),
    {
        ProbeBatch { total, installed: 0, retry: false, failed: false }
    }

    /// What to do next.
    pub fn step(&self) -> (step: ProbeStep)
        ensures
            step == self.step_of(),
    {
        if self.failed {
            ProbeStep::Done { success: false }
        } else if self.installed >= self.total {
            ProbeStep::Done { success: true }
        } else if self.retry {
            ProbeStep::Install { symbol: self.installed, accessor: Accessor::Dot }
        } else {
            ProbeStep::Install { symbol: self.installed, accessor: Accessor::Arrow }
        }
    }

    /// Records how the attempt that `step` asked for ended.
    pub fn record(&mut self, succeeded: bool)
        ensures
            *final(self) == old(self).recorded(succeeded),
            old(self).wf() ==> final(self).wf(),
    {
        if self.failed || self.installed >= self.total {
        } else if succeeded {
            self.installed = self.installed + 1;
            self.retry = false;
        } else if self.retry {
            self.failed = true;
            self.retry = false;
        } else {
            self.retry = true;
        }
    }
}

/// Whatever happens to a batch, it stays within its symbols.
pub proof fn lemma_batch_stays_wf(batch: ProbeBatch, outcomes: Seq<bool>)
    requires
        batch.wf(),
    ensures
        batch.after(outcomes).wf(),
        batch.after(outcomes).total == batch.total,
    decreases outcomes.len(),
{
    if outcomes.len() > 0 {
        lemma_batch_stays_wf(batch, outcomes.drop_last());
    }
}

/// A batch that failed stays failed: whatever is recorded afterwards, the
/// batch is done without success.
pub proof fn lemma_failed_batch_stays_failed(batch: ProbeBatch, outcomes: Seq<bool>)
    requires
        batch.failed,
    ensures
        batch.after(outcomes) == batch,
        batch.after(outcomes).step_of() == (ProbeStep::Done { success: false }),
    decreases outcomes.len(),
{
    if outcomes.len() > 0 {
        lemma_failed_batch_stays_failed(batch, outcomes.drop_last());
    }
}

/// One symbol that fails both ways fails the batch, however the symbols
/// before it ended and whatever is recorded after it.
pub proof fn lemma_one_failure_fails_batch(batch: ProbeBatch, later: Seq<bool>)
    requires
        batch.wf(),
        !batch.finished(),
    ensures
        batch.recorded(false).recorded(false).after(later).step_of() == (ProbeStep::Done {
            success: false,
        }),
{
    lemma_failed_batch_stays_failed(batch.recorded(false).recorded(false), later);
}

/// A batch is installed only when each of its symbols is: the attempts made
/// hold at least one success for every symbol that was still to install.
pub proof fn lemma_success_needs_every_symbol(batch: ProbeBatch, outcomes: Seq<bool>)
    requires
        batch.wf(),
    ensures
        batch.after(outcomes).installed - batch.installed <= outcomes.filter(|b: bool| b).len(),
        batch.after(outcomes).step_of() == (ProbeStep::Done { success: true })
            ==> outcomes.filter(|b: bool| b).len() >= batch.total - batch.installed,
    decreases outcomes.len(),
{
    if outcomes.len() > 0 {
        let init = outcomes.drop_last();
        lemma_success_needs_every_symbol(batch, init);
        lemma_batch_stays_wf(batch, init);
        assert(outcomes =~= init.push(outcomes.last()));
        init.lemma_filter_push(outcomes.last(), |b: bool| b);
    } else {
        assert(outcomes.filter(|b: bool| b).len() == 0) by {
            reveal(Seq::filter);
        }
    }
}

} // verus!
