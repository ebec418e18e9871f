//! Building a bench target: the command for the build tool, and what its
//! answer says of the executable.
//!
//! The build tool answers with one message a line. Reading a message is the
//! caller's part; this module frames the lines and picks the executable out
//! of the messages read.

use vstd::prelude::*;
use crate::command::{pair_views, CommandLine, CommandLineView};
use crate::project::BenchFile;
use crate::text::{join, joined, keep_non_empty, non_empty, pieces, split, views};

verus! {

/// The profile a unit was compiled with.
#[derive(Debug, Clone)]
pub struct Profile {
    pub opt_level: String,
    pub debuginfo: Option<i64>,
    pub debug_assertions: bool,
    pub overflow_checks: bool,
    pub test: bool,
}

/// The target a message of the build tool speaks of.
#[derive(Debug, Clone)]
pub struct Target {
    pub kind: Vec<String>,
    pub crate_types: Vec<String>,
    pub name: String,
    pub src_path: String,
    pub edition: String,
    pub doc: bool,
    pub doctest: bool,
    pub test: bool,
    pub required_features: Option<Vec<String>>,
}

/// One message of the build tool. Values that the message holds in a form of
/// their own are kept as the text they were written in.
#[derive(Debug, Clone)]
pub struct CompilerOutputElement {
    pub reason: String,
    pub package_id: Option<String>,
    pub manifest_path: Option<String>,
    pub target: Option<Target>,
    pub profile: Option<Profile>,
    pub features: Option<Vec<String>>,
    pub filenames: Option<Vec<String>>,
    pub executable: Option<String>,
    pub fresh: Option<bool>,
    pub linked_libs: Option<Vec<Option<String>>>,
    pub linked_paths: Option<Vec<Option<String>>>,
    pub cfgs: Option<Vec<String>>,
    pub env: Option<Vec<Option<String>>>,
    pub out_dir: Option<String>,
    pub success: Option<bool>,
}

/// The messages in the answer of the build tool: its lines that are not
/// empty.
pub open spec fn message_lines(output: Seq<char>) -> Seq<Seq<char>> {
    non_empty(pieces(output, seq!['\n']))
}

/// The executables that the messages name, in order.
pub open spec fn executables(elements: Seq<CompilerOutputElement>) -> Seq<Seq<char>>
    decreases elements.len(),
{
    if elements.len() == 0 {
        Seq::empty()
    } else {
        match elements.last().executable {
            Some(path) => executables(elements.drop_last()).push(path@),
            None => executables(elements.drop_last()),
        }
    }
}

/// The arguments of the command that builds a bench target without running
/// it.
pub open spec fn compile_args(
    bench_name: Seq<char>,
    toolchain: Option<Seq<char>>,
    args: Seq<Seq<char>>,
    features: Seq<Seq<char>>,
) -> Seq<Seq<char>> {
    let first = match toolchain {
        Some(t) => seq![t],
        None => Seq::empty(),
    };
    let last = if features.len() > 0 {
        seq!["--features"@, joined(features, seq![','])]
    } else {
        Seq::empty()
    };
    first + seq!["bench"@, "--bench"@, bench_name, "--no-run"@, "--message-format=json"@] + args
        + last
}

/// The lines of the build tool's answer that hold a message.
pub fn output_lines(output: &str) -> (lines: Vec<String>)
    ensures
        views(lines@) == message_lines(output@),
{
    proof {
        reveal_strlit("\n");
    }
    assert("\n"@ =~= seq!['\n']);
    let all = split(output, "\n");
    keep_non_empty(&all)
}

/// The executable that the build made: the first that a message names.
/// `None` where no message names one, as when the build failed.
pub fn first_executable(elements: &Vec<CompilerOutputElement>) -> (executable: Option<String>)
    ensures
        executables(elements@).len() == 0 <==> executable is None,
        executable matches Some(path) ==> path@ == executables(elements@)[0],
{
    let mut k: usize = 0;
    while k < elements.len()
        invariant
            k <= elements.len(),
            executables(elements@.take(k as int)).len() == 0,
        decreases elements.len() - k,
    {
        let ghost next = elements@.take(k + 1);
        assert(next.drop_last() =~= elements@.take(k as int));
        assert(next.last() == elements@[k as int]);
        match &elements[k].executable {
            Some(path) => {
                proof {
                    lemma_executables_prefix(elements@, k + 1);
                    assert(executables(next) =~= seq![path@]);
                    assert(executables(next)[0] == executables(elements@)[0]);
                }
                return Some(path.clone());
            },
            None => {},
        }
        k += 1;
    }
    assert(elements@.take(elements@.len() as int) =~= elements@);
    None
}

/// The executables named by the first messages are the first executables
/// named.
pub proof fn lemma_executables_prefix(elements: Seq<CompilerOutputElement>, k: int)
    requires
        0 <= k <= elements.len(),
    ensures
        executables(elements.take(k)).is_prefix_of(executables(elements)),
    decreases elements.len() - k,
{
    if k < elements.len() {
        let next = elements.take(k + 1);
        assert(next.drop_last() =~= elements.take(k));
        lemma_executables_prefix(elements, k + 1);
    } else {
        assert(elements.take(k) =~= elements);
    }
}

/// The command that builds the bench target `benchmark` without running it
/// and reports in messages: the build tool, started in the project's
/// directory `workdir`, with the toolchain it is to use, if one is named,
/// the environment `envs`, further arguments `args`, and the features
/// `features` together with those the target needs.
pub fn compile_command(
    benchmark: &BenchFile,
    workdir: &str,
    toolchain: Option<&str>,
    args: &Vec<String>,
    features: &Vec<String>,
    envs: &Vec<(String, String)>,
) -> (c: CommandLine)
    ensures
        c@ == (CommandLineView {
            program: "cargo"@,
            args: compile_args(
                benchmark.name@,
                match toolchain {
                    Some(t) => Some(t@),
                    None => None,
                },
                views(args@),
                views(features@) + views(benchmark.features@),
            ),
            current_dir: Some(workdir@),
            envs: pair_views(envs@),
        }),
{
    let mut c = CommandLine::new("cargo");
    match toolchain {
        Some(t) => {
            c.arg(t);
        },
        None => {},
    }
    let mut k: usize = 0;
    while k < envs.len()
        invariant
            k <= envs.len(),
            c@.program == "cargo"@,
            c@.current_dir.is_none(),
            c@.args == (match toolchain {
                Some(t) => seq![t@],
                None => Seq::<Seq<char>>::empty(),
            }),
            c@.envs == pair_views(envs@).take(k as int),
        decreases envs.len() - k,
    {
        let ghost before = c@.envs;
        c.env(envs[k].0.as_str(), envs[k].1.as_str());
        assert(c@.envs =~= pair_views(envs@).take(k + 1));
        k += 1;
    }
    assert(pair_views(envs@).take(envs@.len() as int) =~= pair_views(envs@));
    c.arg("bench");
    c.current_dir(workdir);
    c.arg("--bench");
    c.arg(benchmark.name.as_str());
    c.arg("--no-run");
    c.arg("--message-format=json");
    c.args(args);
    let mut all: Vec<String> = Vec::new();
    let mut k: usize = 0;
    while k < features.len()
        invariant
            k <= features.len(),
            views(all@) == views(features@).take(k as int),
        decreases features.len() - k,
    {
        let ghost before = views(all@);
        all.push(features[k].clone());
        assert(views(all@) =~= before.push(features@[k as int]@));
        assert(views(features@).take(k + 1) =~= before.push(features@[k as int]@));
        k += 1;
    }
    assert(views(features@).take(features@.len() as int) =~= views(features@));
    let mut k: usize = 0;
    while k < benchmark.features.len()
        invariant
            k <= benchmark.features.len(),
            views(all@) == views(features@) + views(benchmark.features@).take(k as int),
        decreases benchmark.features.len() - k,
    {
        let ghost before = views(all@);
        all.push(benchmark.features[k].clone());
        assert(views(all@) =~= before.push(benchmark.features@[k as int]@));
        assert(views(benchmark.features@).take(k + 1) =~= views(benchmark.features@).take(
            k as int,
        ).push(benchmark.features@[k as int]@));
        k += 1;
    }
    assert(views(benchmark.features@).take(benchmark.features@.len() as int) =~= views(
        benchmark.features@,
    ));
    if all.len() > 0 {
        proof {
            reveal_strlit(",");
        }
        assert(","@ =~= seq![',']);
        c.arg("--features");
        c.arg(join(&all, ",").as_str());
    }
    assert(c@.args =~= compile_args(
        benchmark.name@,
        match toolchain {
            Some(t) => Some(t@),
            None => None,
        },
        views(args@),
        views(features@) + views(benchmark.features@),
    ));
    c
}

/// The environment of a build whose binary is to be probed: with debug
/// information, which the probes are placed by, and without link-time
/// optimization, which would strip it.
pub open spec fn measurement_envs() -> Seq<(Seq<char>, Seq<char>)> {
    seq![("CARGO_PROFILE_BENCH_DEBUG"@, "true"@), ("CARGO_PROFILE_BENCH_LTO"@, "no"@)]
}

/// The environment of a build whose binary is to report coverage.
pub open spec fn coverage_envs() -> Seq<(Seq<char>, Seq<char>)> {
    seq![
        (
            "RUSTFLAGS"@,
            "-Csymbol-mangling-version=v0 -g -Cinstrument-coverage -Zno-profiler-runtime"@,
        ),
        ("CARGO_PROFILE_BENCH_DEBUG"@, "true"@),
        ("CARGO_PROFILE_BENCH_LTO"@, "no"@),
        ("CARGO_PROFILE_BENCH_OPT_LEVEL"@, "0"@),
    ]
}

fn pair(key: &str, value: &str) -> (p: (String, String))
    ensures
        p.0@ == key@,
        p.1@ == value@,
{
    (key.to_owned(), value.to_owned())
}

/// The command that builds the bench target `benchmark_file` for measuring:
/// the plain build, with debug information and without link-time
/// optimization.
pub fn compile_for_measurement(benchmark_file: &BenchFile, workdir: &str) -> (c: CommandLine)
    ensures
        c@ == (CommandLineView {
            program: "cargo"@,
            args: compile_args(
                benchmark_file.name@,
                None,
                Seq::empty(),
                views(benchmark_file.features@),
            ),
            current_dir: Some(workdir@),
            envs: measurement_envs(),
        }),
{
    let mut envs: Vec<(String, String)> = Vec::new();
    envs.push(pair("CARGO_PROFILE_BENCH_DEBUG", "true"));
    envs.push(pair("CARGO_PROFILE_BENCH_LTO", "no"));
    assert(pair_views(envs@) =~= measurement_envs());
    let none: Vec<String> = Vec::new();
    assert(views(none@) =~= Seq::<Seq<char>>::empty());
    assert(views(none@) + views(benchmark_file.features@) =~= views(benchmark_file.features@));
    compile_command(benchmark_file, workdir, None, &none, &none, &envs)
}

/// The command that builds the bench target `benchmark_file` for coverage:
/// with the nightly toolchain, the standard library built along, the
/// coverage feature, and the environment of a coverage build.
pub fn compile_for_coverage(benchmark_file: &BenchFile, workdir: &str) -> (c: CommandLine)
    ensures
        c@ == (CommandLineView {
            program: "cargo"@,
            args: compile_args(
                benchmark_file.name@,
                Some("+nightly"@),
                seq!["-Zbuild-std"@, "--target=x86_64-unknown-linux-gnu"@],
                seq!["coverage"@] + views(benchmark_file.features@),
            ),
            current_dir: Some(workdir@),
            envs: coverage_envs(),
        }),
{
    let mut envs: Vec<(String, String)> = Vec::new();
    envs.push(
        pair(
            "RUSTFLAGS",
            "-Csymbol-mangling-version=v0 -g -Cinstrument-coverage -Zno-profiler-runtime",
        ),
    );
    envs.push(pair("CARGO_PROFILE_BENCH_DEBUG", "true"));
    envs.push(pair("CARGO_PROFILE_BENCH_LTO", "no"));
    envs.push(pair("CARGO_PROFILE_BENCH_OPT_LEVEL", "0"));
    assert(pair_views(envs@) =~= coverage_envs());
    let mut args: Vec<String> = Vec::new();
    args.push("-Zbuild-std".to_owned());
    args.push("--target=x86_64-unknown-linux-gnu".to_owned());
    assert(views(args@) =~= seq!["-Zbuild-std"@, "--target=x86_64-unknown-linux-gnu"@]);
    let mut features: Vec<String> = Vec::new();
    features.push("coverage".to_owned());
    assert(views(features@) =~= seq!["coverage"@]);
    compile_command(benchmark_file, workdir, Some("+nightly"), &args, &features, &envs)
}

} // verus!
