//! Target projects and the benchmarks found in them.
//!
//! A project's manifest names its bench targets; each target is asked for the
//! list of its benchmarks. Reading manifests and running the build tool is
//! the caller's part: this module places the targets, says which command
//! lists a target's benchmarks, and reads the answer.

use vstd::prelude::*;
use crate::command::{CommandLine, CommandLineView};
use crate::ident::{normalize_identifier, normalized};
use crate::paths::{join_path, joined_path, parent_path, pop_path};
use crate::text::{ends_with, from_chars, joined, join, pieces, split, to_chars, views};

verus! {

/// One line of the list of projects to measure.
#[derive(Debug, Clone)]
pub struct TargetProject {
    pub name: String,
    pub repo_url: String,
    pub repo_tag: String,
}

/// One bench target of a project, with the benchmarks it holds.
#[derive(Debug, Clone)]
pub struct BenchFile {
    /// The project the target belongs to.
    pub project: String,
    /// The target's name.
    pub name: String,
    /// The path of its source file, relative to the project.
    pub source: String,
    /// The features it needs.
    pub features: Vec<String>,
    /// The identifiers of its benchmarks.
    pub benches: Vec<String>,
}

/// A project with its bench targets.
#[derive(Debug, Clone)]
pub struct Project {
    pub name: String,
    pub bench_files: Vec<BenchFile>,
}

/// A bench target as a manifest declares it.
#[derive(Debug, Clone)]
pub struct BenchProduct {
    /// The target's name.
    pub name: String,
    /// The path of its source file, where the manifest gives one.
    pub path: Option<String>,
    /// The features it needs.
    pub required_features: Vec<String>,
}

/// A bench target with its place in the project.
#[derive(Debug, Clone)]
pub struct PlacedBench {
    /// The target's name.
    pub name: String,
    /// The path of its source file, seen from the project's root.
    pub path: String,
    /// The features it needs.
    pub required_features: Vec<String>,
}

/// A bench target with what its listing command printed.
#[derive(Debug, Clone)]
pub struct Listing {
    pub target: PlacedBench,
    pub output: String,
}

/// The mathematical value of a [`BenchFile`].
pub struct BenchFileView {
    pub project: Seq<char>,
    pub name: Seq<char>,
    pub source: Seq<char>,
    pub features: Seq<Seq<char>>,
    pub benches: Seq<Seq<char>>,
}

impl View for BenchFile {
    type V = BenchFileView;

    open spec fn view(&self) -> BenchFileView {
        BenchFileView {
            project: self.project@,
            name: self.name@,
            source: self.source@,
            features: views(self.features@),
            benches: views(self.benches@),
        }
    }
}

/// The mathematical value of a [`BenchProduct`].
pub struct BenchProductView {
    pub name: Seq<char>,
    pub path: Option<Seq<char>>,
    pub required_features: Seq<Seq<char>>,
}

impl View for BenchProduct {
    type V = BenchProductView;

    open spec fn view(&self) -> BenchProductView {
        BenchProductView {
            name: self.name@,
            path: match self.path {
                Some(p) => Some(p@),
                None => None,
            },
            required_features: views(self.required_features@),
        }
    }
}

/// The views of a sequence of bench targets.
pub open spec fn bench_file_views(v: Seq<BenchFile>) -> Seq<BenchFileView> {
    Seq::new(v.len(), |i: int| v[i]@)
}

/// The mathematical value of a [`PlacedBench`].
pub struct PlacedBenchView {
    pub name: Seq<char>,
    pub path: Seq<char>,
    pub required_features: Seq<Seq<char>>,
}

impl View for PlacedBench {
    type V = PlacedBenchView;

    open spec fn view(&self) -> PlacedBenchView {
        PlacedBenchView {
            name: self.name@,
            path: self.path@,
            required_features: views(self.required_features@),
        }
    }
}

/// The mathematical value of a [`Listing`].
pub struct ListingView {
    pub target: PlacedBenchView,
    pub output: Seq<char>,
}

impl View for Listing {
    type V = ListingView;

    open spec fn view(&self) -> ListingView {
        ListingView { target: self.target@, output: self.output@ }
    }
}

/// The views of a sequence of listings.
pub open spec fn listing_views(v: Seq<Listing>) -> Seq<ListingView> {
    Seq::new(v.len(), |i: int| v[i]@)
}

/// The directory in which targets lie that declare no path.
pub open spec fn benches_dir() -> Seq<char> {
    seq!['b', 'e', 'n', 'c', 'h', 'e', 's']
}

/// The directory below the working directory in which the projects lie.
pub open spec fn projects_dir() -> Seq<char> {
    seq!['p', 'r', 'o', 'j', 'e', 'c', 't', 's']
}

/// What ends a line of a benchmark list that names a benchmark.
pub open spec fn bench_marker() -> Seq<char> {
    seq![':', ' ', 'b', 'e', 'n', 'c', 'h']
}

/// The path of a declared target, seen from the project's root.
///
/// A target of the project itself keeps its declared path, or lies in the
/// benches directory under its name. A target of a workspace member lies
/// below the member: at its declared path, or in the member's benches
/// directory under its name.
pub open spec fn placed_path(member: Option<Seq<char>>, product: BenchProductView) -> Seq<char> {
    match member {
        None => match product.path {
            Some(p) => p,
            None => joined_path(benches_dir(), product.name),
        },
        Some(m) => match product.path {
            Some(p) => joined_path(m, p),
            None => joined_path(joined_path(m, benches_dir()), product.name),
        },
    }
}

/// The benchmark that a line of a benchmark list names: the line without the
/// marker that ends it, where something stands before the marker.
pub open spec fn listed_id(line: Seq<char>) -> Option<Seq<char>> {
    if bench_marker().is_suffix_of(line) && line.len() > bench_marker().len() {
        Some(line.take(line.len() - bench_marker().len()))
    } else {
        None
    }
}

/// The benchmarks that the lines name, in order.
pub open spec fn listed_ids_of(lines: Seq<Seq<char>>) -> Seq<Seq<char>>
    decreases lines.len(),
{
    if lines.len() == 0 {
        Seq::empty()
    } else {
        match listed_id(lines.last()) {
            Some(id) => listed_ids_of(lines.drop_last()).push(id),
            None => listed_ids_of(lines.drop_last()),
        }
    }
}

/// The benchmarks that a benchmark list names, in order.
pub open spec fn listed_ids(listing: Seq<char>) -> Seq<Seq<char>> {
    listed_ids_of(pieces(listing, seq!['\n']))
}

/// The arguments that make the build tool list the benchmarks of `target`.
pub open spec fn listing_args(target: PlacedBenchView) -> Seq<Seq<char>> {
    let features = if target.required_features.len() > 0 {
        seq!["--features"@, joined(target.required_features, seq![','])]
    } else {
        Seq::empty()
    };
    seq!["bench"@] + features + seq!["--bench"@, target.name, "--"@, "--list"@]
}

/// The bench targets found in a project: for each target, in order, whose
/// listing names a benchmark, the target with the benchmarks named.
pub open spec fn found_files(project: Seq<char>, listings: Seq<ListingView>) -> Seq<BenchFileView>
    decreases listings.len(),
{
    if listings.len() == 0 {
        Seq::empty()
    } else {
        let rest = found_files(project, listings.drop_last());
        let last = listings.last();
        let ids = listed_ids(last.output);
        if ids.len() == 0 {
            rest
        } else {
            rest.push(
                BenchFileView {
                    project,
                    name: last.target.name,
                    source: last.target.path,
                    features: last.target.required_features,
                    benches: ids,
                },
            )
        }
    }
}

impl BenchFile {
    /// The directory that holds the target's source file.
    pub fn get_workdir(&self) -> (dir: String)
        ensures
            dir@ == parent_path(self.source@),
    {
        pop_path(self.source.as_str())
    }

    /// The target's name as an identifier: the name under which its probes
    /// are installed.
    pub fn get_clean_name(&self) -> (name: String)
        ensures
            name@ == normalized(self.name@),
    {
        normalize_identifier(self.name.as_str())
    }
}

/// The directory of `project` below the working directory `current_dir`.
pub fn get_workdir_for_project(current_dir: &str, project: &str) -> (dir: String)
    ensures
        dir@ == joined_path(joined_path(current_dir@, projects_dir()), project@),
{
    proof {
        reveal_strlit("projects");
    }
    assert("projects"@ =~= projects_dir());
    let projects = join_path(current_dir, "projects");
    join_path(projects.as_str(), project)
}

/// The bench target `product` with its place in the project; `member` is the
/// workspace member that declares it, if one does.
pub fn place_product(product: &BenchProduct, member: Option<&str>) -> (placed: PlacedBench)
    ensures
        placed@ == (PlacedBenchView {
            name: product@.name,
            path: placed_path(
                match member {
                    Some(m) => Some(m@),
                    None => None,
                },
                product@,
            ),
            required_features: product@.required_features,
        }),
{
    proof {
        reveal_strlit("benches");
    }
    assert("benches"@ =~= benches_dir());
    let path = match member {
        None => match &product.path {
            Some(p) => p.clone(),
            None => join_path("benches", product.name.as_str()),
        },
        Some(m) => match &product.path {
            Some(p) => join_path(m, p.as_str()),
            None => {
                let dir = join_path(m, "benches");
                join_path(dir.as_str(), product.name.as_str())
            },
        },
    };
    PlacedBench {
        name: product.name.clone(),
        path,
        required_features: copy_strings(&product.required_features),
    }
}

/// The command that lists the benchmarks of the bench target `target` of
/// the project in `work_dir`: the build tool, started in the directory of
/// the target's source file.
pub fn bench_list_command(work_dir: &str, target: &PlacedBench) -> (c: CommandLine)
    ensures
        c@ == (CommandLineView {
            program: "cargo"@,
            args: listing_args(target@),
            current_dir: Some(parent_path(joined_path(work_dir@, target.path@))),
            envs: Seq::empty(),
        }),
{
    let mut c = CommandLine::new("cargo");
    let dir = pop_path(join_path(work_dir, target.path.as_str()).as_str());
    c.current_dir(dir.as_str());
    c.arg("bench");
    if target.required_features.len() > 0 {
        c.arg("--features");
        let features = join(&target.required_features, ",");
        proof {
            reveal_strlit(",");
        }
        assert(","@ =~= seq![',']);
        c.arg(features.as_str());
    }
    c.arg("--bench");
    c.arg(target.name.as_str());
    c.arg("--");
    c.arg("--list");
    assert(c@.args =~= listing_args(target@));
    c
}

/// The benchmarks that the benchmark list `listing` names, in order: of each
/// line that ends in `: bench` after at least one character, what stands
/// before that.
pub fn parse_bench_ids(listing: &str) -> (ids: Vec<String>)
    ensures
        views(ids@) == listed_ids(listing@),
{
    proof {
        reveal_strlit("\n");
        reveal_strlit(": bench");
    }
    assert("\n"@ =~= seq!['\n']);
    assert(": bench"@ =~= bench_marker());
    let lines = split(listing, "\n");
    let marker = to_chars(": bench");
    let mut ids: Vec<String> = Vec::new();
    let mut k: usize = 0;
    while k < lines.len()
        invariant
            k <= lines.len(),
            marker@ == bench_marker(),
            views(ids@) == listed_ids_of(views(lines@).take(k as int)),
        decreases lines.len() - k,
    {
        let ghost before = views(ids@);
        let ghost next = views(lines@).take(k + 1);
        assert(next.drop_last() =~= views(lines@).take(k as int));
        assert(next.last() == lines@[k as int]@);
        let line = to_chars(lines[k].as_str());
        if ends_with(&line, &marker) && line.len() > marker.len() {
            ids.push(from_chars(&line, 0, line.len() - marker.len()));
            assert(views(ids@) =~= before.push(line@.take(line@.len() - marker@.len())));
        }
        k += 1;
    }
    assert(views(lines@).take(lines@.len() as int) =~= views(lines@));
    ids
}

fn copy_strings(v: &Vec<String>) -> (r: Vec<String>)
    ensures
        views(r@) == views(v@),
{
    let mut r: Vec<String> = Vec::new();
    let mut k: usize = 0;
    while k < v.len()
        invariant
            k <= v.len(),
            views(r@) == views(v@).take(k as int),
        decreases v.len() - k,
    {
        let ghost before = views(r@);
        r.push(v[k].clone());
        assert(views(r@) =~= before.push(v@[k as int]@));
        assert(views(v@).take(k + 1) =~= before.push(v@[k as int]@));
        k += 1;
    }
    assert(views(v@).take(v@.len() as int) =~= views(v@));
    r
}

/// The project `project_name` with the bench targets found in it.
///
/// `listings` holds the bench targets of the project, each with what its
/// listing command printed. A target whose listing names no benchmark is
/// left out.
pub fn find_benchmarks_for_project(project_name: &str, listings: &Vec<Listing>) -> (project:
    Project)
    ensures
        project.name@ == project_name@,
        bench_file_views(project.bench_files@) == found_files(
            project_name@,
            listing_views(listings@),
        ),
{
    let mut bench_files: Vec<BenchFile> = Vec::new();
    let mut k: usize = 0;
    while k < listings.len()
        invariant
            k <= listings.len(),
            bench_file_views(bench_files@) == found_files(
                project_name@,
                listing_views(listings@).take(k as int),
            ),
        decreases listings.len() - k,
    {
        let ghost before = bench_file_views(bench_files@);
        let ghost next = listing_views(listings@).take(k + 1);
        assert(next.drop_last() =~= listing_views(listings@).take(k as int));
        assert(next.last() == listings@[k as int]@);
        let listing = &listings[k];
        let ids = parse_bench_ids(listing.output.as_str());
        if ids.len() != 0 {
            let file = BenchFile {
                project: project_name.to_owned(),
                name: listing.target.name.clone(),
                source: listing.target.path.clone(),
                features: copy_strings(&listing.target.required_features),
                benches: ids,
            };
            bench_files.push(file);
            assert(bench_file_views(bench_files@) =~= before.push(file@));
        }
        k += 1;
    }
    assert(listing_views(listings@).take(listings@.len() as int) =~= listing_views(listings@));
    Project { name: project_name.to_owned(), bench_files }
}

/// The command that fetches the project `project` into the projects
/// directory below `current_dir`: a shallow clone of its repository at its
/// tag.
pub fn git_clone_command(current_dir: &str, project: &TargetProject) -> (c: CommandLine)
    ensures
        c@ == (CommandLineView {
            program: "git"@,
            args: seq![
                "clone"@,
                project.repo_url@,
                "--depth"@,
                "1"@,
                "--branch"@,
                project.repo_tag@,
            ],
            current_dir: Some(joined_path(current_dir@, projects_dir())),
            envs: Seq::empty(),
        }),
{
    proof {
        reveal_strlit("projects");
    }
    assert("projects"@ =~= projects_dir());
    let mut c = CommandLine::new("git");
    c.current_dir(join_path(current_dir, "projects").as_str());
    c.arg("clone");
    c.arg(project.repo_url.as_str());
    c.arg("--depth");
    c.arg("1");
    c.arg("--branch");
    c.arg(project.repo_tag.as_str());
    assert(c@.args =~= seq![
        "clone"@,
        project.repo_url@,
        "--depth"@,
        "1"@,
        "--branch"@,
        project.repo_tag@,
    ]);
    c
}

/// The arguments of the command that checks the bench targets of a project.
pub open spec fn check_args(quiet: bool) -> Seq<Seq<char>> {
    if quiet {
        seq!["check"@, "--benches"@, "--quiet"@]
    } else {
        seq!["check"@, "--benches"@]
    }
}

/// The command that checks that the bench targets of the project in
/// `workdir` compile; `quiet` keeps the build tool from reporting its
/// progress.
pub fn cargo_check_command(workdir: &str, quiet: bool) -> (c: CommandLine)
    ensures
        c@ == (CommandLineView {
            program: "cargo"@,
            args: check_args(quiet),
            current_dir: Some(workdir@),
            envs: Seq::empty(),
        }),
{
    let mut c = CommandLine::new("cargo");
    c.current_dir(workdir);
    c.arg("check");
    c.arg("--benches");
    if quiet {
        c.arg("--quiet");
    }
    assert(c@.args =~= check_args(quiet));
    c
}

} // verus!
