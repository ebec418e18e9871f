//! Coverage of source code: the regions that a coverage report counts, how
//! they lie to the spans of a syntax tree, and the module a source file
//! stands for.

use std::fmt::Write;
use vstd::prelude::*;
use crate::collect::{anchored, benchmark_filter};
use crate::command::{CommandLine, CommandLineView};
use crate::paths::{join_path, joined_path};
use crate::text::{
    before_last, keep_non_empty, lemma_pieces_nonempty, non_empty, pieces, replace, replaced,
    split, string_of, strip_from_last, to_chars, views,
};

verus! {

/// A place in a source file.
#[derive(Debug, Clone, Copy, PartialEq, Eq, Structural)]
pub struct LineColumn {
    pub line: usize,
    pub column: usize,
}

/// A stretch of a source file, from `start` to `end`.
#[derive(Debug, Clone, Copy, PartialEq, Eq, Structural)]
pub struct Span {
    pub start: LineColumn,
    pub end: LineColumn,
}

/// A region of a coverage report: a stretch of a source file with the number
/// of times it ran.
#[derive(Debug, Clone, Copy, PartialEq, Eq, Structural)]
pub struct Region {
    pub line_start: i64,
    pub column_start: i64,
    pub line_end: i64,
    pub column_end: i64,
    pub execution_count: i64,
    pub file_id: i64,
    pub expanded_file_id: i64,
    pub kind: i64,
}

/// A branch of a coverage report.
#[derive(Debug, Clone, Copy, PartialEq, Eq, Structural)]
pub struct Branch {
    pub line_start: i64,
    pub column_start: i64,
    pub line_end: i64,
    pub column_end: i64,
    pub execution_count: i64,
    pub false_execution_count: i64,
    pub file_id: i64,
    pub expanded_file_id: i64,
    pub kind: i64,
}

/// `a` lies at or before `b`.
pub open spec fn at_or_before(a: LineColumn, b: LineColumn) -> bool {
    a.line < b.line || (a.line == b.line && a.column <= b.column)
}

impl Region {
    /// Where the region begins.
    pub open spec fn start_of(self) -> LineColumn {
        LineColumn { line: self.line_start as usize, column: self.column_start as usize }
    }

    /// Where the region ends.
    pub open spec fn end_of(self) -> LineColumn {
        LineColumn { line: self.line_end as usize, column: self.column_end as usize }
    }

    /// Where the region begins.
    pub fn start(&self) -> (at: LineColumn)
        ensures
            at == self.start_of(),
    {
        LineColumn {
            line: #[verifier::truncate]
            (self.line_start as usize),
            column: #[verifier::truncate]
            (self.column_start as usize),
        }
    }

    /// Where the region ends.
    pub fn end(&self) -> (at: LineColumn)
        ensures
            at == self.end_of(),
    {
        LineColumn {
            line: #[verifier::truncate]
            (self.line_end as usize),
            column: #[verifier::truncate]
            (self.column_end as usize),
        }
    }

    /// Whether `lhs` lies at or before `rhs`.
    pub fn lte(lhs: &LineColumn, rhs: &LineColumn) -> (b: bool)
        ensures
            b == at_or_before(*lhs, *rhs),
    {
        lhs.line < rhs.line || (lhs.line == rhs.line && lhs.column <= rhs.column)
    }

    /// Whether the span lies within the region.
    pub fn contains_span(&self, span: &Span) -> (b: bool)
        ensures
            b == (at_or_before(self.start_of(), span.start) && at_or_before(
                span.end,
                self.end_of(),
            )),
    {
        Region::lte(&self.start(), &span.start) && Region::lte(&span.end, &self.end())
    }

    /// Whether the region lies within the span.
    pub fn contained_in_span(&self, span: &Span) -> (b: bool)
        ensures
            b == (at_or_before(span.start, self.start_of()) && at_or_before(
                self.end_of(),
                span.end,
            )),
    {
        Region::lte(&span.start, &self.start()) && Region::lte(&self.end(), &span.end)
    }

    /// Whether the region and the span share a place: neither begins behind
    /// the end of the other.
    pub fn overlaps_span(&self, span: &Span) -> (b: bool)
        ensures
            b == (at_or_before(span.start, self.end_of()) && at_or_before(
                self.start_of(),
                span.end,
            )),
    {
        Region::lte(&span.start, &self.end()) && Region::lte(&self.start(), &span.end)
    }
}

/// Places are in a total order: of two places one lies at or before the
/// other, and two places that lie at or before each other are one.
pub proof fn lemma_places_ordered(a: LineColumn, b: LineColumn, c: LineColumn)
    ensures
        at_or_before(a, b) || at_or_before(b, a),
        at_or_before(a, b) && at_or_before(b, a) ==> a == b,
        at_or_before(a, b) && at_or_before(b, c) ==> at_or_before(a, c),
{
}

/// A span that lies within a region, or holds it, shares a place with it,
/// as long as both run forward.
pub proof fn lemma_containment_overlaps(region: Region, span: Span)
    requires
        at_or_before(region.start_of(), region.end_of()),
        at_or_before(span.start, span.end),
    ensures
        at_or_before(region.start_of(), span.start) && at_or_before(span.end, region.end_of())
            ==> at_or_before(span.start, region.end_of()) && at_or_before(
            region.start_of(),
            span.end,
        ),
        at_or_before(span.start, region.start_of()) && at_or_before(region.end_of(), span.end)
            ==> at_or_before(span.start, region.end_of()) && at_or_before(
            region.start_of(),
            span.end,
        ),
{
}

/// A function of a coverage report.
#[derive(Debug, Clone)]
pub struct Function {
    pub branches: Vec<Branch>,
    /// How often the function ran.
    pub count: i64,
    pub filenames: Vec<String>,
    /// The function's symbol.
    pub name: String,
    pub regions: Vec<Region>,
}

/// The name that `rustc_demangle::demangle` reads out of the symbol
/// `symbol`, as text.
pub uninterp spec fn demangled(symbol: Seq<char>) -> Seq<char>;

/// `rustc_demangle::demangle` on the symbol `symbol`, written out as text.
/// The text depends on the symbol alone; which text it is, is left to that
/// crate and named [`demangled`].
#[verifier::external_body]
fn demangle_symbol(symbol: &str) -> (name: String)
    ensures
        name@ == demangled(symbol@),
{
    let mut name = String::new();
    let _ = write!(name, "{}", rustc_demangle::demangle(symbol));
    name
}

/// The functions that ran, in order.
pub open spec fn executed(functions: Seq<Function>) -> Seq<Function> {
    functions.filter(|f: Function| f.count > 0)
}

impl Function {
    /// The function's name as the source wrote it.
    pub fn get_demangled(&self) -> (name: String)
        ensures
            name@ == demangled(self.name@),
    {
        demangle_symbol(self.name.as_str())
    }

    /// Puts the name as the source wrote it in place of the symbol.
    pub fn demangle(&mut self)
        ensures
            final(self).name@ == demangled(old(self).name@),
            final(self).branches == old(self).branches,
            final(self).count == old(self).count,
            final(self).filenames == old(self).filenames,
            final(self).regions == old(self).regions,
    {
        self.name = demangle_symbol(self.name.as_str());
    }
}

/// Drops the functions that never ran; those that ran stay, in order.
pub fn filter_non_zero(functions: Vec<Function>) -> (kept: Vec<Function>)
    ensures
        kept@ == executed(functions@),
{
    let mut kept: Vec<Function> = Vec::new();
    let mut functions = functions;
    let ghost all = functions@;
    // The functions are taken from the back, so `rest` holds those that ran
    // in reverse; the second loop restores their order.
    let mut rest: Vec<Function> = Vec::new();
    while functions.len() > 0
        invariant
            functions@.len() <= all.len(),
            functions@ == all.take(functions@.len() as int),
            rest@.reverse() == executed(all.skip(functions@.len() as int)),
        decreases functions.len(),
    {
        let ghost n = functions@.len() as int;
        let ghost before = rest@;
        let f = functions.pop().unwrap();
        assert(f == all[n - 1]);
        proof {
            lemma_executed_cons(all.skip(n - 1));
            assert(all.skip(n - 1).drop_first() =~= all.skip(n));
        }
        if f.count > 0 {
            rest.push(f);
            assert(rest@.reverse() =~= seq![f] + before.reverse());
        }
        assert(functions@ =~= all.take(n - 1));
    }
    assert(all.skip(0) =~= all);
    while rest.len() > 0
        invariant
            kept@ + rest@.reverse() == executed(all),
        decreases rest.len(),
    {
        let ghost before_rest = rest@;
        let ghost before_kept = kept@;
        let f = rest.pop().unwrap();
        kept.push(f);
        assert(before_rest.reverse() =~= seq![f] + rest@.reverse());
        assert(kept@ + rest@.reverse() =~= before_kept + before_rest.reverse());
    }
    assert(rest@.reverse() =~= Seq::<Function>::empty());
    assert(kept@ + Seq::<Function>::empty() =~= kept@);
    kept
}

/// The functions that ran, as the first function and the rest give them.
pub proof fn lemma_executed_cons(functions: Seq<Function>)
    requires
        functions.len() > 0,
    ensures
        executed(functions) == if functions[0].count > 0 {
            seq![functions[0]] + executed(functions.drop_first())
        } else {
            executed(functions.drop_first())
        },
{
    let pred = |f: Function| f.count > 0;
    assert(functions =~= seq![functions[0]] + functions.drop_first());
    Seq::filter_distributes_over_add(seq![functions[0]], functions.drop_first(), pred);
    reveal(Seq::filter);
    assert(seq![functions[0]].drop_last() =~= Seq::<Function>::empty());
    assert(Seq::<Function>::empty().filter(pred) =~= Seq::<Function>::empty());
    assert(seq![functions[0]].filter(pred) =~= if functions[0].count > 0 {
        seq![functions[0]]
    } else {
        Seq::<Function>::empty()
    });
}

/// The name of a crate's directory without the version at its end: what
/// stands before the last hyphen, or all of it where there is none.
pub open spec fn unversioned(krate: Seq<char>) -> Seq<char> {
    match before_last(krate, '-') {
        Some(name) => name,
        None => krate,
    }
}

/// The module that the source file at `path` stands for, as the path of
/// names from the crate down.
///
/// The crate is the directory that holds the last `src` directory of the
/// path, named without its version. The modules are the directories and the
/// file below that `src` directory, the file without `.rs`, and `mod.rs`
/// left out. A path without a `src` directory stands for no module.
pub open spec fn mod_path_of(path: Seq<char>) -> Seq<Seq<char>> {
    let parts = pieces(path, "/src/"@);
    if path.len() == 0 || parts.len() < 2 {
        Seq::empty()
    } else {
        let modules = replaced(replaced(parts.last(), "mod.rs"@, Seq::empty()), ".rs"@, Seq::empty());
        let krate = pieces(parts[parts.len() - 2], seq!['/']).last();
        seq![unversioned(krate)] + non_empty(pieces(modules, seq!['/']))
    }
}

/// The module that the source file at `path` stands for.
pub fn parse_mod_from_str(path: &str) -> (modules: Vec<String>)
    ensures
        views(modules@) == mod_path_of(path@),
{
    proof {
        reveal_strlit("/src/");
        reveal_strlit("mod.rs");
        reveal_strlit(".rs");
        reveal_strlit("");
        reveal_strlit("/");
    }
    assert("/"@ =~= seq!['/']);
    assert(""@ =~= Seq::<char>::empty());
    let mut modules: Vec<String> = Vec::new();
    if path.is_empty() {
        assert(views(modules@) =~= Seq::<Seq<char>>::empty());
        return modules;
    }
    let parts = split(path, "/src/");
    if parts.len() < 2 {
        assert(views(modules@) =~= Seq::<Seq<char>>::empty());
        return modules;
    }
    let last = parts[parts.len() - 1].as_str();
    let remaining = parts[parts.len() - 2].as_str();
    assert(last@ == pieces(path@, "/src/"@).last());
    assert(remaining@ == pieces(path@, "/src/"@)[parts@.len() - 2]);
    let without_mod = replace(last, "mod.rs", "");
    let cleaned = replace(without_mod.as_str(), ".rs", "");
    let below = keep_non_empty(&split(cleaned.as_str(), "/"));
    let dirs = split(remaining, "/");
    proof {
        lemma_pieces_nonempty(remaining@, seq!['/'], 0, 0);
    }
    let krate = to_chars(dirs[dirs.len() - 1].as_str());
    assert(krate@ == pieces(remaining@, seq!['/']).last());
    let name = match strip_from_last(&krate, '-') {
        Some(head) => string_of(&head),
        None => string_of(&krate),
    };
    assert(name@ == unversioned(krate@));
    modules.push(name);
    let mut k: usize = 0;
    while k < below.len()
        invariant
            k <= below.len(),
            views(modules@) == seq![unversioned(krate@)] + views(below@).take(k as int),
        decreases below.len() - k,
    {
        let ghost before = views(modules@);
        modules.push(below[k].clone());
        assert(views(modules@) =~= before.push(below@[k as int]@));
        assert(views(below@).take(k + 1) =~= views(below@).take(k as int).push(below@[k as int]@));
        k += 1;
    }
    assert(views(below@).take(below@.len() as int) =~= views(below@));
    modules
}

/// The name of the profile data made of the raw profile at `profraw_path`.
pub open spec fn profdata_path_of(profraw_path: Seq<char>) -> Seq<char> {
    replaced(profraw_path, "profraw"@, "profdata"@)
}

/// The directory in which the coverage of `project` is gathered.
pub fn coverage_dir(current_dir: &str, project: &str) -> (dir: String)
    ensures
        dir@ == joined_path(joined_path(current_dir@, "coverage"@), project@),
{
    let all = join_path(current_dir, "coverage");
    join_path(all.as_str(), project)
}

/// The command that runs the benchmark `benchmark_id` of `executable` for
/// coverage, and the path of the raw profile it writes: the binary, started
/// in the benchmark's directory below `dir` with the filter that selects
/// this benchmark alone, writes the profile `profraw_name` there.
pub fn coverage_run_command(
    executable: &str,
    benchmark_id: &str,
    dir: &str,
    profraw_name: &str,
) -> (run: (CommandLine, String))
    ensures
        run.0@ == (CommandLineView {
            program: executable@,
            args: seq![anchored(benchmark_id@)],
            current_dir: Some(joined_path(dir@, benchmark_id@)),
            envs: seq![("MINICOV_PROFILE_FILE"@, profraw_name@)],
        }),
        run.1@ == joined_path(joined_path(dir@, benchmark_id@), profraw_name@),
{
    let bench_dir = join_path(dir, benchmark_id);
    let mut c = CommandLine::new(executable);
    c.current_dir(bench_dir.as_str());
    c.env("MINICOV_PROFILE_FILE", profraw_name);
    c.arg(benchmark_filter(benchmark_id).as_str());
    assert(c@.args =~= seq![anchored(benchmark_id@)]);
    assert(c@.envs =~= seq![("MINICOV_PROFILE_FILE"@, profraw_name@)]);
    let profraw = join_path(bench_dir.as_str(), profraw_name);
    (c, profraw)
}

/// The command that makes profile data of the raw profile at
/// `profraw_path`, and the path of that data.
pub fn merge_profdata_command(profraw_path: &str) -> (merge: (CommandLine, String))
    ensures
        merge.1@ == profdata_path_of(profraw_path@),
        merge.0@ == (CommandLineView {
            program: "llvm-profdata"@,
            args: seq!["merge"@, profraw_path@, "-o"@, profdata_path_of(profraw_path@)],
            current_dir: None,
            envs: Seq::empty(),
        }),
{
    proof {
        reveal_strlit("profraw");
    }
    let profdata = replace(profraw_path, "profraw", "profdata");
    let mut c = CommandLine::new("llvm-profdata");
    c.arg("merge");
    c.arg(profraw_path);
    c.arg("-o");
    c.arg(profdata.as_str());
    assert(c@.args =~= seq!["merge"@, profraw_path@, "-o"@, profdata_path_of(profraw_path@)]);
    (c, profdata)
}

/// The command that writes the coverage report of `executable` from the
/// profile data at `profdata_path`.
pub fn export_profdata_command(profdata_path: &str, executable: &str) -> (c: CommandLine)
    ensures
        c@ == (CommandLineView {
            program: "llvm-cov"@,
            args: seq!["export"@, "--instr-profile"@, profdata_path@, executable@],
            current_dir: None,
            envs: Seq::empty(),
        }),
{
    let mut c = CommandLine::new("llvm-cov");
    c.arg("export");
    c.arg("--instr-profile");
    c.arg(profdata_path);
    c.arg(executable);
    assert(c@.args =~= seq!["export"@, "--instr-profile"@, profdata_path@, executable@]);
    c
}

/// The path of the coverage report kept for the profile data at
/// `profdata_path`.
pub fn coverage_report_path(profdata_path: &str) -> (path: String)
    ensures
        path@ == replaced(profdata_path@, "profdata"@, "json"@),
{
    proof {
        reveal_strlit("profdata");
    }
    replace(profdata_path, "profdata", "json")
}

/// The path of the table of language features kept for the raw profile at
/// `profraw_path`.
pub fn language_features_path(profraw_path: &str) -> (path: String)
    ensures
        path@ == replaced(profraw_path@, "profraw"@, "csv"@),
{
    proof {
        reveal_strlit("profraw");
    }
    replace(profraw_path, "profraw", "csv")
}

} // verus!
