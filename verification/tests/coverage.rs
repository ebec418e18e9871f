use energy_harness::coverage::{
    filter_non_zero, parse_mod_from_str, Function, LineColumn, Region, Span,
};
use energy_harness::features::FeatureCounter;

fn region(ls: i64, cs: i64, le: i64, ce: i64) -> Region {
    Region {
        line_start: ls,
        column_start: cs,
        line_end: le,
        column_end: ce,
        execution_count: 1,
        file_id: 0,
        expanded_file_id: 0,
        kind: 0,
    }
}

fn span(ls: usize, cs: usize, le: usize, ce: usize) -> Span {
    Span { start: LineColumn { line: ls, column: cs }, end: LineColumn { line: le, column: ce } }
}

fn function(name: &str, count: i64) -> Function {
    Function {
        branches: Vec::new(),
        count,
        filenames: Vec::new(),
        name: name.to_string(),
        regions: Vec::new(),
    }
}

#[test]
fn test_string_add() {}

#[test]
fn test_parse_mod_from_str() {
    let vec = parse_mod_from_str("/home/rens/.rustup/toolchains/nightly-x86_64-unknown-linux-gnu/lib/rustlib/src/rust/library/core/src/iter/adapters/map.rs");
    assert_eq!(vec, vec!["core", "iter", "adapters", "map"]);

    let vec = parse_mod_from_str("/home/rens/.cargo/registry/src/index.crates.io-6f17d22bba15001f/hashbrown-0.13.1/src/map.rs");
    assert_eq!(vec, vec!["hashbrown", "map"]);

    let vec = parse_mod_from_str("/home/rens/.rustup/toolchains/nightly-x86_64-unknown-linux-gnu/lib/rustlib/src/rust/library/core/src/hash/sip.rs");
    assert_eq!(vec, vec!["core", "hash", "sip"]);

    let vec = parse_mod_from_str("/home/rens/.rustup/toolchains/nightly-x86_64-unknown-linux-gnu/lib/rustlib/src/rust/library/std/src/sys/unix/path.rs");
    assert_eq!(vec, vec!["std", "sys", "unix", "path"]);

    let vec = parse_mod_from_str("/home/rens/.cargo/registry/src/index.crates.io-6f17d22bba15001f/regex-1.7.1/src/literal/mod.rs");
    assert_eq!(vec, vec!["regex", "literal"]);
}

#[test]
fn parse_mod_from_str_without_source_directory() {
    assert_eq!(parse_mod_from_str(""), Vec::<String>::new());
    assert_eq!(parse_mod_from_str("lib.rs"), Vec::<String>::new());
    assert_eq!(parse_mod_from_str("/tmp/project/lib.rs"), Vec::<String>::new());
}

#[test]
fn parse_mod_from_str_keeps_hyphens_before_the_version() {
    assert_eq!(parse_mod_from_str("/r/rand-core-0.6.4/src/os.rs"), vec!["rand-core", "os"]);
    assert_eq!(parse_mod_from_str("/r/serde/src/de/mod.rs"), vec!["serde", "de"]);
    assert_eq!(parse_mod_from_str("/r/serde/src/lib.rs"), vec!["serde", "lib"]);
}

#[test]
fn region_bounds_are_its_corners() {
    let r = region(3, 5, 7, 23);
    assert_eq!(r.start(), LineColumn { line: 3, column: 5 });
    assert_eq!(r.end(), LineColumn { line: 7, column: 23 });
}

#[test]
fn lte_orders_by_line_then_column() {
    let a = LineColumn { line: 1, column: 9 };
    let b = LineColumn { line: 2, column: 0 };
    assert!(Region::lte(&a, &b));
    assert!(!Region::lte(&b, &a));
    assert!(Region::lte(&a, &a));
    assert!(Region::lte(&LineColumn { line: 2, column: 0 }, &LineColumn { line: 2, column: 1 }));
    assert!(!Region::lte(&LineColumn { line: 2, column: 2 }, &LineColumn { line: 2, column: 1 }));
}

#[test]
fn region_contains_contained_and_overlaps() {
    let r = region(3, 5, 3, 23);
    assert!(r.contains_span(&span(3, 5, 3, 23)));
    assert!(r.contains_span(&span(3, 6, 3, 10)));
    assert!(!r.contains_span(&span(3, 4, 3, 10)));
    assert!(!r.contains_span(&span(3, 6, 4, 0)));
    assert!(r.contained_in_span(&span(1, 0, 9, 0)));
    assert!(!r.contained_in_span(&span(3, 6, 9, 0)));
    assert!(r.overlaps_span(&span(1, 0, 3, 5)));
    assert!(r.overlaps_span(&span(3, 23, 4, 0)));
    assert!(!r.overlaps_span(&span(1, 0, 3, 4)));
    assert!(!r.overlaps_span(&span(3, 24, 4, 0)));
}

#[test]
fn filter_non_zero_keeps_what_ran() {
    let kept = filter_non_zero(vec![
        function("a", 0),
        function("b", 2),
        function("c", -1),
        function("d", 1),
        function("e", 0),
    ]);
    let names: Vec<&str> = kept.iter().map(|f| f.name.as_str()).collect();
    assert_eq!(names, vec!["b", "d"]);
    assert!(filter_non_zero(Vec::new()).is_empty());
}

#[test]
fn get_demangled_reads_the_symbol() {
    assert_eq!(function("_ZN3foo3barE", 1).get_demangled(), "foo::bar");
    assert_eq!(function("_ZN4testE", 1).get_demangled(), "test");
    assert_eq!(function("not mangled", 1).get_demangled(), "not mangled");
    let mut f = function("_ZN3foo3barE", 4);
    f.demangle();
    assert_eq!(f.name, "foo::bar");
    assert_eq!(f.count, 4);
}

#[test]
fn count_enters_with_zero_then_raises() {
    let mut counter = FeatureCounter::new();
    assert_eq!(counter.get("count_if"), None);
    counter.count("if", 5);
    assert_eq!(counter.get("count_if"), Some(0));
    assert_eq!(counter.get("once_if"), Some(0));
    counter.count("if", 5);
    counter.count("if", 2);
    assert_eq!(counter.get("count_if"), Some(2));
    assert_eq!(counter.get("once_if"), Some(7));
    assert_eq!(counter.get("count_else"), None);
    assert_eq!(counter.get("if"), None);
}

#[test]
fn count_stops_at_the_largest_count() {
    let mut counter = FeatureCounter::new();
    counter.count("loop_for", 0);
    counter.count("loop_for", u64::MAX);
    counter.count("loop_for", 9);
    assert_eq!(counter.get("once_loop_for"), Some(u64::MAX));
    assert_eq!(counter.get("count_loop_for"), Some(2));
}

#[test]
fn add_or_insert_adds_from_the_first() {
    let mut counter = FeatureCounter::new();
    counter.add_or_insert("nested_loop", 1);
    counter.add_or_insert("nested_loop", 1);
    counter.add_or_insert("other", 40);
    assert_eq!(counter.get("nested_loop"), Some(2));
    assert_eq!(counter.get("other"), Some(40));
    counter.add_or_insert("other", u64::MAX);
    assert_eq!(counter.get("other"), Some(u64::MAX));
    assert_eq!(counter.get("nested_loop"), Some(2));
}
