use energy_harness::project::{
    bench_list_command, find_benchmarks_for_project, get_workdir_for_project, parse_bench_ids,
    place_product, BenchFile, BenchProduct, Listing, PlacedBench,
};

fn product(name: &str, path: Option<&str>, features: &[&str]) -> BenchProduct {
    BenchProduct {
        name: name.to_string(),
        path: path.map(String::from),
        required_features: features.iter().map(|f| f.to_string()).collect(),
    }
}

fn placed(name: &str, path: &str, features: &[&str]) -> PlacedBench {
    PlacedBench {
        name: name.to_string(),
        path: path.to_string(),
        required_features: features.iter().map(|f| f.to_string()).collect(),
    }
}

fn listing(name: &str, path: &str, features: &[&str], output: &str) -> Listing {
    Listing { target: placed(name, path, features), output: output.to_string() }
}

fn bench_file(source: &str) -> BenchFile {
    BenchFile {
        project: "p".to_string(),
        name: "rust-prometheus bench".to_string(),
        source: source.to_string(),
        features: Vec::new(),
        benches: Vec::new(),
    }
}

#[test]
fn get_workdir_is_the_directory_of_the_source() {
    assert_eq!(bench_file("benches/chrono.rs").get_workdir(), "benches");
    assert_eq!(bench_file("member/benches/a.rs").get_workdir(), "member/benches");
    assert_eq!(bench_file("chrono.rs").get_workdir(), "");
    assert_eq!(bench_file("/").get_workdir(), "/");
    assert_eq!(bench_file("").get_workdir(), "");
}

#[test]
fn get_clean_name_is_an_identifier() {
    assert_eq!(bench_file("x").get_clean_name(), "rust_prometheus_bench");
}

#[test]
fn get_workdir_for_project_lies_below_projects() {
    assert_eq!(get_workdir_for_project("/home/u/run", "chrono"), "/home/u/run/projects/chrono");
    assert_eq!(get_workdir_for_project("", "chrono"), "projects/chrono");
}

#[test]
fn place_product_fills_in_the_path() {
    let own = place_product(&product("chrono", None, &[]), None);
    assert_eq!(own.path, "benches/chrono");
    let declared = place_product(&product("chrono", Some("perf/run.rs"), &["x"]), None);
    assert_eq!(declared.path, "perf/run.rs");
    assert_eq!(declared.required_features, vec!["x"]);
    let member = place_product(&product("enc", None, &[]), Some("codec"));
    assert_eq!(member.path, "codec/benches/enc");
    let member_declared = place_product(&product("enc", Some("b/enc.rs"), &[]), Some("codec"));
    assert_eq!(member_declared.path, "codec/b/enc.rs");
    assert_eq!(member_declared.name, "enc");
}

#[test]
fn bench_list_command_lists_one_target() {
    let c = bench_list_command("/w/chrono", &placed("chrono", "benches/chrono.rs", &[]));
    assert_eq!(c.program, "cargo");
    assert_eq!(c.args, vec!["bench", "--bench", "chrono", "--", "--list"]);
    assert_eq!(c.current_dir, Some("/w/chrono/benches".to_string()));
    let c = bench_list_command("/w/p", &placed("b", "x/b.rs", &["f1", "f2"]));
    assert_eq!(c.args, vec!["bench", "--features", "f1,f2", "--bench", "b", "--", "--list"]);
    assert_eq!(c.current_dir, Some("/w/p/x".to_string()));
}

#[test]
fn parse_bench_ids_reads_the_bench_lines() {
    let listing = "bench_a: bench\ngroup/with space: bench\nsome_test: test\n\n2 benchmarks\n";
    assert_eq!(parse_bench_ids(listing), vec!["bench_a", "group/with space"]);
    assert_eq!(parse_bench_ids(""), Vec::<String>::new());
    assert_eq!(parse_bench_ids(": bench"), Vec::<String>::new());
    assert_eq!(parse_bench_ids("x: bench "), Vec::<String>::new());
    assert_eq!(parse_bench_ids("x: bench\r\ny: bench"), vec!["y"]);
    assert_eq!(parse_bench_ids("a: bench: bench"), vec!["a: bench"]);
}

#[test]
fn find_benchmarks_for_project_leaves_out_empty_targets() {
    let listings = vec![
        listing("dates", "benches/dates.rs", &["f"], "a: bench\nb: bench\n"),
        listing("empty", "benches/empty.rs", &[], "nothing"),
        listing("times", "benches/times.rs", &[], "c: bench"),
    ];
    let project = find_benchmarks_for_project("chrono", &listings);
    assert_eq!(project.name, "chrono");
    assert_eq!(project.bench_files.len(), 2);
    assert_eq!(project.bench_files[0].project, "chrono");
    assert_eq!(project.bench_files[0].name, "dates");
    assert_eq!(project.bench_files[0].source, "benches/dates.rs");
    assert_eq!(project.bench_files[0].features, vec!["f"]);
    assert_eq!(project.bench_files[0].benches, vec!["a", "b"]);
    assert_eq!(project.bench_files[1].name, "times");
    assert_eq!(project.bench_files[1].benches, vec!["c"]);
    let none = find_benchmarks_for_project("x", &Vec::new());
    assert!(none.bench_files.is_empty());
}
