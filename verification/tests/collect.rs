use energy_harness::collect::{
    benchmark_filter, criterion_bench_command, queue_group, run_label, Benchmark, QueuedRun,
    RunQueue,
};
use energy_harness::command::CommandLine;
use energy_harness::project::BenchFile;
use energy_harness::schedule::shuffle;

fn group(name: &str, benches: &[&str]) -> BenchFile {
    BenchFile {
        project: "chrono".to_string(),
        name: name.to_string(),
        source: format!("benches/{}.rs", name),
        features: Vec::new(),
        benches: benches.iter().map(|b| b.to_string()).collect(),
    }
}

#[test]
fn benchmark_filter_is_anchored() {
    assert_eq!(benchmark_filter("bench_datetime_from_str"), "^bench_datetime_from_str$");
    assert_eq!(benchmark_filter(""), "^$");
    assert_eq!(benchmark_filter("group/id 1"), "^group/id 1$");
    assert_eq!(benchmark_filter("^x$"), "^^x$$");
}

#[test]
fn criterion_bench_command_pins_and_filters() {
    let c = criterion_bench_command("/tmp/exe", "parse", "/work/chrono", 30, 5, 300);
    assert_eq!(c.program, "cset");
    assert_eq!(
        c.args,
        vec![
            "proc",
            "--exec",
            "BENCH",
            "--",
            "/tmp/exe",
            "--bench",
            "--measurement-time",
            "30",
            "--warm-up-time",
            "5",
            "--sample-size",
            "300",
            "^parse$",
        ]
    );
    assert_eq!(c.current_dir, Some("/work/chrono".to_string()));
    assert!(c.envs.is_empty());
}

#[test]
fn run_label_names_project_group_and_benchmark() {
    assert_eq!(run_label("chrono", "chrono", "parse"), "chrono/chrono/parse");
}

#[test]
fn to_path_buf_normalizes_each_part() {
    let b = Benchmark::new(
        "rust prometheus".to_string(),
        "text/encode".to_string(),
        "benches".to_string(),
        "encode-1 k".to_string(),
        Vec::new(),
    );
    assert_eq!(b.to_path_buf(), "rust_prometheus/text_encode/encode_1_k");
    assert_eq!(b.to_string(), "rust_prometheus/text_encode/encode_1_k");
}

#[test]
fn to_path_buf_agrees_with_the_standard_library() {
    let b = Benchmark::new(
        "a".to_string(),
        "".to_string(),
        "p".to_string(),
        "c".to_string(),
        vec!["f".to_string()],
    );
    let expected = std::path::Path::new("a").join("").join("c");
    assert_eq!(b.to_path_buf(), expected.to_str().unwrap());
}

#[test]
fn queue_group_queues_each_benchmark_in_order() {
    let mut queue: Vec<QueuedRun> = Vec::new();
    queue_group(&mut queue, "/exe", "/work", "chrono", &group("dates", &["a", "b"]), 1, 2, 3);
    queue_group(&mut queue, "/exe2", "/work", "chrono", &group("times", &["c"]), 1, 2, 3);
    let labels: Vec<&str> = queue.iter().map(|r| r.label.as_str()).collect();
    assert_eq!(labels, vec!["chrono/dates/a", "chrono/dates/b", "chrono/times/c"]);
    assert_eq!(queue[1].command.args[12], "^b$");
    assert_eq!(queue[2].command.args[4], "/exe2");
    queue_group(&mut queue, "/exe", "/work", "chrono", &group("none", &[]), 1, 2, 3);
    assert_eq!(queue.len(), 3);
}

#[test]
fn shuffle_is_a_permutation() {
    let mut items: Vec<u32> = (0..1000).collect();
    shuffle(&mut items);
    assert_eq!(items.len(), 1000);
    assert_ne!(items, (0..1000).collect::<Vec<u32>>());
    items.sort();
    assert_eq!(items, (0..1000).collect::<Vec<u32>>());
    let mut doubles = vec![7, 7, 1, 7];
    shuffle(&mut doubles);
    doubles.sort();
    assert_eq!(doubles, vec![1, 7, 7, 7]);
    let mut none: Vec<u8> = Vec::new();
    shuffle(&mut none);
    assert!(none.is_empty());
}

#[test]
fn run_queue_hands_out_each_run_once() {
    let mut runs: Vec<QueuedRun> = Vec::new();
    queue_group(&mut runs, "/exe", "/work", "p", &group("g", &["a", "b", "c", "d"]), 1, 1, 10);
    let mut queue = RunQueue::new(runs);
    assert_eq!(queue.pending.len(), 4);
    let mut seen: Vec<String> = Vec::new();
    while let Some(run) = queue.next() {
        seen.push(run.label);
    }
    assert!(queue.next().is_none());
    seen.sort();
    assert_eq!(seen, vec!["p/g/a", "p/g/b", "p/g/c", "p/g/d"]);
}

#[test]
fn run_queue_reports_failures_once_at_the_end() {
    let mut queue = RunQueue::new(Vec::new());
    assert_eq!(queue.report(), None);
    let mut ok = CommandLine::new("true");
    ok.arg("x");
    let mut bad = CommandLine::new("cset");
    bad.arg("proc");
    bad.arg("^a b$");
    queue.record(&ok, true);
    assert_eq!(queue.report(), None);
    queue.record(&bad, false);
    queue.record(&CommandLine::new("false"), false);
    assert_eq!(
        queue.report(),
        Some("The following benchmarks failed:\ncset proc ^a b$\nfalse".to_string())
    );
    assert_eq!(queue.failures.len(), 2);
}

#[test]
fn command_line_is_built_in_order() {
    let mut c = CommandLine::new("cargo");
    c.arg("bench");
    c.args(&vec!["--bench".to_string(), "x".to_string()]);
    c.env("A", "1");
    c.env("B", "2");
    c.current_dir("/tmp");
    assert_eq!(c.args, vec!["bench", "--bench", "x"]);
    assert_eq!(c.envs, vec![("A".to_string(), "1".to_string()), ("B".to_string(), "2".to_string())]);
    assert_eq!(c.current_dir, Some("/tmp".to_string()));
    assert_eq!(c.render(), "cargo bench --bench x");
    assert_eq!(CommandLine::new("ls").render(), "ls");
}
