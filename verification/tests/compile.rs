use energy_harness::compile::{
    compile_command, compile_for_coverage, compile_for_measurement, first_executable,
    output_lines, CompilerOutputElement,
};
use energy_harness::project::BenchFile;

fn bench(features: &[&str]) -> BenchFile {
    BenchFile {
        project: "chrono".to_string(),
        name: "dates".to_string(),
        source: "benches/dates.rs".to_string(),
        features: features.iter().map(|f| f.to_string()).collect(),
        benches: vec!["a".to_string()],
    }
}

fn element(reason: &str, executable: Option<&str>) -> CompilerOutputElement {
    CompilerOutputElement {
        reason: reason.to_string(),
        package_id: None,
        manifest_path: None,
        target: None,
        profile: None,
        features: None,
        filenames: None,
        executable: executable.map(String::from),
        fresh: None,
        linked_libs: None,
        linked_paths: None,
        cfgs: None,
        env: None,
        out_dir: None,
        success: None,
    }
}

#[test]
fn output_lines_drops_empty_lines() {
    assert_eq!(output_lines("{\"a\":1}\n\n{\"b\":2}\n"), vec!["{\"a\":1}", "{\"b\":2}"]);
    assert_eq!(output_lines(""), Vec::<String>::new());
    assert_eq!(output_lines("one"), vec!["one"]);
    assert_eq!(output_lines(" \n"), vec![" "]);
}

#[test]
fn first_executable_is_the_first_named() {
    let elements = vec![
        element("compiler-artifact", None),
        element("compiler-artifact", Some("/t/deps/dates-1")),
        element("compiler-artifact", Some("/t/deps/dates-2")),
        element("build-finished", None),
    ];
    assert_eq!(first_executable(&elements), Some("/t/deps/dates-1".to_string()));
    assert_eq!(first_executable(&elements[..1].to_vec()), None);
    assert_eq!(first_executable(&Vec::new()), None);
}

#[test]
fn compile_command_builds_without_running() {
    let c = compile_command(&bench(&["own"]), "/w/chrono", None, &Vec::new(), &Vec::new(), &Vec::new());
    assert_eq!(c.program, "cargo");
    assert_eq!(
        c.args,
        vec!["bench", "--bench", "dates", "--no-run", "--message-format=json", "--features", "own"]
    );
    assert_eq!(c.current_dir, Some("/w/chrono".to_string()));
    assert!(c.envs.is_empty());
    let c = compile_command(&bench(&[]), "/w", None, &Vec::new(), &Vec::new(), &Vec::new());
    assert_eq!(c.args, vec!["bench", "--bench", "dates", "--no-run", "--message-format=json"]);
}

#[test]
fn compile_command_takes_toolchain_arguments_and_features() {
    let c = compile_command(
        &bench(&["own"]),
        "/w",
        Some("+nightly"),
        &vec!["-Zx".to_string()],
        &vec!["extra".to_string()],
        &vec![("K".to_string(), "V".to_string())],
    );
    assert_eq!(
        c.args,
        vec![
            "+nightly",
            "bench",
            "--bench",
            "dates",
            "--no-run",
            "--message-format=json",
            "-Zx",
            "--features",
            "extra,own",
        ]
    );
    assert_eq!(c.envs, vec![("K".to_string(), "V".to_string())]);
}

#[test]
fn compile_for_measurement_keeps_debug_information() {
    let c = compile_for_measurement(&bench(&[]), "/w");
    assert_eq!(c.args, vec!["bench", "--bench", "dates", "--no-run", "--message-format=json"]);
    assert_eq!(
        c.envs,
        vec![
            ("CARGO_PROFILE_BENCH_DEBUG".to_string(), "true".to_string()),
            ("CARGO_PROFILE_BENCH_LTO".to_string(), "no".to_string()),
        ]
    );
}

#[test]
fn compile_for_coverage_instruments() {
    let c = compile_for_coverage(&bench(&["own"]), "/w");
    assert_eq!(c.args[0], "+nightly");
    assert_eq!(c.args[6], "-Zbuild-std");
    assert_eq!(c.args[7], "--target=x86_64-unknown-linux-gnu");
    assert_eq!(c.args[9], "coverage,own");
    assert_eq!(c.envs.len(), 4);
    assert_eq!(
        c.envs[0],
        (
            "RUSTFLAGS".to_string(),
            "-Csymbol-mangling-version=v0 -g -Cinstrument-coverage -Zno-profiler-runtime"
                .to_string()
        )
    );
    assert_eq!(c.envs[3], ("CARGO_PROFILE_BENCH_OPT_LEVEL".to_string(), "0".to_string()));
}
