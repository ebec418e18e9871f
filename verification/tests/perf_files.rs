use energy_harness::collect::{cargo_clean_command, move_data_commands};
use energy_harness::coverage::{
    coverage_dir, coverage_report_path, coverage_run_command, export_profdata_command,
    language_features_path, merge_profdata_command,
};
use energy_harness::perf_files::{
    classify_file, merge_energy_logs, parse_energy_readings, CounterOverflow, EnergyLog,
    EnergyReading, MeasurementFile,
};
use energy_harness::project::{cargo_check_command, git_clone_command, TargetProject};
use energy_harness::scanner::symbol_list_command;

fn reading(ts: i64, energy: i64) -> EnergyReading {
    EnergyReading { ts, energy }
}

fn log(name: &str, readings: &[EnergyReading]) -> EnergyLog {
    EnergyLog { name: name.to_string(), readings: readings.to_vec() }
}

#[test]
fn classify_file_goes_by_the_name() {
    assert_eq!(classify_file("simple_1m_1681874840353873.txt"), MeasurementFile::Power);
    assert_eq!(classify_file("simple.profraw.2023042100382591"), MeasurementFile::Profile);
    assert_eq!(classify_file("x.profraw.1.txt"), MeasurementFile::Power);
    assert_eq!(classify_file("notes.md"), MeasurementFile::Other);
    assert_eq!(classify_file("x.profraw"), MeasurementFile::Other);
    assert_eq!(classify_file(""), MeasurementFile::Other);
    assert_eq!(classify_file(".txt"), MeasurementFile::Power);
}

#[test]
fn parse_energy_readings_takes_the_difference() {
    let text = "1681874840353\n1000\n1250\n1681874841353\n1250\n1200\n";
    assert_eq!(
        parse_energy_readings(text),
        Ok(vec![reading(1681874840353, 250), reading(1681874841353, -50)])
    );
    assert_eq!(parse_energy_readings(""), Ok(Vec::new()));
    assert_eq!(parse_energy_readings("no readings here"), Ok(Vec::new()));
}

#[test]
fn parse_energy_readings_finds_readings_anywhere() {
    assert_eq!(
        parse_energy_readings("x91681874840353\n10\n20y"),
        Ok(vec![reading(1681874840353, 10)])
    );
    assert_eq!(parse_energy_readings("1681874840353\n1\n20"), Ok(Vec::new()));
    assert_eq!(parse_energy_readings("1681874840353\n10\n2"), Ok(Vec::new()));
    assert_eq!(parse_energy_readings("1681874840353\n10 \n20"), Ok(Vec::new()));
    assert_eq!(parse_energy_readings("1681874840353\n100000000000000000000\n20"), Ok(Vec::new()));
    assert_eq!(
        parse_energy_readings("1681874840353\n10\n20\n1681874840354\n30\n41"),
        Ok(vec![reading(1681874840353, 10), reading(1681874840354, 11)])
    );
    assert_eq!(
        parse_energy_readings("1681874840353\n10\n201681874840354\n30\n41"),
        Ok(vec![reading(1681874840353, 201681874840344)])
    );
    assert_eq!(
        parse_energy_readings("1681874840353\n10\n20\n\n1681874840354\n30\n41"),
        Ok(vec![reading(1681874840353, 10), reading(1681874840354, 11)])
    );
}

#[test]
fn parse_energy_readings_takes_twenty_digits_at_most() {
    assert_eq!(
        parse_energy_readings("1681874840353\n10\n000000000000000000259"),
        Ok(vec![reading(1681874840353, 15)])
    );
    assert_eq!(
        parse_energy_readings("1681874840353\n00\n09223372036854775807"),
        Ok(vec![reading(1681874840353, i64::MAX)])
    );
}

#[test]
fn parse_energy_readings_refuses_counters_beyond_range() {
    assert_eq!(
        parse_energy_readings("1681874840353\n10\n20\n1681874840354\n10\n9223372036854775808"),
        Err(CounterOverflow { reading: 1 })
    );
    assert_eq!(
        parse_energy_readings("1681874840353\n99999999999999999999\n20"),
        Err(CounterOverflow { reading: 0 })
    );
}

#[test]
fn merge_energy_logs_joins_logs_of_one_benchmark() {
    let logs = vec![
        log("a", &[reading(1, 10)]),
        log("b", &[reading(2, 20), reading(3, 30)]),
        log("a", &[reading(4, 40)]),
        log("c", &[]),
        log("a", &[reading(5, 50)]),
    ];
    let merged = merge_energy_logs(&logs);
    let got: Vec<(&str, &[EnergyReading])> =
        merged.iter().map(|l| (l.name.as_str(), l.readings.as_slice())).collect();
    assert_eq!(
        got,
        vec![
            ("a", &[reading(1, 10), reading(4, 40), reading(5, 50)][..]),
            ("b", &[reading(2, 20), reading(3, 30)][..]),
            ("c", &[][..]),
        ]
    );
    assert!(merge_energy_logs(&Vec::new()).is_empty());
}

#[test]
fn symbol_list_command_lists_all_symbols() {
    let c = symbol_list_command("/t/exe");
    assert_eq!((c.program.as_str(), c.args), ("nm", vec!["-a".to_string(), "/t/exe".to_string()]));
}

#[test]
fn git_clone_command_takes_the_tag() {
    let project = TargetProject {
        name: "chrono".to_string(),
        repo_url: "https://example.org/chrono.git".to_string(),
        repo_tag: "v0.4.24".to_string(),
    };
    let c = git_clone_command("/run", &project);
    assert_eq!(c.program, "git");
    assert_eq!(
        c.args,
        vec!["clone", "https://example.org/chrono.git", "--depth", "1", "--branch", "v0.4.24"]
    );
    assert_eq!(c.current_dir, Some("/run/projects".to_string()));
}

#[test]
fn cargo_check_and_clean_commands() {
    assert_eq!(cargo_check_command("/w", true).args, vec!["check", "--benches", "--quiet"]);
    assert_eq!(cargo_check_command("/w", false).args, vec!["check", "--benches"]);
    assert_eq!(cargo_check_command("/w", false).current_dir, Some("/w".to_string()));
    let clean = cargo_clean_command("/w");
    assert_eq!((clean.program.as_str(), clean.args), ("cargo", vec!["clean".to_string()]));
}

#[test]
fn move_data_commands_make_then_move() {
    let (make, mv) = move_data_commands("/run/projects/chrono", "/run", "1681874840353", "chrono");
    assert_eq!(make.program, "mkdir");
    assert_eq!(make.args, vec!["-p", "/run/data/1681874840353/chrono"]);
    assert_eq!(mv.program, "mv");
    assert_eq!(
        mv.args,
        vec!["/run/projects/chrono/target/criterion", "/run/data/1681874840353/chrono"]
    );
}

#[test]
fn coverage_commands_follow_the_profile() {
    assert_eq!(coverage_dir("/run", "chrono"), "/run/coverage/chrono");
    let (run, profraw) = coverage_run_command("/t/exe", "parse", "/run/coverage/chrono", "20230421_003825.profraw");
    assert_eq!(run.program, "/t/exe");
    assert_eq!(run.args, vec!["^parse$"]);
    assert_eq!(run.current_dir, Some("/run/coverage/chrono/parse".to_string()));
    assert_eq!(
        run.envs,
        vec![("MINICOV_PROFILE_FILE".to_string(), "20230421_003825.profraw".to_string())]
    );
    assert_eq!(profraw, "/run/coverage/chrono/parse/20230421_003825.profraw");
    let (merge, profdata) = merge_profdata_command(&profraw);
    assert_eq!(profdata, "/run/coverage/chrono/parse/20230421_003825.profdata");
    assert_eq!(merge.program, "llvm-profdata");
    assert_eq!(merge.args, vec!["merge", profraw.as_str(), "-o", profdata.as_str()]);
    let export = export_profdata_command(&profdata, "/t/exe");
    assert_eq!(export.program, "llvm-cov");
    assert_eq!(export.args, vec!["export", "--instr-profile", profdata.as_str(), "/t/exe"]);
    assert_eq!(coverage_report_path(&profdata), "/run/coverage/chrono/parse/20230421_003825.json");
    assert_eq!(language_features_path(&profraw), "/run/coverage/chrono/parse/20230421_003825.csv");
}
