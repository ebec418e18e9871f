use energy_harness::perf_files::{perffile_to_benchname, powerfile_to_benchname, PerfFile, PowerFile};
use energy_harness::stats::{
    bootstrap, group_by_event, is_probe_event, normalize_perf_output, percentile_rank, resample,
    Rank, BOOTSTRAP_SAMPLES, CONFIDENCE_HIGH, CONFIDENCE_LOW, FIRST_QUARTILE, MEDIAN,
    THIRD_QUARTILE,
};

fn percentile(sorted: &[f64], permille: u32) -> f64 {
    let rank = percentile_rank(sorted.len(), permille);
    let lo = sorted[rank.lower];
    let hi = sorted[rank.upper];
    lo + (hi - lo) * (rank.weight as f64 / 1000.0)
}

#[test]
fn test_powerfile_to_benchname() {
    let PowerFile { name, ts } =
        powerfile_to_benchname("simple_1m_zeroes_1m_1681874840353873.txt").unwrap();
    assert_eq!(name, "simple_1m_zeroes_1m");
    assert_eq!(ts, 1681874840353873_i64)
}

#[test]
fn test_perffile_to_benchname() {
    let PerfFile { name, ts } =
        perffile_to_benchname("simple_1m_ones_1m.profraw.2023042100382591").unwrap();
    assert_eq!(name, "simple_1m_ones_1m");
    assert_eq!(ts, 2023042100382591_i64);
}

#[test]
fn test_perf_script() {
    let data = "/home/rens/";
    assert!(perffile_to_benchname(data).is_none());
}

#[test]
fn powerfile_name_round_trips() {
    for (name, stamp) in [("simple_1m", "1681874840353873"), ("a", "0000000000000042"), ("", "9999999999999999")] {
        let file_name = format!("{}_{}.txt", name, stamp);
        let file = powerfile_to_benchname(&file_name).unwrap();
        assert_eq!(file.name, name);
        assert_eq!(file.ts, stamp.parse::<i64>().unwrap());
        assert_eq!(format!("{}_{:016}.txt", file.name, file.ts), file_name);
    }
}

#[test]
fn powerfile_to_benchname_takes_the_shortest_name() {
    let file = powerfile_to_benchname("a_1111111111111111.txt_2222222222222222.txt").unwrap();
    assert_eq!(file.name, "a");
    assert_eq!(file.ts, 1111111111111111);
    let file = powerfile_to_benchname("x_1111111111111111-txt").unwrap();
    assert_eq!(file.name, "x");
    let file = powerfile_to_benchname("first\nsecond_1111111111111111.txt").unwrap();
    assert_eq!(file.name, "second");
}

#[test]
fn powerfile_to_benchname_rejects_other_names() {
    assert!(powerfile_to_benchname("").is_none());
    assert!(powerfile_to_benchname("a_123456789012345.txt").is_none());
    assert!(powerfile_to_benchname("a-1234567890123456.txt").is_none());
    assert!(powerfile_to_benchname("a_1234567890123456.tx").is_none());
    assert!(powerfile_to_benchname("a_1234567890123456\ntxt").is_none());
    assert!(powerfile_to_benchname("a_12345678901234５6.txt").is_none());
}

#[test]
fn perffile_to_benchname_rejects_other_names() {
    assert!(perffile_to_benchname("x.profraw.123").is_none());
    assert!(perffile_to_benchname("profraw.1234567890123456").is_none());
    assert!(perffile_to_benchname("x.profdata.1234567890123456").is_none());
    let file = perffile_to_benchname("x.profraw.12345678901234567").unwrap();
    assert_eq!((file.name.as_str(), file.ts), ("x", 1234567890123456));
    let file = perffile_to_benchname("_profraw_0000000000000007").unwrap();
    assert_eq!((file.name.as_str(), file.ts), ("", 7));
}

#[test]
fn percentile_rank_follows_the_formula() {
    assert_eq!(percentile_rank(5, MEDIAN), Rank { lower: 2, upper: 3, weight: 0 });
    assert_eq!(percentile_rank(4, MEDIAN), Rank { lower: 1, upper: 2, weight: 500 });
    assert_eq!(percentile_rank(4, FIRST_QUARTILE), Rank { lower: 0, upper: 1, weight: 750 });
    assert_eq!(percentile_rank(4, THIRD_QUARTILE), Rank { lower: 2, upper: 3, weight: 250 });
    assert_eq!(percentile_rank(10000, CONFIDENCE_HIGH), Rank { lower: 9949, upper: 9950, weight: 5 });
    assert_eq!(percentile_rank(10000, CONFIDENCE_LOW), Rank { lower: 49, upper: 50, weight: 995 });
    assert_eq!(percentile_rank(1, 700), Rank { lower: 0, upper: 0, weight: 0 });
    assert_eq!(percentile_rank(3, 0), Rank { lower: 0, upper: 1, weight: 0 });
    assert_eq!(percentile_rank(3, 1000), Rank { lower: 2, upper: 2, weight: 0 });
    let big = percentile_rank(usize::MAX, 999);
    assert!(big.lower < big.upper && big.upper < usize::MAX);
}

#[test]
fn percentile_interpolates_between_samples() {
    let data = [1.0, 2.0, 3.0, 4.0];
    assert_eq!(percentile(&data, MEDIAN), 2.5);
    assert_eq!(percentile(&data, FIRST_QUARTILE), 1.75);
    assert_eq!(percentile(&data, THIRD_QUARTILE), 3.25);
    assert_eq!(percentile(&[77.0], 300), 77.0);
}

#[test]
fn percentile_is_monotonic_and_bounded() {
    let data = [77.0, 87.0, 88.0, 114.0, 151.0, 210.0, 219.0, 246.0, 253.0, 262.0];
    assert_eq!(percentile(&data, 0), 77.0);
    assert_eq!(percentile(&data, 1000), 262.0);
    let mut last = percentile(&data, 0);
    for permille in 1..=1000 {
        let next = percentile(&data, permille);
        assert!(last <= next);
        last = next;
    }
}

#[test]
fn bootstrap_draws_from_the_data() {
    let data = vec![3.5, 1.25, 8.0];
    let drawn = bootstrap(&data, BOOTSTRAP_SAMPLES);
    assert_eq!(drawn.len(), 10000);
    assert!(drawn.iter().all(|x| data.contains(x)));
    assert!(data.iter().all(|x| drawn.contains(x)));
    assert!(bootstrap(&data, 0).is_empty());
}

#[test]
fn bootstrap_of_constant_samples_has_no_width() {
    let data = vec![42.0_f64; 17];
    let mut drawn = bootstrap(&data, BOOTSTRAP_SAMPLES);
    drawn.sort_by(|x, y| x.total_cmp(y));
    let width = percentile(&drawn, CONFIDENCE_HIGH) - percentile(&drawn, CONFIDENCE_LOW);
    assert_eq!(width / 42.0, 0.0);
}

#[test]
fn resample_reads_the_samples_at_the_indices() {
    assert_eq!(resample(&vec![10, 20, 30], &vec![2, 0, 2, 1]), vec![30, 10, 30, 20]);
    assert_eq!(resample(&vec![10], &Vec::new()), Vec::<i32>::new());
}

#[test]
fn normalize_perf_output_cleans_the_text() {
    assert_eq!(
        normalize_perf_output("1,001070459;<not counted>;;cycles;0;100,00;;\n"),
        "1.001070459;-1;;cycles;0;100.00;;\n"
    );
    assert_eq!(normalize_perf_output(""), "");
    assert_eq!(normalize_perf_output("<not, counted>"), "<not. counted>");
}

#[test]
fn is_probe_event_looks_at_the_beginning() {
    assert!(is_probe_event("probe_chrono:iter"));
    assert!(is_probe_event("probe_"));
    assert!(!is_probe_event("cycles"));
    assert!(!is_probe_event("my_probe_x"));
    assert!(!is_probe_event("probe"));
}

#[test]
fn group_by_event_sorts_rows_by_event() {
    let names: Vec<String> =
        ["cycles", "probe_a:iter", "cycles", "instructions", "probe_a:iter", "cycles"]
            .iter()
            .map(|s| s.to_string())
            .collect();
    let groups = group_by_event(&names);
    let got: Vec<(&str, &[usize])> =
        groups.iter().map(|g| (g.name.as_str(), g.rows.as_slice())).collect();
    assert_eq!(
        got,
        vec![
            ("cycles", &[0usize, 2, 5][..]),
            ("probe_a:iter", &[1usize, 4][..]),
            ("instructions", &[3usize][..]),
        ]
    );
    assert!(group_by_event(&Vec::new()).is_empty());
}
