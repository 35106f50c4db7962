use benchdiff::diff::{calculate_delta, compare_benchmark_results, find_match, Diff};
use benchdiff::measurement::Measurement;
use benchdiff::mode::Mode;
use benchdiff::record::Record;
use benchdiff::report::compare_reports;

fn record(name: &str, mode: Mode, score: &str, units: &str) -> Record {
    Record {
        name: name.to_string(),
        mode,
        count: 1,
        score: Measurement::parse(score).unwrap(),
        error: Measurement::parse("0.0").unwrap(),
        units: units.to_string(),
    }
}

fn change(diff: &Diff) -> f64 {
    let old = diff.old_score.as_str().parse::<f64>().unwrap();
    let new = diff.new_score.as_str().parse::<f64>().unwrap();
    (new - old) / old
}

#[test]
fn matched_pair_gives_one_diff() {
    let old = vec![record("bench1", Mode::Throughput, "100.0", "ops/s")];
    let new = vec![record("bench1", Mode::Throughput, "110.0", "ops/s")];
    let diffs = compare_benchmark_results(old, new);
    assert_eq!(diffs.len(), 1);
    assert_eq!(diffs[0].name, "bench1");
    assert_eq!(diffs[0].mode, Mode::Throughput);
    assert_eq!(diffs[0].old_score.as_str(), "100.0");
    assert_eq!(diffs[0].new_score.as_str(), "110.0");
    assert_eq!(diffs[0].units, "ops/s");
    assert_eq!(change(&diffs[0]), 0.10);
    assert_eq!(format!("{:+.5}%", change(&diffs[0]) * 100.0), "+10.00000%");
}

#[test]
fn delta_takes_name_mode_and_units_from_the_new_record() {
    let old = record("bench1", Mode::AverageTime, "2.0", "ms/op");
    let new = record("bench1", Mode::SampleTime, "1.0", "ms/op");
    let diff = calculate_delta(&new, &old);
    assert_eq!(diff.name, "bench1");
    assert_eq!(diff.mode, Mode::SampleTime);
    assert_eq!(diff.old_score.as_str(), "2.0");
    assert_eq!(diff.new_score.as_str(), "1.0");
    assert_eq!(diff.units, "ms/op");
    assert_eq!(change(&diff), -0.5);
}

#[test]
fn old_record_without_match_gives_no_diff() {
    let old = vec![record("bench1", Mode::Throughput, "100.0", "ops/s")];
    let new = vec![
        record("bench2", Mode::Throughput, "110.0", "ops/s"),
        record("bench1", Mode::Throughput, "110.0", "ms/op"),
    ];
    assert!(compare_benchmark_results(old, new).is_empty());
}

#[test]
fn new_record_without_match_gives_no_diff() {
    let old = vec![record("bench1", Mode::Throughput, "100.0", "ops/s")];
    let new = vec![
        record("extra", Mode::Throughput, "1.0", "ops/s"),
        record("bench1", Mode::Throughput, "110.0", "ops/s"),
    ];
    let diffs = compare_benchmark_results(old, new);
    assert_eq!(diffs.len(), 1);
    assert_eq!(diffs[0].name, "bench1");
}

#[test]
fn nothing_to_compare_gives_nothing() {
    assert!(compare_benchmark_results(vec![], vec![]).is_empty());
    assert!(compare_benchmark_results(vec![record("a", Mode::Throughput, "1", "u")], vec![]).is_empty());
    assert!(compare_benchmark_results(vec![], vec![record("a", Mode::Throughput, "1", "u")]).is_empty());
}

#[test]
fn first_of_several_new_records_with_one_key_is_taken() {
    let old = vec![record("bench1", Mode::Throughput, "100.0", "ops/s")];
    let new = vec![
        record("other", Mode::Throughput, "5.0", "ops/s"),
        record("bench1", Mode::AverageTime, "110.0", "ops/s"),
        record("bench1", Mode::Throughput, "120.0", "ops/s"),
        record("bench1", Mode::SampleTime, "130.0", "ops/s"),
    ];
    let diffs = compare_benchmark_results(old, new);
    assert_eq!(diffs.len(), 1);
    assert_eq!(diffs[0].new_score.as_str(), "110.0");
    assert_eq!(diffs[0].mode, Mode::AverageTime);
}

#[test]
fn same_input_gives_the_same_diffs_again() {
    let make = || {
        let old = vec![
            record("a", Mode::Throughput, "1.0", "ops/s"),
            record("b", Mode::Throughput, "2.0", "ops/s"),
        ];
        let new = vec![
            record("b", Mode::Throughput, "3.0", "ops/s"),
            record("a", Mode::Throughput, "4.0", "ops/s"),
            record("a", Mode::Throughput, "5.0", "ops/s"),
            record("b", Mode::Throughput, "6.0", "ops/s"),
        ];
        compare_benchmark_results(old, new)
    };
    let first = make();
    assert_eq!(first, make());
    assert_eq!(first.len(), 2);
    assert_eq!(first[0].new_score.as_str(), "4.0");
    assert_eq!(first[1].new_score.as_str(), "3.0");
}

#[test]
fn old_records_with_one_key_each_get_the_same_match() {
    let old = vec![
        record("bench1", Mode::Throughput, "100.0", "ops/s"),
        record("bench1", Mode::Throughput, "200.0", "ops/s"),
    ];
    let new = vec![record("bench1", Mode::Throughput, "110.0", "ops/s")];
    let diffs = compare_benchmark_results(old, new);
    assert_eq!(diffs.len(), 2);
    assert_eq!(diffs[0].old_score.as_str(), "100.0");
    assert_eq!(diffs[0].new_score.as_str(), "110.0");
    assert_eq!(diffs[1].old_score.as_str(), "200.0");
    assert_eq!(diffs[1].new_score.as_str(), "110.0");
}

#[test]
fn diffs_follow_the_order_of_the_old_records() {
    let old = vec![
        record("c", Mode::Throughput, "3.0", "u"),
        record("missing", Mode::Throughput, "9.0", "u"),
        record("a", Mode::Throughput, "1.0", "u"),
        record("b", Mode::Throughput, "2.0", "u"),
    ];
    let new = vec![
        record("a", Mode::Throughput, "10.0", "u"),
        record("b", Mode::Throughput, "20.0", "u"),
        record("c", Mode::Throughput, "30.0", "u"),
    ];
    let diffs = compare_benchmark_results(old, new);
    let names: Vec<&str> = diffs.iter().map(|d| d.name.as_str()).collect();
    assert_eq!(names, vec!["c", "a", "b"]);
}

#[test]
fn name_and_units_must_both_agree() {
    let new = vec![
        record("bench1", Mode::Throughput, "1.0", "ms/op"),
        record("bench2", Mode::Throughput, "2.0", "ops/s"),
        record("bench1", Mode::Throughput, "3.0", "ops/s"),
    ];
    assert_eq!(find_match(&new, &record("bench1", Mode::Throughput, "0", "ops/s")), Some(2));
    assert_eq!(find_match(&new, &record("bench1", Mode::Throughput, "0", "ms/op")), Some(0));
    assert_eq!(find_match(&new, &record("bench2", Mode::AverageTime, "0", "ops/s")), Some(1));
    assert_eq!(find_match(&new, &record("bench2", Mode::Throughput, "0", "ms/op")), None);
    assert_eq!(find_match(&new, &record("Bench1", Mode::Throughput, "0", "ops/s")), None);
    assert_eq!(find_match(&vec![], &record("bench1", Mode::Throughput, "0", "ops/s")), None);
}

#[test]
fn zero_old_score_is_kept_as_it_is() {
    let old = vec![record("bench1", Mode::Throughput, "0.0", "ops/s")];
    let new = vec![record("bench1", Mode::Throughput, "110.0", "ops/s")];
    let diffs = compare_benchmark_results(old, new);
    assert_eq!(diffs.len(), 1);
    assert_eq!(diffs[0].old_score.as_str(), "0.0");
    assert!(change(&diffs[0]).is_infinite());
}

const OLD_REPORT: &str = "# run of Monday\nignored thrpt 1 1.0 ± 0.1 ops/s\n\n\
Benchmark Mode Cnt Score Unused Error Units\n\
bench1 thrpt 5 100.0 ± 0.5 ops/s\n\
bench2 avgt 5 2.0 ± 0.1 ms/op\n\
gone ss 1 7.0 ± 0.0 s/op\n";

const NEW_REPORT: &str = "Benchmark Mode Cnt Score Unused Error Units\n\
bench2 avgt 5 1.0 ± 0.1 ms/op\n\
bench1 thrpt 5 110.0 ± 0.5 ops/s\n\
fresh ss 1 7.0 ± 0.0 s/op\n";

#[test]
fn reports_are_read_and_compared() {
    let out = compare_reports(OLD_REPORT, NEW_REPORT);
    assert!(!out.rows_ignored);
    assert_eq!(out.diffs.len(), 2);
    assert_eq!(out.diffs[0].name, "bench1");
    assert_eq!(out.diffs[0].old_score.as_str(), "100.0");
    assert_eq!(out.diffs[0].new_score.as_str(), "110.0");
    assert_eq!(out.diffs[1].name, "bench2");
    assert_eq!(out.diffs[1].mode, Mode::AverageTime);
    assert_eq!(change(&out.diffs[1]), -0.5);
}

#[test]
fn reports_are_not_swapped() {
    let out = compare_reports(NEW_REPORT, OLD_REPORT);
    assert_eq!(out.diffs.len(), 2);
    assert_eq!(out.diffs[0].name, "bench2");
    assert_eq!(out.diffs[0].old_score.as_str(), "1.0");
    assert_eq!(out.diffs[0].new_score.as_str(), "2.0");
}

#[test]
fn failed_line_in_either_report_is_told() {
    let broken = format!("{}bench3 thrpt 5 100.0 ± 0.5\n", NEW_REPORT);
    assert!(compare_reports(OLD_REPORT, &broken).rows_ignored);
    assert!(compare_reports(&broken, OLD_REPORT).rows_ignored);
    assert!(compare_reports(&broken, &broken).rows_ignored);
    assert_eq!(compare_reports(OLD_REPORT, &broken).diffs, compare_reports(OLD_REPORT, NEW_REPORT).diffs);
}

#[test]
fn empty_reports_compare_to_nothing() {
    let out = compare_reports("", "");
    assert!(out.diffs.is_empty());
    assert!(!out.rows_ignored);
}
