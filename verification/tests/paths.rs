use std::time::Duration;

use iai_callgrind_runner::callgrind::CallgrindOutput as FirstCallgrindOutput;
use iai_callgrind_runner::paths::collect_path;
use iai_callgrind_runner::runner::args::parse_args;
use iai_callgrind_runner::runner::callgrind::output::CallgrindOutput;
use iai_callgrind_runner::runner::common::{split_segments, BenchmarkSummaries};
use iai_callgrind_runner::runner::summary::BenchmarkSummary;
use iai_callgrind_runner::util::truncate_str_utf8;

fn strings(v: &[&str]) -> Vec<String> {
    v.iter().map(|s| (*s).to_owned()).collect()
}

#[test]
fn split_segments_of_module_path() {
    assert_eq!(split_segments("a::b::c"), strings(&["a", "b", "c"]));
    assert_eq!(split_segments("single"), strings(&["single"]));
    assert_eq!(split_segments(""), strings(&[""]));
    assert_eq!(split_segments(":::"), strings(&["", ":"]));
    assert_eq!(split_segments("a::"), strings(&["a", ""]));
    assert_eq!(split_segments("a:b::c"), strings(&["a:b", "c"]));
}

#[test]
fn collect_path_pushes_each_component() {
    assert_eq!(collect_path(&strings(&["a", "b", "c"])), "a/b/c");
    assert_eq!(collect_path(&strings(&[])), "");
    assert_eq!(collect_path(&strings(&["a", "/abs", "b"])), "/abs/b");
}

#[test]
fn first_callgrind_output_below_target_iai() {
    let output = FirstCallgrindOutput::create("bench_file::group", "bench_fn");
    assert_eq!(output.file, "target/iai/bench_file/group/callgrind.bench_fn.out");
    assert_eq!(
        output.old_output().file,
        "target/iai/bench_file/group/callgrind.bench_fn.out.old"
    );
}

#[test]
fn callgrind_output_with_absolute_base_dir() {
    let output = CallgrindOutput::create("/tmp/target/iai", "file::group", "bench.id");
    assert_eq!(output.file, "/tmp/target/iai/file/group/callgrind.bench.id.out");
}

#[test]
fn callgrind_output_with_relative_base_dir_joins_it_twice() {
    let output = CallgrindOutput::create("target", "file", "bench");
    assert_eq!(output.file, "target/target/file/callgrind.bench.out");
}

#[test]
fn callgrind_output_sanitizes_the_name() {
    let output = CallgrindOutput::create("/t", "m", "a/b:c*d?e\"f<g>h|i\\j\u{7}k");
    assert_eq!(output.file, "/t/m/callgrind.a_b_c_d_e_f_g_h_i_j_k.out");
    let dots = CallgrindOutput::create("/t", "m", "..");
    assert_eq!(dots.file, "/t/m/callgrind._.out");
    let inner_dots = CallgrindOutput::create("/t", "m", "a..b");
    assert_eq!(inner_dots.file, "/t/m/callgrind.a..b.out");
}

#[test]
fn callgrind_output_truncates_long_names() {
    let name = "x".repeat(300);
    let output = CallgrindOutput::create("/t", "m", &name);
    assert_eq!(output.file, format!("/t/m/callgrind.{}.out", "x".repeat(237)));
    let wide = "é".repeat(200);
    let output = CallgrindOutput::create("/t", "m", &wide);
    assert_eq!(output.file, format!("/t/m/callgrind.{}.out", "é".repeat(118)));
}

#[test]
fn truncate_str_utf8_keeps_whole_characters() {
    assert_eq!(truncate_str_utf8("aé", 2), "a");
    assert_eq!(truncate_str_utf8("aé", 3), "aé");
    assert_eq!(truncate_str_utf8("", 0), "");
    assert_eq!(truncate_str_utf8("abc", 0), "");
}

#[test]
fn parse_args_splits_like_a_shell() {
    let args = parse_args("--a 'b c' \"d e\" f\\ g").unwrap();
    assert_eq!(args.0, strings(&["--a", "b c", "d e", "f g"]));
    let empty = parse_args("   ").unwrap();
    assert!(empty.0.is_empty());
}

#[test]
fn parse_args_when_unclosed_quote_then_error() {
    assert_eq!(parse_args("'unclosed").unwrap_err(), "Failed to split args");
}

#[test]
fn benchmark_summaries_count_and_regressions() {
    let mut summaries = BenchmarkSummaries::default();
    assert_eq!(summaries.num_benchmarks(), 0);
    assert!(!summaries.is_regressed());
    summaries.add_summary(BenchmarkSummary { regressed: false });
    assert_eq!(summaries.num_benchmarks(), 1);
    assert!(!summaries.is_regressed());

    let mut other = BenchmarkSummaries::default();
    other.add_summary(BenchmarkSummary { regressed: false });
    other.add_summary(BenchmarkSummary { regressed: true });
    other.total_time = Some(Duration::from_secs(3));
    assert!(other.is_regressed());

    summaries.add_other(other);
    assert_eq!(summaries.num_benchmarks(), 3);
    assert!(summaries.is_regressed());
    assert_eq!(summaries.total_time, None);
    assert!(summaries.summaries[2].is_regressed());
}
