use iai_callgrind_runner::api::DhatMetricKind;
use iai_callgrind_runner::runner::dhat::format::LogfileSummaryFormatter;
use iai_callgrind_runner::runner::dhat::logfile_parser::{
    DhatLogError, DhatLogfileParser, LogPatterns,
};
use iai_callgrind_runner::runner::dhat::LogfileSummary;

fn parser() -> DhatLogfileParser {
    DhatLogfileParser {
        root_dir: "/project".to_owned(),
        patterns: LogPatterns::new().unwrap(),
    }
}

fn lines(text: &[&str]) -> Vec<String> {
    text.iter().map(|s| (*s).to_owned()).collect()
}

#[test]
fn dhat_log_metrics() {
    let ls = lines(&[
        "==1234== ",
        "==1234== Total:     156,362 bytes in 78 blocks",
        "==1234== At t-gmax: 48,821 bytes in 13 blocks",
        "==1234== At t-end:  0 bytes in 0 blocks",
        "==1234== Reads:     119,827 bytes",
        "==1234== Writes:    136,997 bytes",
        "==1234== ",
        "==1234== For a detailed analysis run the viewer",
    ]);
    let (metrics, details) = parser().try_parse_lines(&ls).unwrap().unwrap();
    assert_eq!(
        metrics,
        vec![
            (DhatMetricKind::TotalBytes, 156_362),
            (DhatMetricKind::TotalBlocks, 78),
            (DhatMetricKind::AtTGmaxBytes, 48_821),
            (DhatMetricKind::AtTGmaxBlocks, 13),
            (DhatMetricKind::AtTEndBytes, 0),
            (DhatMetricKind::AtTEndBlocks, 0),
            (DhatMetricKind::ReadsBytes, 119_827),
            (DhatMetricKind::WritesBytes, 136_997),
        ]
    );
    assert!(details.is_empty());
}

#[test]
fn dhat_log_details_without_trailing_blank_lines() {
    let ls = lines(&[
        "==1234== Some detail",
        "==1234== ",
        "==1234== Total: 10 bytes in 1 blocks",
    ]);
    let (metrics, details) = parser().try_parse_lines(&ls).unwrap().unwrap();
    assert_eq!(details, vec![" Some detail".to_owned()]);
    assert_eq!(
        metrics,
        vec![
            (DhatMetricKind::TotalBytes, 10),
            (DhatMetricKind::TotalBlocks, 1)
        ]
    );
}

#[test]
fn dhat_log_when_blocks_are_missing_then_error() {
    let ls = lines(&["==1234== Total: 5 bytes"]);
    let result = parser().try_parse_lines(&ls).unwrap();
    assert_eq!(result.unwrap_err(), DhatLogError::Blocks);
    assert_eq!(DhatLogError::Blocks.message(), "Error parsing blocks");
}

#[test]
fn dhat_log_when_bytes_overflow_then_error() {
    let ls = lines(&[
        "==1234== Total: 1 bytes in 1 blocks",
        "==1234== Reads: 99999999999999999999 bytes",
    ]);
    let result = parser().try_parse_lines(&ls).unwrap();
    assert_eq!(result.unwrap_err(), DhatLogError::Bytes);
    assert_eq!(
        DhatLogError::Bytes.message(),
        "number too large to fit in target type"
    );
}

#[test]
fn dhat_log_total_key_ignores_case() {
    let ls = lines(&["==1234== TOTAL: 3 bytes in 1 blocks", "==1234== Total: 4 bytes in 2 blocks"]);
    let (metrics, _) = parser().try_parse_lines(&ls).unwrap().unwrap();
    assert_eq!(
        metrics,
        vec![
            (DhatMetricKind::TotalBytes, 4),
            (DhatMetricKind::TotalBlocks, 2)
        ]
    );
}

#[test]
fn logfile_summary_format_values() {
    let summary = LogfileSummary {
        command: "/bin/bench".to_owned(),
        pid: 42,
        fields: vec![("Mode".to_owned(), "heap".to_owned())],
    };
    let text = LogfileSummaryFormatter::format_values(
        &summary,
        "/bin/bench",
        "42",
        &vec!["heap".to_owned()],
    );
    assert_eq!(
        text,
        "  Command:          /bin/bench\n  PID:              42\n  Mode:             heap\n"
    );
}

#[test]
fn logfile_summary_format_holds_the_values() {
    let summary = LogfileSummary {
        command: "/bin/bench".to_owned(),
        pid: -3,
        fields: vec![("Mode".to_owned(), "heap".to_owned())],
    };
    let text = LogfileSummaryFormatter::format(&summary);
    assert!(text.starts_with("  Command:          "));
    assert!(text.contains("/bin/bench"));
    assert!(text.contains("-3"));
    assert!(text.contains("  Mode:             "));
    assert!(text.ends_with('\n'));
}
